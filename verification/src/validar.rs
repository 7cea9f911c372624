//! Validación de lo que se escribe a mano: nombre de equipo y de usuario, y
//! región, idioma y teclado.
//!
//! La misma comprobación la hace la interfaz mientras se escribe, pero la que
//! decide es ésta: un nombre inválido no lo rechaza el instalador, lo rechaza
//! `useradd` en medio de la instalación, con el disco ya formateado.
//!
//! Los motivos vuelven como una variante y no como una frase, porque el texto
//! lo pone la interfaz desde su catálogo de idioma.

use vstd::prelude::*;
use vstd::utf8::encode_utf8;

use crate::entorno::{es_archivo, es_directorio};
use crate::orden::{lemma_primera, lemma_primera_encontro, primera};
use crate::texto::{
    agregar, bajar_ascii, cadena, cadena_de, caracteres, decimal, dividir, escribir_decimal, es_alfanumerico_ascii, es_blanco,
    es_digito_ascii, es_mayuscula_ascii, es_minuscula_ascii, iguales, iguales_ignorando_caso,
    iguales_sin_caso, lineas, lineas_de, partes, excede_bytes, recortar_sufijos, sin_blancos_al_frente,
    sin_sufijos, tiene_doble,
};

verus! {

broadcast use vstd::string::group_string_axioms;

/// Largo máximo de un nombre de usuario, en bytes: el límite de `useradd` en
/// glibc.
pub const MAX_USUARIO: usize = 32;

/// Largo máximo de una etiqueta de nombre de equipo, por RFC 1123.
pub const MAX_ETIQUETA: usize = 63;

/// Largo máximo de un nombre de dominio completo.
pub const MAX_EQUIPO: usize = 253;

/// Cuántos bytes ocupa en UTF-8, que es lo que cuentan `useradd` y
/// `hostnamectl`.
pub open spec fn bytes_de(s: Seq<char>) -> nat {
    encode_utf8(s).len()
}

/// Nombres que el sistema ya usa.
pub open spec fn reservados() -> Seq<Seq<char>> {
    seq![
        "root"@,
        "bin"@,
        "daemon"@,
        "mail"@,
        "ftp"@,
        "http"@,
        "nobody"@,
        "dbus"@,
        "systemd-network"@,
        "systemd-resolve"@,
        "systemd-timesync"@,
        "systemd-coredump"@,
        "polkitd"@,
        "avahi"@,
        "colord"@,
        "rtkit"@,
        "usbmux"@,
        "geoclue"@,
        "nm-openvpn"@,
        "greeter"@,
        "greetd"@,
        "vasak"@,
        "vasakos"@,
    ]
}

/// Si es un nombre que el sistema ya usa.
pub fn es_reservado(nombre: &str) -> (r: bool)
    ensures
        r == reservados().contains(nombre@),
{
    let lista: [&'static str; 23] = [
        "root",
        "bin",
        "daemon",
        "mail",
        "ftp",
        "http",
        "nobody",
        "dbus",
        "systemd-network",
        "systemd-resolve",
        "systemd-timesync",
        "systemd-coredump",
        "polkitd",
        "avahi",
        "colord",
        "rtkit",
        "usbmux",
        "geoclue",
        "nm-openvpn",
        "greeter",
        "greetd",
        "vasak",
        "vasakos",
    ];
    let ghost r = reservados();
    assert(lista@.map_values(|x: &'static str| x@) =~= r);
    let mut i: usize = 0;
    while i < 23
        invariant
            i <= 23,
            r == reservados(),
            lista@.map_values(|x: &'static str| x@) == r,
            forall|j: int| 0 <= j < i ==> r[j] != nombre@,
        decreases 23 - i,
    {
        assert(lista@[i as int]@ == r[i as int]);
        if iguales(lista[i], nombre) {
            assert(r[i as int] == nombre@);
            return true;
        }
        i = i + 1;
    }
    false
}

/// Por qué un nombre no sirve.
#[derive(Debug, Clone, PartialEq, Eq)]
pub enum ErrorNombre {
    Vacio,
    /// Más largo que el límite del sistema.
    Largo { maximo: usize },
    /// Tiene un carácter que no se admite, y se dice cuál: el sospechoso más
    /// común es un espacio o un acento, que no se ven distintos.
    Caracter { cual: String },
    /// Empieza con algo que no puede ir primero.
    EmpiezaMal,
    /// Termina con algo que no puede ir último.
    TerminaMal,
    /// Es un nombre que el sistema ya usa.
    Reservado,
}

pub enum VistaErrorNombre {
    Vacio,
    Largo { maximo: usize },
    Caracter { cual: Seq<char> },
    EmpiezaMal,
    TerminaMal,
    Reservado,
}

impl View for ErrorNombre {
    type V = VistaErrorNombre;

    open spec fn view(&self) -> VistaErrorNombre {
        match self {
            ErrorNombre::Vacio => VistaErrorNombre::Vacio,
            ErrorNombre::Largo { maximo } => VistaErrorNombre::Largo { maximo: *maximo },
            ErrorNombre::Caracter { cual } => VistaErrorNombre::Caracter { cual: cual@ },
            ErrorNombre::EmpiezaMal => VistaErrorNombre::EmpiezaMal,
            ErrorNombre::TerminaMal => VistaErrorNombre::TerminaMal,
            ErrorNombre::Reservado => VistaErrorNombre::Reservado,
        }
    }
}

/// El texto entre comillas y con los escapes con que lo muestra `{:?}`.
pub uninterp spec fn texto_depurado(s: Seq<char>) -> Seq<char>;

/// Si el texto es ASCII imprimible (del espacio a `~`) sin comillas dobles ni
/// barras invertidas: lo que `{:?}` muestra tal cual.
pub open spec fn imprimible_simple(s: Seq<char>) -> bool {
    forall|i: int|
        0 <= i < s.len() ==> ' ' <= #[trigger] s[i] && s[i] <= '~' && s[i] != '"' && s[i] != '\\'
}

/// Envuelve el `Debug` de `str`: el texto entre comillas dobles, con las
/// comillas, las barras y los caracteres de control escapados. Se promete
/// que el resultado depende del texto y de nada más, y lo que la
/// documentación muestra para ASCII imprimible sin comillas ni barras: que
/// sale el mismo texto entre comillas dobles.
#[verifier::external_body]
fn depurado(s: &str) -> (r: String)
    ensures
        r@ == texto_depurado(s@),
        imprimible_simple(s@) ==> r@ == seq!['"'] + s@ + seq!['"'],
{
    format!("{:?}", s)
}

/// El error como lo escribe `{:?}`.
pub open spec fn depuracion(e: VistaErrorNombre) -> Seq<char> {
    match e {
        VistaErrorNombre::Vacio => "Vacio"@,
        VistaErrorNombre::Largo { maximo } => "Largo { maximo: "@ + decimal(maximo as nat) + " }"@,
        VistaErrorNombre::Caracter { cual } => "Caracter { cual: "@ + texto_depurado(cual) + " }"@,
        VistaErrorNombre::EmpiezaMal => "EmpiezaMal"@,
        VistaErrorNombre::TerminaMal => "TerminaMal"@,
        VistaErrorNombre::Reservado => "Reservado"@,
    }
}

impl ErrorNombre {
    /// El error como lo escribe `{:?}`, que es como va al registro.
    pub fn depurar(&self) -> (r: String)
        ensures
            r@ == depuracion(self@),
            match self@ {
                VistaErrorNombre::Caracter { cual } => imprimible_simple(cual) ==> r@
                    == "Caracter { cual: "@ + seq!['"'] + cual + seq!['"'] + " }"@,
                _ => true,
            },
    {
        match self {
            ErrorNombre::Vacio => cadena("Vacio"),
            ErrorNombre::Largo { maximo } => {
                let mut v: Vec<char> = Vec::new();
                agregar(&mut v, "Largo { maximo: ");
                escribir_decimal(&mut v, *maximo as u64);
                agregar(&mut v, " }");
                cadena_de(v)
            },
            ErrorNombre::Caracter { cual } => {
                let mut v: Vec<char> = Vec::new();
                agregar(&mut v, "Caracter { cual: ");
                let d = depurado(cual.as_str());
                agregar(&mut v, d.as_str());
                agregar(&mut v, " }");
                cadena_de(v)
            },
            ErrorNombre::EmpiezaMal => cadena("EmpiezaMal"),
            ErrorNombre::TerminaMal => cadena("TerminaMal"),
            ErrorNombre::Reservado => cadena("Reservado"),
        }
    }
}

pub open spec fn vista_validacion(r: Result<(), ErrorNombre>) -> Option<VistaErrorNombre> {
    match r {
        Ok(()) => None,
        Err(e) => Some(e@),
    }
}

/// Lo que puede ir en un nombre de usuario: minúsculas, dígitos, `_` y `-`.
pub open spec fn va_en_usuario(c: char) -> bool {
    es_minuscula_ascii(c) || es_digito_ascii(c) || c == '_' || c == '-'
}

pub open spec fn no_va_en_usuario() -> spec_fn(char) -> bool {
    |c: char| !va_en_usuario(c)
}

/// Lo que `useradd` rechaza de un nombre, en el orden en que se comprueba.
pub open spec fn error_de_usuario(s: Seq<char>) -> Option<VistaErrorNombre> {
    let malo = primera(s, no_va_en_usuario());
    if s.len() == 0 {
        Some(VistaErrorNombre::Vacio)
    } else if bytes_de(s) > MAX_USUARIO {
        Some(VistaErrorNombre::Largo { maximo: MAX_USUARIO })
    } else if !(es_minuscula_ascii(s[0]) || s[0] == '_') {
        Some(VistaErrorNombre::EmpiezaMal)
    } else if malo >= 0 {
        Some(VistaErrorNombre::Caracter { cual: seq![s[malo]] })
    } else if reservados().contains(s) {
        Some(VistaErrorNombre::Reservado)
    } else {
        None
    }
}

/// El primer carácter que no cumple `va`, de una búsqueda de principio a fin.
fn primer_malo(c: &Vec<char>, en_equipo: bool) -> (r: Option<usize>)
    ensures
        ({
            let pred = if en_equipo {
                no_va_en_equipo()
            } else {
                no_va_en_usuario()
            };
            match r {
                Some(k) => k == primera(c@, pred) && k < c.len(),
                None => primera(c@, pred) == -1,
            }
        }),
{
    let ghost pred = if en_equipo {
        no_va_en_equipo()
    } else {
        no_va_en_usuario()
    };
    let mut i: usize = 0;
    while i < c.len()
        invariant
            i <= c.len(),
            pred == (if en_equipo {
                no_va_en_equipo()
            } else {
                no_va_en_usuario()
            }),
            forall|j: int| 0 <= j < i ==> !pred(#[trigger] c@[j]),
        decreases c.len() - i,
    {
        let x = c[i];
        let va = if en_equipo {
            ('a' <= x && x <= 'z') || ('A' <= x && x <= 'Z') || ('0' <= x && x <= '9') || x == '-'
        } else {
            ('a' <= x && x <= 'z') || ('0' <= x && x <= '9') || x == '_' || x == '-'
        };
        if !va {
            proof {
                lemma_primera(c@, pred, i as int);
            }
            return Some(i);
        }
        i = i + 1;
    }
    proof {
        lemma_primera(c@, pred, i as int);
    }
    None
}

/// Un carácter como cadena.
fn cadena_de_un(c: char) -> (r: String)
    ensures
        r@ == seq![c],
{
    let mut v: Vec<char> = Vec::new();
    v.push(c);
    assert(v@ =~= seq![c]);
    cadena_de(v)
}

/// Valida un nombre de usuario contra lo que acepta `useradd`.
///
/// Empieza con minúscula o `_` y sigue con minúsculas, dígitos, `_` o `-`.
/// Sin mayúsculas: `useradd` las acepta con `--badname` pero después medio
/// ecosistema las baja a minúscula y el usuario termina con dos nombres.
pub fn nombre_de_usuario(nombre: &str) -> (r: Result<(), ErrorNombre>)
    ensures
        vista_validacion(r) == error_de_usuario(nombre@),
{
    if nombre.is_empty() {
        return Err(ErrorNombre::Vacio);
    }
    let c = caracteres(nombre);
    if excede_bytes(&c, MAX_USUARIO) {
        return Err(ErrorNombre::Largo { maximo: MAX_USUARIO });
    }
    let primero = c[0];
    if !(('a' <= primero && primero <= 'z') || primero == '_') {
        return Err(ErrorNombre::EmpiezaMal);
    }
    match primer_malo(&c, false) {
        Some(k) => {
            return Err(ErrorNombre::Caracter { cual: cadena_de_un(c[k]) });
        },
        None => {},
    }
    if es_reservado(nombre) {
        return Err(ErrorNombre::Reservado);
    }
    Ok(())
}

/// Lo que puede ir en una etiqueta de nombre de equipo: letras y dígitos
/// ASCII y el guion.
pub open spec fn va_en_equipo(c: char) -> bool {
    es_alfanumerico_ascii(c) || c == '-'
}

pub open spec fn no_va_en_equipo() -> spec_fn(char) -> bool {
    |c: char| !va_en_equipo(c)
}

/// Lo que está mal de una etiqueta, en el orden en que se comprueba.
pub open spec fn error_de_etiqueta(e: Seq<char>) -> Option<VistaErrorNombre> {
    let malo = primera(e, no_va_en_equipo());
    if e.len() == 0 {
        Some(VistaErrorNombre::Caracter { cual: seq!['.'] })
    } else if bytes_de(e) > MAX_ETIQUETA {
        Some(VistaErrorNombre::Largo { maximo: MAX_ETIQUETA })
    } else if e[0] == '-' {
        Some(VistaErrorNombre::EmpiezaMal)
    } else if e.last() == '-' {
        Some(VistaErrorNombre::TerminaMal)
    } else if malo >= 0 {
        Some(VistaErrorNombre::Caracter { cual: seq![e[malo]] })
    } else {
        None
    }
}

/// El error de la primera etiqueta que tenga uno.
pub open spec fn error_de_etiquetas(ls: Seq<Seq<char>>) -> Option<VistaErrorNombre>
    decreases ls.len(),
{
    if ls.len() == 0 {
        None
    } else {
        match error_de_etiqueta(ls[0]) {
            Some(e) => Some(e),
            None => error_de_etiquetas(ls.drop_first()),
        }
    }
}

/// Lo que está mal de un nombre de equipo.
pub open spec fn error_de_equipo(s: Seq<char>) -> Option<VistaErrorNombre> {
    if s.len() == 0 {
        Some(VistaErrorNombre::Vacio)
    } else if bytes_de(s) > MAX_EQUIPO {
        Some(VistaErrorNombre::Largo { maximo: MAX_EQUIPO })
    } else if iguales_sin_caso(s, "localhost"@) {
        Some(VistaErrorNombre::Reservado)
    } else {
        error_de_etiquetas(partes(s, '.'))
    }
}

fn revisar_etiqueta(e: &Vec<char>) -> (r: Result<(), ErrorNombre>)
    ensures
        vista_validacion(r) == error_de_etiqueta(e@),
{
    if e.len() == 0 {
        return Err(ErrorNombre::Caracter { cual: cadena_de_un('.') });
    }
    if excede_bytes(e, MAX_ETIQUETA) {
        return Err(ErrorNombre::Largo { maximo: MAX_ETIQUETA });
    }
    if e[0] == '-' {
        return Err(ErrorNombre::EmpiezaMal);
    }
    if e[e.len() - 1] == '-' {
        return Err(ErrorNombre::TerminaMal);
    }
    match primer_malo(e, true) {
        Some(k) => Err(ErrorNombre::Caracter { cual: cadena_de_un(e[k]) }),
        None => Ok(()),
    }
}

/// Valida un nombre de equipo.
///
/// RFC 1123: etiquetas separadas por puntos, cada una con letras, dígitos y
/// guiones, sin empezar ni terminar con guion. `localhost` no: apunta a
/// 127.0.0.1 y un equipo llamado así no resuelve su propio nombre.
pub fn nombre_de_equipo(nombre: &str) -> (r: Result<(), ErrorNombre>)
    ensures
        vista_validacion(r) == error_de_equipo(nombre@),
{
    if nombre.is_empty() {
        return Err(ErrorNombre::Vacio);
    }
    if excede_bytes(&caracteres(nombre), MAX_EQUIPO) {
        return Err(ErrorNombre::Largo { maximo: MAX_EQUIPO });
    }
    if iguales_ignorando_caso(nombre, "localhost") {
        return Err(ErrorNombre::Reservado);
    }
    let etiquetas = dividir(nombre, '.');
    let ghost ls = etiquetas@.map_values(|t: Vec<char>| t@);
    let mut i: usize = 0;
    proof {
        assert(ls.skip(0) =~= ls);
    }
    while i < etiquetas.len()
        invariant
            i <= etiquetas.len(),
            ls == etiquetas@.map_values(|t: Vec<char>| t@),
            ls == partes(nombre@, '.'),
            nombre@.len() > 0,
            bytes_de(nombre@) <= MAX_EQUIPO,
            !iguales_sin_caso(nombre@, "localhost"@),
            error_de_etiquetas(ls) == error_de_etiquetas(ls.skip(i as int)),
        decreases etiquetas.len() - i,
    {
        proof {
            assert(ls.skip(i as int)[0] == etiquetas@[i as int]@);
            assert(ls.skip(i as int).drop_first() =~= ls.skip(i as int + 1));
        }
        match revisar_etiqueta(&etiquetas[i]) {
            Err(e) => {
                return Err(e);
            },
            Ok(()) => {},
        }
        i = i + 1;
    }
    proof {
        assert(ls.skip(i as int) =~= seq![]);
    }
    Ok(())
}

// ── La sugerencia de usuario ────────────────────────────────────────────────

/// La letra sin el acento que lleva en español o portugués; cualquier otro
/// carácter queda igual.
pub open spec fn sin_acento_spec(c: char) -> char {
    if c == 'á' || c == 'à' || c == 'ä' || c == 'â' || c == 'ã' || c == 'Á' || c == 'À' || c == 'Ä'
        || c == 'Â' || c == 'Ã' {
        'a'
    } else if c == 'é' || c == 'è' || c == 'ë' || c == 'ê' || c == 'É' || c == 'È' || c == 'Ë' || c
        == 'Ê' {
        'e'
    } else if c == 'í' || c == 'ì' || c == 'ï' || c == 'î' || c == 'Í' || c == 'Ì' || c == 'Ï' || c
        == 'Î' {
        'i'
    } else if c == 'ó' || c == 'ò' || c == 'ö' || c == 'ô' || c == 'õ' || c == 'Ó' || c == 'Ò' || c
        == 'Ö' || c == 'Ô' || c == 'Õ' {
        'o'
    } else if c == 'ú' || c == 'ù' || c == 'ü' || c == 'û' || c == 'Ú' || c == 'Ù' || c == 'Ü' || c
        == 'Û' {
        'u'
    } else if c == 'ñ' || c == 'Ñ' {
        'n'
    } else if c == 'ç' || c == 'Ç' {
        'c'
    } else {
        c
    }
}

/// Quita el acento de las letras que lo llevan en español y portugués.
///
/// Una tabla y no normalización Unicode: lo que no está en la tabla lo filtra
/// el paso siguiente.
pub fn sin_acento(c: char) -> (r: char)
    ensures
        r == sin_acento_spec(c),
{
    match c {
        'á' | 'à' | 'ä' | 'â' | 'ã' | 'Á' | 'À' | 'Ä' | 'Â' | 'Ã' => 'a',
        'é' | 'è' | 'ë' | 'ê' | 'É' | 'È' | 'Ë' | 'Ê' => 'e',
        'í' | 'ì' | 'ï' | 'î' | 'Í' | 'Ì' | 'Ï' | 'Î' => 'i',
        'ó' | 'ò' | 'ö' | 'ô' | 'õ' | 'Ó' | 'Ò' | 'Ö' | 'Ô' | 'Õ' => 'o',
        'ú' | 'ù' | 'ü' | 'û' | 'Ú' | 'Ù' | 'Ü' | 'Û' => 'u',
        'ñ' | 'Ñ' => 'n',
        'ç' | 'Ç' => 'c',
        otro => otro,
    }
}

/// Lo que devuelve `char::to_lowercase`: la minúscula de Unicode, que puede
/// ser más de un carácter.
pub uninterp spec fn minusculas_de(c: char) -> Seq<char>;

/// Envuelve `char::to_lowercase`.
///
/// Promete que el resultado es `minusculas_de(c)`, y lo que la documentación
/// muestra para ASCII: que la minúscula de un carácter ASCII es ese carácter
/// con la letra bajada, uno solo. Del resto de Unicode no dice nada.
#[verifier::external_body]
fn a_minusculas(c: char) -> (r: Vec<char>)
    ensures
        r@ == minusculas_de(c),
        (c as u32) < 0x80 ==> r@ == seq![bajar_ascii(c)],
{
    c.to_lowercase().collect()
}

/// La primera palabra: lo que hay desde el primer carácter que no es blanco
/// hasta el siguiente blanco.
pub open spec fn hasta_un_blanco(s: Seq<char>) -> Seq<char>
    decreases s.len(),
{
    if s.len() == 0 || es_blanco(s[0]) {
        seq![]
    } else {
        seq![s[0]] + hasta_un_blanco(s.drop_first())
    }
}

pub open spec fn primera_palabra(s: Seq<char>) -> Seq<char> {
    hasta_un_blanco(sin_blancos_al_frente(s))
}

/// Las minúsculas de cada letra sin acento, una detrás de otra.
pub open spec fn en_minusculas(s: Seq<char>) -> Seq<char>
    decreases s.len(),
{
    if s.len() == 0 {
        seq![]
    } else {
        en_minusculas(s.drop_last()) + minusculas_de(sin_acento_spec(s.last()))
    }
}

/// Si sirve para un nombre de usuario sugerido.
pub open spec fn usable(c: char) -> bool {
    es_minuscula_ascii(c) || es_digito_ascii(c)
}

/// Los caracteres que sirven, en orden.
pub open spec fn usables(s: Seq<char>) -> Seq<char>
    decreases s.len(),
{
    if s.len() == 0 {
        seq![]
    } else {
        usables(s.drop_last()) + if usable(s.last()) {
            seq![s.last()]
        } else {
            seq![]
        }
    }
}

pub open spec fn sin_digitos_al_frente(s: Seq<char>) -> Seq<char>
    decreases s.len(),
{
    if s.len() > 0 && es_digito_ascii(s[0]) {
        sin_digitos_al_frente(s.drop_first())
    } else {
        s
    }
}

/// Lo que se sugiere como nombre de usuario: la primera palabra, sin
/// acentos, en minúsculas, sólo con minúsculas ASCII y dígitos, hasta 32, sin
/// dígitos adelante; y nada si no queda nada o queda un nombre reservado.
pub open spec fn sugerencia(nombre: Seq<char>) -> Seq<char> {
    sugerencia_desde(en_minusculas(primera_palabra(nombre)))
}

/// Cada letra con acento, diéresis, tilde o cedilla pasada a la que la lleva
/// sin ella.
pub open spec fn sin_acentos(s: Seq<char>) -> Seq<char> {
    s.map_values(|c: char| sin_acento_spec(c))
}

/// La sugerencia a partir de la palabra ya pasada a minúsculas.
pub open spec fn sugerencia_desde(minusculas: Seq<char>) -> Seq<char> {
    let u = usables(minusculas);
    let t = if u.len() > MAX_USUARIO {
        u.take(MAX_USUARIO as int)
    } else {
        u
    };
    let r = sin_digitos_al_frente(t);
    if r.len() == 0 || reservados().contains(r) {
        seq![]
    } else {
        r
    }
}

proof fn lemma_usables_suma(a: Seq<char>, b: Seq<char>)
    ensures
        usables(a + b) == usables(a) + usables(b),
    decreases b.len(),
{
    if b.len() == 0 {
        assert(a + b =~= a);
        assert(usables(a) + usables(b) =~= usables(a));
    } else {
        lemma_usables_suma(a, b.drop_last());
        assert((a + b).drop_last() =~= a + b.drop_last());
        assert((a + b).last() == b.last());
    }
}

proof fn lemma_usables_son_usables(s: Seq<char>)
    ensures
        forall|i: int| 0 <= i < usables(s).len() ==> usable(#[trigger] usables(s)[i]),
        usables(s).len() <= s.len(),
    decreases s.len(),
{
    if s.len() > 0 {
        lemma_usables_son_usables(s.drop_last());
    }
}

proof fn lemma_sin_digitos(s: Seq<char>)
    ensures
        exists|k: int| 0 <= k <= s.len() && sin_digitos_al_frente(s) == s.skip(k),
        sin_digitos_al_frente(s).len() > 0 ==> !es_digito_ascii(sin_digitos_al_frente(s)[0]),
    decreases s.len(),
{
    if s.len() > 0 && es_digito_ascii(s[0]) {
        lemma_sin_digitos(s.drop_first());
        let k = choose|k: int|
            0 <= k <= s.drop_first().len() && sin_digitos_al_frente(s.drop_first())
                == s.drop_first().skip(k);
        assert(s.drop_first().skip(k) =~= s.skip(k + 1));
    } else {
        assert(s.skip(0) =~= s);
    }
}

/// En ASCII, cada carácter ocupa un byte.
proof fn lemma_bytes_ascii(s: Seq<char>)
    requires
        forall|i: int| 0 <= i < s.len() ==> (#[trigger] s[i] as u32) < 0x80,
    ensures
        bytes_de(s) == s.len(),
    decreases s.len(),
{
    if s.len() > 0 {
        let t = s.drop_first();
        assert forall|i: int| 0 <= i < t.len() implies (#[trigger] t[i] as u32) < 0x80 by {
            assert(t[i] == s[i + 1]);
        }
        lemma_bytes_ascii(t);
        assert((s[0] as u32) < 0x80);
    }
}

/// **Lo que se sugiere siempre valida**: la sugerencia de usuario está vacía
/// —que se entiende como «escribilo vos»— o es un nombre que
/// `nombre_de_usuario` acepta. Nunca autocompleta el campo con algo que
/// después se rechaza. Además, para cualquier entrada: sólo lleva minúsculas
/// ASCII y dígitos, no empieza con un dígito, tiene a lo sumo 32 caracteres y,
/// si no está vacía, no es un nombre reservado.
pub proof fn la_sugerencia_siempre_valida(nombre: Seq<char>)
    ensures
        sugerencia(nombre).len() == 0 || error_de_usuario(sugerencia(nombre)) is None,
        forall|i: int| 0 <= i < sugerencia(nombre).len() ==> usable(#[trigger] sugerencia(nombre)[i]),
        sugerencia(nombre).len() > 0 ==> !es_digito_ascii(sugerencia(nombre)[0]),
        sugerencia(nombre).len() <= MAX_USUARIO,
        sugerencia(nombre).len() > 0 ==> !reservados().contains(sugerencia(nombre)),
{
    let u = usables(en_minusculas(primera_palabra(nombre)));
    lemma_usables_son_usables(en_minusculas(primera_palabra(nombre)));
    let t = if u.len() > MAX_USUARIO {
        u.take(MAX_USUARIO as int)
    } else {
        u
    };
    let r = sin_digitos_al_frente(t);
    lemma_sin_digitos(t);
    let k = choose|k: int| 0 <= k <= t.len() && r == t.skip(k);
    if sugerencia(nombre).len() > 0 {
        assert(sugerencia(nombre) == r);
        assert forall|i: int| 0 <= i < r.len() implies usable(#[trigger] r[i]) by {
            assert(r[i] == t[i + k]);
            assert(t[i + k] == u[i + k]);
        }
        assert forall|i: int| 0 <= i < r.len() implies (#[trigger] r[i] as u32) < 0x80 by {
            assert(usable(r[i]));
        }
        lemma_bytes_ascii(r);
        lemma_primera_encontro(r, no_va_en_usuario());
        if primera(r, no_va_en_usuario()) >= 0 {
            let m = primera(r, no_va_en_usuario());
            assert(usable(r[m]));
        }
    }
}

/// La primera palabra de una cadena.
pub fn primera_palabra_de(c: &Vec<char>) -> (r: Vec<char>)
    ensures
        r@ == primera_palabra(c@),
{
    let mut i: usize = 0;
    proof {
        assert(c@.skip(0) =~= c@);
    }
    while i < c.len() && crate::texto::blanco(c[i])
        invariant
            i <= c.len(),
            sin_blancos_al_frente(c@) == sin_blancos_al_frente(c@.skip(i as int)),
        decreases c.len() - i,
    {
        proof {
            assert(c@.skip(i as int)[0] == c@[i as int]);
            assert(c@.skip(i as int).drop_first() =~= c@.skip(i as int + 1));
        }
        i = i + 1;
    }
    let ghost resto = c@.skip(i as int);
    proof {
        if i < c.len() {
            assert(resto[0] == c@[i as int]);
        } else {
            assert(resto =~= seq![]);
        }
        assert(sin_blancos_al_frente(resto) == resto);
    }
    let mut r: Vec<char> = Vec::new();
    let mut j: usize = i;
    proof {
        assert(c@.skip(j as int) == resto);
        assert(r@ + hasta_un_blanco(c@.skip(j as int)) =~= hasta_un_blanco(resto));
    }
    while j < c.len() && !crate::texto::blanco(c[j])
        invariant
            i <= j <= c.len(),
            resto == c@.skip(i as int),
            r@ + hasta_un_blanco(c@.skip(j as int)) == hasta_un_blanco(resto),
        decreases c.len() - j,
    {
        proof {
            assert(c@.skip(j as int)[0] == c@[j as int]);
            assert(c@.skip(j as int).drop_first() =~= c@.skip(j as int + 1));
        }
        let ghost antes = r@;
        r.push(c[j]);
        assert(r@ + hasta_un_blanco(c@.skip(j as int + 1)) =~= antes + hasta_un_blanco(
            c@.skip(j as int),
        ));
        j = j + 1;
    }
    proof {
        if j < c.len() {
            assert(c@.skip(j as int)[0] == c@[j as int]);
        } else {
            assert(c@.skip(j as int) =~= seq![]);
        }
        assert(r@ =~= hasta_un_blanco(resto));
    }
    r
}

/// Propone un nombre de usuario a partir del nombre completo.
///
/// Se queda con la primera palabra, le saca los acentos, baja a minúsculas,
/// deja sólo minúsculas ASCII y dígitos, corta en 32 y saca los dígitos de
/// adelante. Si no queda nada usable, o queda un nombre reservado, devuelve
/// vacío: un campo vacío se entiende como «escribilo vos».
pub fn sugerir_usuario(nombre_completo: &str) -> (r: String)
    ensures
        r@ == sugerencia(nombre_completo@),
        crate::teclado::es_ascii(sin_acentos(primera_palabra(nombre_completo@))) ==> r@
            == sugerencia_desde(crate::teclado::bajar_todo_ascii(sin_acentos(primera_palabra(nombre_completo@)))),
{
    let c = caracteres(nombre_completo);
    let palabra = primera_palabra_de(&c);
    let mut juntos: Vec<char> = Vec::new();
    let mut i: usize = 0;
    while i < palabra.len()
        invariant
            i <= palabra.len(),
            juntos@ == usables(en_minusculas(palabra@.take(i as int))),
            crate::teclado::es_ascii(sin_acentos(palabra@)) ==> en_minusculas(palabra@.take(i as int))
                == crate::teclado::bajar_todo_ascii(sin_acentos(palabra@.take(i as int))),
        decreases palabra.len() - i,
    {
        let m = a_minusculas(sin_acento(palabra[i]));
        proof {
            if crate::teclado::es_ascii(sin_acentos(palabra@)) {
                let x = palabra@[i as int];
                let y = sin_acento_spec(x);
                assert(sin_acentos(palabra@)[i as int] == y);
                assert((y as u32) < 0x80);
                let p = palabra@.take(i as int + 1);
                assert(p.drop_last() =~= palabra@.take(i as int));
                assert(sin_acentos(p) =~= sin_acentos(palabra@.take(i as int)).push(y));
                assert(crate::teclado::bajar_todo_ascii(sin_acentos(p)) =~= crate::teclado::bajar_todo_ascii(
                    sin_acentos(palabra@.take(i as int)),
                ) + seq![crate::texto::bajar_ascii(y)]);
            }
        }
        let ghost antes = juntos@;
        let mut k: usize = 0;
        while k < m.len()
            invariant
                k <= m.len(),
                juntos@ == antes + usables(m@.take(k as int)),
            decreases m.len() - k,
        {
            let x = m[k];
            proof {
                assert(m@.take(k as int + 1).drop_last() =~= m@.take(k as int));
                assert(m@.take(k as int + 1).last() == x);
            }
            if ('a' <= x && x <= 'z') || ('0' <= x && x <= '9') {
                juntos.push(x);
                assert(juntos@ =~= antes + usables(m@.take(k as int + 1)));
            } else {
                assert(juntos@ =~= antes + usables(m@.take(k as int + 1)));
            }
            k = k + 1;
        }
        proof {
            assert(m@.take(k as int) =~= m@);
            let p = palabra@.take(i as int + 1);
            assert(p.drop_last() =~= palabra@.take(i as int));
            assert(p.last() == palabra@[i as int]);
            lemma_usables_suma(en_minusculas(palabra@.take(i as int)), m@);
        }
        i = i + 1;
    }
    assert(palabra@.take(i as int) =~= palabra@);
    assert(crate::teclado::es_ascii(sin_acentos(palabra@)) ==> en_minusculas(palabra@)
        == crate::teclado::bajar_todo_ascii(sin_acentos(palabra@)));
    let ghost u = juntos@;
    let mut tope: usize = juntos.len();
    if tope > MAX_USUARIO {
        tope = MAX_USUARIO;
    }
    let mut j: usize = 0;
    proof {
        let t = if u.len() > MAX_USUARIO {
            u.take(MAX_USUARIO as int)
        } else {
            u
        };
        assert(t.len() == tope);
        assert(t.skip(0) =~= t);
    }
    while j < tope && '0' <= juntos[j] && juntos[j] <= '9'
        invariant
            j <= tope,
            tope <= juntos.len(),
            u == juntos@,
            tope == (if u.len() > MAX_USUARIO {
                MAX_USUARIO as int
            } else {
                u.len() as int
            }),
            ({
                let t = if u.len() > MAX_USUARIO {
                    u.take(MAX_USUARIO as int)
                } else {
                    u
                };
                sin_digitos_al_frente(t) == sin_digitos_al_frente(t.skip(j as int))
            }),
        decreases tope - j,
    {
        proof {
            let t = if u.len() > MAX_USUARIO {
                u.take(MAX_USUARIO as int)
            } else {
                u
            };
            assert(t.skip(j as int)[0] == t[j as int]);
            assert(t.skip(j as int).drop_first() =~= t.skip(j as int + 1));
        }
        j = j + 1;
    }
    let mut r: Vec<char> = Vec::new();
    let mut m: usize = j;
    while m < tope
        invariant
            j <= m <= tope,
            tope <= juntos.len(),
            r@ == juntos@.subrange(j as int, m as int),
        decreases tope - m,
    {
        r.push(juntos[m]);
        assert(r@ =~= juntos@.subrange(j as int, m as int + 1));
        m = m + 1;
    }
    proof {
        let t = if u.len() > MAX_USUARIO {
            u.take(MAX_USUARIO as int)
        } else {
            u
        };
        if j < tope {
            assert(t.skip(j as int)[0] == t[j as int]);
        } else {
            assert(t.skip(j as int) =~= seq![]);
        }
        assert(sin_digitos_al_frente(t.skip(j as int)) == t.skip(j as int));
        assert(r@ =~= t.skip(j as int));
    }
    let texto = cadena_de(r);
    if texto.as_str().is_empty() || es_reservado(texto.as_str()) {
        return String::new();
    }
    texto
}


// ── Región, idioma y teclado ────────────────────────────────────────────────
//
// Se pueden escribir a mano cuando el sistema no pudo dar los catálogos, así
// que se comprueban antes de instalar: un valor inválido falla dentro del
// chroot, con el disco ya formateado.

pub open spec fn vista_texto_res(r: Result<(), String>) -> Result<(), Seq<char>> {
    match r {
        Ok(()) => Ok(()),
        Err(e) => Err(e@),
    }
}

/// Una zona que no es un nombre relativo dentro de la base: absoluta, o con
/// un tramo `.` o `..`.
pub open spec fn zona_mal_formada(z: Seq<char>) -> bool {
    z[0] == '/' || partes(z, '/').contains("."@) || partes(z, '/').contains(".."@)
}

/// Lo que se responde de una zona, sabiendo si la base de zonas está y si la
/// zona está en ella.
pub open spec fn veredicto_zona_spec(z: Seq<char>, hay_base: bool, existe: bool) -> Result<
    (),
    Seq<char>,
> {
    if z.len() == 0 {
        Err("está vacía"@)
    } else if zona_mal_formada(z) {
        Err("«"@ + z + "» no es un nombre de zona"@)
    } else if !hay_base || existe {
        Ok(())
    } else {
        Err("«"@ + z + "» no está en la base de zonas horarias"@)
    }
}

fn tramo_es(t: &Vec<char>, s: &str) -> (r: bool)
    ensures
        r == (t@ == s@),
{
    let c = caracteres(s);
    if t.len() != c.len() {
        return false;
    }
    let mut i: usize = 0;
    while i < t.len()
        invariant
            i <= t.len(),
            t.len() == c.len(),
            c@ == s@,
            forall|j: int| 0 <= j < i ==> t@[j] == c@[j],
        decreases t.len() - i,
    {
        if t[i] != c[i] {
            return false;
        }
        i = i + 1;
    }
    assert(t@ =~= c@);
    true
}

/// Si algún tramo de la lista es `s`.
fn algun_tramo_es(ts: &Vec<Vec<char>>, s: &str) -> (r: bool)
    ensures
        r == ts@.map_values(|t: Vec<char>| t@).contains(s@),
{
    let ghost v = ts@.map_values(|t: Vec<char>| t@);
    let mut i: usize = 0;
    while i < ts.len()
        invariant
            i <= ts.len(),
            v == ts@.map_values(|t: Vec<char>| t@),
            forall|j: int| 0 <= j < i ==> v[j] != s@,
        decreases ts.len() - i,
    {
        if tramo_es(&ts[i], s) {
            assert(v[i as int] == s@);
            return true;
        }
        i = i + 1;
    }
    false
}

/// Un error con el nombre entre comillas latinas: `«nombre» resto`.
fn entre_comillas(nombre: &str, resto: &str) -> (r: String)
    ensures
        r@ == "«"@ + nombre@ + resto@,
{
    let mut v: Vec<char> = Vec::new();
    agregar(&mut v, "«");
    agregar(&mut v, nombre);
    agregar(&mut v, resto);
    cadena_de(v)
}

/// Lo que se responde de una zona horaria, sabiendo si la base de zonas está
/// en el sistema y si la zona está en ella.
///
/// Sin base de datos no se puede comprobar nada, y rechazar todo dejaría el
/// instalador sin poder instalar: se acepta lo que esté bien escrito.
pub fn veredicto_zona(zona: &str, hay_base: bool, existe: bool) -> (r: Result<(), String>)
    ensures
        vista_texto_res(r) == veredicto_zona_spec(zona@, hay_base, existe),
{
    if zona.is_empty() {
        return Err(cadena("está vacía"));
    }
    let c = caracteres(zona);
    let tramos = dividir(zona, '/');
    if c[0] == '/' || algun_tramo_es(&tramos, ".") || algun_tramo_es(&tramos, "..") {
        return Err(entre_comillas(zona, "» no es un nombre de zona"));
    }
    if !hay_base || existe {
        Ok(())
    } else {
        Err(entre_comillas(zona, "» no está en la base de zonas horarias"))
    }
}

/// Dónde está la base de datos de zonas horarias.
pub fn base_de_zonas() -> (r: &'static str)
    ensures
        r@ == "/usr/share/zoneinfo"@,
{
    "/usr/share/zoneinfo"
}

/// El archivo de una zona dentro de la base de zonas.
pub fn ruta_de_zona(zona: &str) -> (r: String)
    ensures
        r@ == "/usr/share/zoneinfo/"@ + zona@,
{
    proof {
        reveal_strlit("/usr/share/zoneinfo/");
        reveal_strlit("/usr/share/zoneinfo");
        reveal_strlit("/");
    }
    let mut ruta: Vec<char> = Vec::new();
    agregar(&mut ruta, base_de_zonas());
    agregar(&mut ruta, "/");
    agregar(&mut ruta, zona);
    proof {
        assert("/usr/share/zoneinfo"@ + "/"@ =~= "/usr/share/zoneinfo/"@);
        assert(ruta@ =~= "/usr/share/zoneinfo/"@ + zona@);
    }
    cadena_de(ruta)
}

/// Que la zona horaria exista en la base de datos de zonas.
///
/// Se rechaza antes de mirar el disco una zona absoluta o con tramos que
/// suban: el nombre viene de la interfaz y termina en un enlace a
/// `/etc/localtime`, y un `../../etc/shadow` se resolvería a un archivo que
/// existe. Después se pregunta si `base_de_zonas()` es un directorio y, si
/// lo es, si `ruta_de_zona(zona)` es un archivo: son esas dos rutas y ninguna
/// otra las que se le pasan al disco.
pub fn zona_horaria(zona: &str) -> (r: Result<(), String>)
    ensures
        exists|hay_base: bool, existe: bool|
            vista_texto_res(r) == veredicto_zona_spec(zona@, hay_base, existe),
{
    let previo = veredicto_zona(zona, true, true);
    match previo {
        Err(e) => {
            assert(vista_texto_res(Err(e)) == veredicto_zona_spec(zona@, true, true));
            return Err(e);
        },
        Ok(()) => {},
    }
    let hay_base = es_directorio(base_de_zonas());
    let completa = ruta_de_zona(zona);
    let existe = hay_base && es_archivo(completa.as_str());
    let r = veredicto_zona(zona, hay_base, existe);
    assert(vista_texto_res(r) == veredicto_zona_spec(zona@, hay_base, existe));
    r
}

/// Lo que puede ir en el nombre de un local de glibc (`es_AR`,
/// `ca_ES@valencia`).
pub open spec fn va_en_local(c: char) -> bool {
    es_alfanumerico_ascii(c) || c == '_' || c == '@' || c == '-'
}

/// Si una línea de `SUPPORTED` nombra ese local, sin la codificación.
pub open spec fn linea_nombra(linea: Seq<char>, local: Seq<char>) -> bool {
    sin_sufijos(primera_palabra(linea), ".UTF-8"@) == local
}

/// Si alguna línea de `SUPPORTED` nombra ese local.
pub open spec fn nombrado_en(contenido: Seq<char>, local: Seq<char>) -> bool {
    exists|i: int| 0 <= i < lineas(contenido).len() && linea_nombra(#[trigger] lineas(contenido)[i], local)
}

/// Lo que se responde de un idioma, dado el contenido de
/// `/usr/share/i18n/SUPPORTED` si se pudo leer.
pub open spec fn idioma_spec(local: Seq<char>, soportados: Option<Seq<char>>) -> Result<
    (),
    Seq<char>,
> {
    if local.len() == 0 {
        Err("está vacío"@)
    } else if exists|i: int| 0 <= i < local.len() && !va_en_local(#[trigger] local[i]) {
        Err("«"@ + local + "» tiene caracteres que no van en un local"@)
    } else {
        match soportados {
            None => Ok(()),
            Some(contenido) => if nombrado_en(contenido, local) {
                Ok(())
            } else {
                Err("«"@ + local + "» no está entre los idiomas del sistema"@)
            },
        }
    }
}

/// Que el idioma esté entre los que soporta glibc.
///
/// Se compara sin la codificación: `SUPPORTED` trae `es_AR.UTF-8 UTF-8` y acá
/// se espera `es_AR`. Sin el catálogo (`None`) no se puede comprobar y se
/// acepta lo que esté bien escrito.
pub fn idioma(local: &str, soportados: Option<&str>) -> (r: Result<(), String>)
    ensures
        vista_texto_res(r) == idioma_spec(
            local@,
            match soportados {
                Some(s) => Some(s@),
                None => None,
            },
        ),
{
    if local.is_empty() {
        return Err(cadena("está vacío"));
    }
    let c = caracteres(local);
    let mut i: usize = 0;
    while i < c.len()
        invariant
            i <= c.len(),
            c@ == local@,
            forall|j: int| 0 <= j < i ==> va_en_local(#[trigger] c@[j]),
        decreases c.len() - i,
    {
        let x = c[i];
        if !(('a' <= x && x <= 'z') || ('A' <= x && x <= 'Z') || ('0' <= x && x <= '9') || x == '_'
            || x == '@' || x == '-') {
            assert(!va_en_local(local@[i as int]));
            return Err(entre_comillas(local, "» tiene caracteres que no van en un local"));
        }
        i = i + 1;
    }
    let contenido = match soportados {
        None => {
            return Ok(());
        },
        Some(s) => s,
    };
    let ls = lineas_de(contenido);
    let ghost vl = ls@.map_values(|t: Vec<char>| t@);
    let mut k: usize = 0;
    while k < ls.len()
        invariant
            k <= ls.len(),
            vl == ls@.map_values(|t: Vec<char>| t@),
            vl == lineas(contenido@),
            local@.len() > 0,
            forall|j: int| 0 <= j < local@.len() ==> va_en_local(#[trigger] local@[j]),
            soportados == Some(contenido),
            forall|j: int| 0 <= j < k ==> !linea_nombra(#[trigger] vl[j], local@),
        decreases ls.len() - k,
    {
        let palabra = primera_palabra_de(&ls[k]);
        let sin = recortar_sufijos(&palabra, ".UTF-8");
        assert(vl[k as int] == ls@[k as int]@);
        if tramo_es(&sin, local) {
            assert(linea_nombra(vl[k as int], local@));
            assert(linea_nombra(lineas(contenido@)[k as int], local@));
            assert(soportados == Some(contenido));
            assert(!(exists|j: int| 0 <= j < local@.len() && !va_en_local(#[trigger] local@[j])));
            assert(nombrado_en(contenido@, local@));
            assert(idioma_spec(local@, Some(contenido@)) == Ok::<(), Seq<char>>(()));
            return Ok(());
        }
        k = k + 1;
    }
    Err(entre_comillas(local, "» no está entre los idiomas del sistema"))
}

/// Lo que se responde de un mapa de teclado, dada la lista de mapas que tiene
/// el sistema.
pub open spec fn teclado_spec(nombre: Seq<char>, mapas: Seq<Seq<char>>) -> Result<(), Seq<char>> {
    if nombre.len() == 0 {
        Err("está vacío"@)
    } else if nombre.contains('/') || tiene_doble(nombre, '.') {
        Err("«"@ + nombre + "» no es un nombre de mapa de teclado"@)
    } else if mapas.len() == 0 || mapas.contains(nombre) {
        Ok(())
    } else {
        Err("«"@ + nombre + "» no está entre los mapas de teclado del sistema"@)
    }
}

pub open spec fn vistas_cadenas(s: Seq<String>) -> Seq<Seq<char>> {
    s.map_values(|x: String| x@)
}

/// Que el mapa de teclado exista entre los de consola que tiene el sistema.
///
/// Con la lista vacía —sin `kbd` instalado— no se puede comprobar y se acepta
/// lo que esté bien escrito.
pub fn teclado(nombre: &str, mapas: &[String]) -> (r: Result<(), String>)
    ensures
        vista_texto_res(r) == teclado_spec(nombre@, vistas_cadenas(mapas@)),
{
    if nombre.is_empty() {
        return Err(cadena("está vacío"));
    }
    let c = caracteres(nombre);
    if crate::texto::contiene_caracter(&c, '/') || crate::texto::doble(&c, '.') {
        return Err(entre_comillas(nombre, "» no es un nombre de mapa de teclado"));
    }
    if mapas.len() == 0 {
        return Ok(());
    }
    let ghost vm = vistas_cadenas(mapas@);
    let mut i: usize = 0;
    while i < mapas.len()
        invariant
            i <= mapas.len(),
            vm == vistas_cadenas(mapas@),
            nombre@.len() > 0,
            !nombre@.contains('/'),
            !tiene_doble(nombre@, '.'),
            mapas.len() > 0,
            forall|j: int| 0 <= j < i ==> vm[j] != nombre@,
        decreases mapas.len() - i,
    {
        if iguales(mapas[i].as_str(), nombre) {
            assert(vm[i as int] == nombre@);
            return Ok(());
        }
        i = i + 1;
    }
    Err(entre_comillas(nombre, "» no está entre los mapas de teclado del sistema"))
}

// ── La fuerza de una contraseña ─────────────────────────────────────────────

/// Fuerza de una contraseña, para mostrarla: no para bloquear.
#[derive(Debug, Clone, Copy, PartialEq, Eq, Structural)]
pub enum Fuerza {
    Vacia,
    Debil,
    Aceptable,
    Buena,
}

/// Lo que devuelve `char::is_lowercase`: la propiedad `Lowercase` de Unicode.
pub uninterp spec fn es_minuscula(c: char) -> bool;

/// Lo que devuelve `char::is_uppercase`: la propiedad `Uppercase` de Unicode.
pub uninterp spec fn es_mayuscula(c: char) -> bool;

/// Lo que devuelve `char::is_numeric`: las categorías `Nd`, `Nl` y `No`.
pub uninterp spec fn es_numerico(c: char) -> bool;

/// Lo que devuelve `char::is_alphanumeric`: alfabético o numérico.
pub uninterp spec fn es_alfanumerico(c: char) -> bool;

/// Envuelve `char::is_lowercase`. Promete el nombre del resultado y que en
/// ASCII las minúsculas son `a` a `z`.
#[verifier::external_body]
fn minuscula(c: char) -> (r: bool)
    ensures
        r == es_minuscula(c),
        (c as u32) < 0x80 ==> r == es_minuscula_ascii(c),
{
    c.is_lowercase()
}

/// Envuelve `char::is_uppercase`. Promete el nombre del resultado y que en
/// ASCII las mayúsculas son `A` a `Z`.
#[verifier::external_body]
fn mayuscula(c: char) -> (r: bool)
    ensures
        r == es_mayuscula(c),
        (c as u32) < 0x80 ==> r == es_mayuscula_ascii(c),
{
    c.is_uppercase()
}

/// Envuelve `char::is_numeric`. Promete el nombre del resultado y que en
/// ASCII los numéricos son `0` a `9`.
#[verifier::external_body]
fn numerico(c: char) -> (r: bool)
    ensures
        r == es_numerico(c),
        (c as u32) < 0x80 ==> r == es_digito_ascii(c),
{
    c.is_numeric()
}

/// Envuelve `char::is_alphanumeric`. Promete el nombre del resultado y que en
/// ASCII son las letras y los dígitos.
#[verifier::external_body]
fn alfanumerico(c: char) -> (r: bool)
    ensures
        r == es_alfanumerico(c),
        (c as u32) < 0x80 ==> r == es_alfanumerico_ascii(c),
{
    c.is_alphanumeric()
}

pub open spec fn hay(s: Seq<char>, p: spec_fn(char) -> bool) -> bool {
    exists|i: int| 0 <= i < s.len() && #[trigger] p(s[i])
}

pub open spec fn p_minuscula() -> spec_fn(char) -> bool {
    |c: char| es_minuscula(c)
}

pub open spec fn p_mayuscula() -> spec_fn(char) -> bool {
    |c: char| es_mayuscula(c)
}

pub open spec fn p_numerico() -> spec_fn(char) -> bool {
    |c: char| es_numerico(c)
}

pub open spec fn p_otro() -> spec_fn(char) -> bool {
    |c: char| !es_alfanumerico(c)
}

proof fn lemma_hay_paso(s: Seq<char>, i: int, p: spec_fn(char) -> bool)
    requires
        0 <= i < s.len(),
    ensures
        hay(s.take(i + 1), p) == (hay(s.take(i), p) || p(s[i])),
{
    let t = s.take(i + 1);
    let q = s.take(i);
    if hay(t, p) && !p(s[i]) {
        let j = choose|j: int| 0 <= j < t.len() && #[trigger] p(t[j]);
        assert(q[j] == t[j]);
    }
    if hay(q, p) {
        let j = choose|j: int| 0 <= j < q.len() && #[trigger] p(q[j]);
        assert(t[j] == q[j]);
    }
    if p(s[i]) {
        assert(t[i] == s[i]);
    }
}

pub open spec fn uno_si(b: bool) -> nat {
    if b {
        1
    } else {
        0
    }
}

/// Cuántas clases de caracteres tiene: minúsculas, mayúsculas, números y
/// otros.
pub open spec fn clases(s: Seq<char>) -> nat {
    uno_si(hay(s, p_minuscula())) + uno_si(hay(s, p_mayuscula())) + uno_si(hay(s, p_numerico()))
        + uno_si(hay(s, p_otro()))
}

/// La fuerza: el largo manda, y las clases suman cuando hay largo.
pub open spec fn fuerza_spec(s: Seq<char>) -> Fuerza {
    fuerza_de(s.len(), clases(s))
}

/// Las mismas cuatro clases leídas en ASCII: `a`–`z`, `A`–`Z`, `0`–`9` y el
/// resto.
pub open spec fn clases_ascii(s: Seq<char>) -> nat {
    uno_si(hay(s, p_minuscula_ascii())) + uno_si(hay(s, p_mayuscula_ascii())) + uno_si(
        hay(s, p_digito_ascii()),
    ) + uno_si(hay(s, p_otro_ascii()))
}

pub open spec fn p_minuscula_ascii() -> spec_fn(char) -> bool {
    |c: char| es_minuscula_ascii(c)
}

pub open spec fn p_mayuscula_ascii() -> spec_fn(char) -> bool {
    |c: char| es_mayuscula_ascii(c)
}

pub open spec fn p_digito_ascii() -> spec_fn(char) -> bool {
    |c: char| es_digito_ascii(c)
}

pub open spec fn p_otro_ascii() -> spec_fn(char) -> bool {
    |c: char| !es_alfanumerico_ascii(c)
}

/// La fuerza por el largo y la cantidad de clases.
pub open spec fn fuerza_de(largo: nat, c: nat) -> Fuerza {
    if largo == 0 {
        Fuerza::Vacia
    } else if largo >= 16 {
        Fuerza::Buena
    } else if largo >= 12 && c >= 2 {
        Fuerza::Buena
    } else if largo >= 8 && c >= 2 {
        Fuerza::Aceptable
    } else if largo >= 12 {
        Fuerza::Aceptable
    } else {
        Fuerza::Debil
    }
}

/// Que haya en el texto al menos un carácter en el rango.
pub open spec fn alguno_entre(s: Seq<char>, desde: char, hasta: char) -> bool {
    exists|i: int| 0 <= i < s.len() && desde <= #[trigger] s[i] && s[i] <= hasta
}

/// Que haya en el texto al menos un carácter que no sea letra ni dígito ASCII.
pub open spec fn algun_simbolo_ascii(s: Seq<char>) -> bool {
    exists|i: int|
        0 <= i < s.len() && !(('a' <= #[trigger] s[i] && s[i] <= 'z') || ('A' <= s[i] && s[i] <= 'Z')
            || ('0' <= s[i] && s[i] <= '9'))
}

/// **En ASCII, la fuerza cuenta cuatro clases: minúsculas, mayúsculas,
/// dígitos y símbolos.** Para todo texto ASCII: vacío es `Vacia`; con 16 o
/// más caracteres es `Buena`; con 12 a 15 es `Buena` si tiene al menos dos
/// clases y `Aceptable` si no; con 8 a 11 es `Aceptable` si tiene al menos dos
/// clases y `Debil` si no; con menos de 8 es `Debil`. Un símbolo —cualquier
/// carácter que no es letra ni dígito, como `!` o un espacio— es una clase
/// propia: `password!` tiene dos.
pub proof fn en_ascii_la_fuerza_cuenta_cuatro_clases(s: Seq<char>)
    requires
        crate::teclado::es_ascii(s),
    ensures
        ({
            let mi = alguno_entre(s, 'a', 'z');
            let ma = alguno_entre(s, 'A', 'Z');
            let di = alguno_entre(s, '0', '9');
            let si = algun_simbolo_ascii(s);
            let dos = (mi && ma) || (mi && di) || (mi && si) || (ma && di) || (ma && si) || (di && si);
            fuerza_de(s.len(), clases_ascii(s)) == if s.len() == 0 {
                Fuerza::Vacia
            } else if s.len() >= 16 {
                Fuerza::Buena
            } else if s.len() >= 12 {
                if dos {
                    Fuerza::Buena
                } else {
                    Fuerza::Aceptable
                }
            } else if s.len() >= 8 {
                if dos {
                    Fuerza::Aceptable
                } else {
                    Fuerza::Debil
                }
            } else {
                Fuerza::Debil
            }
        }),
{
    assert(hay(s, p_minuscula_ascii()) == alguno_entre(s, 'a', 'z')) by {
        if alguno_entre(s, 'a', 'z') {
            let i = choose|i: int| 0 <= i < s.len() && 'a' <= #[trigger] s[i] && s[i] <= 'z';
            assert(p_minuscula_ascii()(s[i]));
        }
    }
    assert(hay(s, p_mayuscula_ascii()) == alguno_entre(s, 'A', 'Z')) by {
        if alguno_entre(s, 'A', 'Z') {
            let i = choose|i: int| 0 <= i < s.len() && 'A' <= #[trigger] s[i] && s[i] <= 'Z';
            assert(p_mayuscula_ascii()(s[i]));
        }
    }
    assert(hay(s, p_digito_ascii()) == alguno_entre(s, '0', '9')) by {
        if alguno_entre(s, '0', '9') {
            let i = choose|i: int| 0 <= i < s.len() && '0' <= #[trigger] s[i] && s[i] <= '9';
            assert(p_digito_ascii()(s[i]));
        }
    }
    assert(hay(s, p_otro_ascii()) == algun_simbolo_ascii(s)) by {
        if algun_simbolo_ascii(s) {
            let i = choose|i: int|
                0 <= i < s.len() && !(('a' <= #[trigger] s[i] && s[i] <= 'z') || ('A' <= s[i] && s[i] <= 'Z')
                    || ('0' <= s[i] && s[i] <= '9'));
            assert(p_otro_ascii()(s[i]));
        }
        if hay(s, p_otro_ascii()) {
            let i = choose|i: int| 0 <= i < s.len() && #[trigger] p_otro_ascii()(s[i]);
            assert(!(('a' <= s[i] && s[i] <= 'z') || ('A' <= s[i] && s[i] <= 'Z') || ('0' <= s[i] && s[i]
                <= '9')));
        }
    }
}

/// **Un carácter que no es alfanumérico es una clase propia**, en cualquier
/// texto: con 8 a 11 caracteres, una minúscula y un carácter que no es letra
/// ni número bastan para `Aceptable`; y con una sola clase de las cuatro
/// —todo minúsculas, por ejemplo— es `Debil`.
pub proof fn un_simbolo_es_una_clase(s: Seq<char>, i: int, j: int)
    requires
        8 <= s.len() < 12,
    ensures
        0 <= i < s.len() && 0 <= j < s.len() && es_minuscula(s[i]) && !es_alfanumerico(s[j])
            ==> fuerza_spec(s) == Fuerza::Aceptable,
        (forall|k: int| 0 <= k < s.len() ==> es_minuscula(#[trigger] s[k]) && !es_mayuscula(s[k])
            && !es_numerico(s[k]) && es_alfanumerico(s[k])) ==> fuerza_spec(s) == Fuerza::Debil,
{
    if 0 <= i < s.len() && 0 <= j < s.len() && es_minuscula(s[i]) && !es_alfanumerico(s[j]) {
        assert(p_minuscula()(s[i]));
        assert(p_otro()(s[j]));
    }
    if forall|k: int| 0 <= k < s.len() ==> es_minuscula(#[trigger] s[k]) && !es_mayuscula(s[k])
        && !es_numerico(s[k]) && es_alfanumerico(s[k]) {
        assert(p_minuscula()(s[0]));
        assert(!hay(s, p_mayuscula())) by {
            if hay(s, p_mayuscula()) {
                let k = choose|k: int| 0 <= k < s.len() && #[trigger] p_mayuscula()(s[k]);
            }
        }
        assert(!hay(s, p_numerico())) by {
            if hay(s, p_numerico()) {
                let k = choose|k: int| 0 <= k < s.len() && #[trigger] p_numerico()(s[k]);
            }
        }
        assert(!hay(s, p_otro())) by {
            if hay(s, p_otro()) {
                let k = choose|k: int| 0 <= k < s.len() && #[trigger] p_otro()(s[k]);
            }
        }
    }
}

/// Fuerza de una contraseña.
///
/// Se cuentan clases de caracteres y no reglas de composición: obligar a «una
/// mayúscula, un número y un símbolo» produce `Password1!`. Una frase larga
/// de una sola clase es mejor que ocho caracteres de cuatro clases, y por eso
/// el largo puede alcanzar «buena» solo.
pub fn fuerza(contrasena: &str) -> (r: Fuerza)
    ensures
        r == fuerza_spec(contrasena@),
        crate::teclado::es_ascii(contrasena@) ==> r == fuerza_de(
            contrasena@.len(),
            clases_ascii(contrasena@),
        ),
{
    let c = caracteres(contrasena);
    if c.len() == 0 {
        return Fuerza::Vacia;
    }
    let mut minusculas = false;
    let mut mayusculas = false;
    let mut numeros = false;
    let mut otros = false;
    let mut i: usize = 0;
    while i < c.len()
        invariant
            i <= c.len(),
            c@ == contrasena@,
            minusculas == hay(c@.take(i as int), p_minuscula()),
            mayusculas == hay(c@.take(i as int), p_mayuscula()),
            numeros == hay(c@.take(i as int), p_numerico()),
            otros == hay(c@.take(i as int), p_otro()),
            crate::teclado::es_ascii(c@) ==> {
                &&& minusculas == hay(c@.take(i as int), p_minuscula_ascii())
                &&& mayusculas == hay(c@.take(i as int), p_mayuscula_ascii())
                &&& numeros == hay(c@.take(i as int), p_digito_ascii())
                &&& otros == hay(c@.take(i as int), p_otro_ascii())
            },
        decreases c.len() - i,
    {
        let x = c[i];
        proof {
            lemma_hay_paso(c@, i as int, p_minuscula());
            lemma_hay_paso(c@, i as int, p_mayuscula());
            lemma_hay_paso(c@, i as int, p_numerico());
            lemma_hay_paso(c@, i as int, p_otro());
            lemma_hay_paso(c@, i as int, p_minuscula_ascii());
            lemma_hay_paso(c@, i as int, p_mayuscula_ascii());
            lemma_hay_paso(c@, i as int, p_digito_ascii());
            lemma_hay_paso(c@, i as int, p_otro_ascii());
            if crate::teclado::es_ascii(c@) {
                assert((x as u32) < 0x80);
            }
        }
        minusculas = minusculas || minuscula(x);
        mayusculas = mayusculas || mayuscula(x);
        numeros = numeros || numerico(x);
        otros = otros || !alfanumerico(x);
        i = i + 1;
    }
    assert(c@.take(i as int) =~= c@);
    let clases: usize = (if minusculas {
        1usize
    } else {
        0
    }) + (if mayusculas {
        1usize
    } else {
        0
    }) + (if numeros {
        1usize
    } else {
        0
    }) + (if otros {
        1usize
    } else {
        0
    });
    let largo = c.len();
    if largo >= 16 {
        Fuerza::Buena
    } else if largo >= 12 && clases >= 2 {
        Fuerza::Buena
    } else if largo >= 8 && clases >= 2 {
        Fuerza::Aceptable
    } else if largo >= 12 {
        Fuerza::Aceptable
    } else {
        Fuerza::Debil
    }
}

} // verus!
