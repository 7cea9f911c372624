//! Del mapa de teclado de consola al diseno de XKB.
//!
//! Hay dos teclados que configurar y no se llaman igual: el de la consola
//! (`KEYMAP` en `/etc/vconsole.conf`, el que consume archinstall) y el del
//! escritorio, el diseno de XKB que usa Wayland. El latinoamericano es
//! `la-latin1` en consola y `latam` en XKB. Configurar sólo el primero deja al
//! greeter en `us`, y el primer inicio de sesión no puede escribir su
//! contraseña.

use vstd::prelude::*;

use crate::conjunto::Conjunto;
use crate::orden::{lemma_primera, primera};
use crate::texto::{
    cadena, cadena_de, caracteres, copia, lineas, lineas_de, recortado, recortar, termina_con,
    termina_en,
};
use crate::validar::{primera_palabra, primera_palabra_de};

verus! {

broadcast use vstd::string::group_string_axioms;

/// Las excepciones: los casos donde el nombre de XKB no se deriva del de
/// consola sacándole sufijos.
pub open spec fn excepciones() -> Seq<(Seq<char>, (Seq<char>, Seq<char>))> {
    seq![
        ("la-latin1"@, ("latam"@, ""@)),
        ("la"@, ("latam"@, ""@)),
        ("uk"@, ("gb"@, ""@)),
        ("cf"@, ("ca"@, "fr"@)),
        ("dvorak"@, ("us"@, "dvorak"@)),
        ("dvorak-l"@, ("us"@, "dvorak-l"@)),
        ("dvorak-r"@, ("us"@, "dvorak-r"@)),
        ("colemak"@, ("us"@, "colemak"@)),
        ("trq"@, ("tr"@, ""@)),
        ("trf"@, ("tr"@, "f"@)),
        ("jp106"@, ("jp"@, ""@)),
        ("gr"@, ("gr"@, ""@)),
        ("br-abnt2"@, ("br"@, "abnt2"@)),
        ("br-abnt"@, ("br"@, "abnt"@)),
        ("sg"@, ("ch"@, "de"@)),
        ("fr_CH"@, ("ch"@, "fr"@)),
        ("us-acentos"@, ("us"@, "intl"@)),
    ]
}

/// Los sufijos que en consola indican la codificación o las teclas muertas,
/// en el orden en que se buscan.
pub open spec fn sufijos() -> Seq<Seq<char>> {
    seq![
        "-nodeadkeys"@,
        "-deadkeys"@,
        "-latin1"@,
        "-latin9"@,
        "-lat2"@,
        "-lat1"@,
        "-latin"@,
        "-abnt2"@,
        "-utf"@,
        "-ucw"@,
    ]
}

/// El diseno al que se cae cuando la traducción no da uno que XKB conozca.
pub const RESPALDO: &'static str = "us";

pub open spec fn es_excepcion(l: Seq<char>) -> spec_fn((Seq<char>, (Seq<char>, Seq<char>))) -> bool {
    |e: (Seq<char>, (Seq<char>, Seq<char>))| e.0 == l
}

pub open spec fn termina_con_fn(base: Seq<char>) -> spec_fn(Seq<char>) -> bool {
    |s: Seq<char>| termina_en(base, s)
}

/// Sin sufijos de consola: se saca el primero de la lista con que termine,
/// y se vuelve a mirar, hasta que no quede ninguno.
pub open spec fn sin_sufijos_de_consola(base: Seq<char>) -> Seq<char>
    decreases base.len(),
{
    let k = primera(sufijos(), termina_con_fn(base));
    if 0 <= k < sufijos().len() && sufijos()[k].len() > 0 && sufijos()[k].len() <= base.len() {
        sin_sufijos_de_consola(base.take(base.len() - sufijos()[k].len()))
    } else {
        base
    }
}

/// Lo que devuelve `str::to_lowercase`: la minúscula de Unicode de cada
/// carácter, con el trato especial que Unicode le da a la sigma final.
pub uninterp spec fn minusculas_texto(s: Seq<char>) -> Seq<char>;

pub open spec fn bajar_todo_ascii(s: Seq<char>) -> Seq<char> {
    s.map_values(|c: char| crate::texto::bajar_ascii(c))
}

pub open spec fn es_ascii(s: Seq<char>) -> bool {
    forall|i: int| 0 <= i < s.len() ==> (#[trigger] s[i] as u32) < 0x80
}

/// Envuelve `str::to_lowercase`.
///
/// Promete que el resultado es `minusculas_texto(s)` y, para un texto ASCII,
/// lo que la documentación deja claro: que sale el mismo texto con las letras
/// bajadas una por una. Del resto de Unicode no dice nada.
#[verifier::external_body]
fn en_minusculas(s: &str) -> (r: String)
    ensures
        r@ == minusculas_texto(s@),
        es_ascii(s@) ==> r@ == bajar_todo_ascii(s@),
{
    s.to_lowercase()
}

/// La parte mecánica: la excepción si hay una, y si no, sin sufijos y en
/// minúsculas.
pub open spec fn a_xkb_spec(keymap: Seq<char>) -> (Seq<char>, Seq<char>) {
    let l = recortado(keymap);
    let e = primera(excepciones(), es_excepcion(l));
    if 0 <= e < excepciones().len() {
        excepciones()[e].1
    } else {
        (minusculas_texto(sin_sufijos_de_consola(l)), seq![])
    }
}

/// Un mapa de consola traducido a XKB, si el diseno es uno que el sistema
/// conoce (o si no se sabe cuáles conoce); el respaldo `us`, si no.
pub open spec fn traducir_spec(keymap: Seq<char>, conocidos: Seq<Seq<char>>) -> Result<
    (Seq<char>, Seq<char>),
    (Seq<char>, Seq<char>),
> {
    traducir_desde(a_xkb_spec(keymap), conocidos)
}

/// La parte mecánica para un mapa escrito en ASCII, donde bajar a minúsculas
/// es bajar cada letra `A`–`Z`.
pub open spec fn a_xkb_ascii(keymap: Seq<char>) -> (Seq<char>, Seq<char>) {
    let l = recortado(keymap);
    let e = primera(excepciones(), es_excepcion(l));
    if 0 <= e < excepciones().len() {
        excepciones()[e].1
    } else {
        (bajar_todo_ascii(sin_sufijos_de_consola(l)), seq![])
    }
}

/// El veredicto sobre un par ya traducido.
pub open spec fn traducir_desde(par: (Seq<char>, Seq<char>), conocidos: Seq<Seq<char>>) -> Result<
    (Seq<char>, Seq<char>),
    (Seq<char>, Seq<char>),
> {
    let (d, v) = par;
    if conocidos.len() == 0 || conocidos.contains(d) {
        Ok((d, v))
    } else {
        Err((RESPALDO@, seq![]))
    }
}

pub open spec fn vista_par(p: (String, String)) -> (Seq<char>, Seq<char>) {
    (p.0@, p.1@)
}

pub open spec fn vista_traduccion(r: Result<(String, String), (String, String)>) -> Result<
    (Seq<char>, Seq<char>),
    (Seq<char>, Seq<char>),
> {
    match r {
        Ok(p) => Ok(vista_par(p)),
        Err(p) => Err(vista_par(p)),
    }
}

fn buscar_excepcion(l: &Vec<char>) -> (r: Option<(&'static str, &'static str)>)
    ensures
        ({
            let e = primera(excepciones(), es_excepcion(l@));
            match r {
                Some(p) => 0 <= e < excepciones().len() && excepciones()[e].1 == (p.0@, p.1@),
                None => !(0 <= e < excepciones().len()),
            }
        }),
{
    let tabla: [(&'static str, (&'static str, &'static str)); 17] = [
        ("la-latin1", ("latam", "")),
        ("la", ("latam", "")),
        ("uk", ("gb", "")),
        ("cf", ("ca", "fr")),
        ("dvorak", ("us", "dvorak")),
        ("dvorak-l", ("us", "dvorak-l")),
        ("dvorak-r", ("us", "dvorak-r")),
        ("colemak", ("us", "colemak")),
        ("trq", ("tr", "")),
        ("trf", ("tr", "f")),
        ("jp106", ("jp", "")),
        ("gr", ("gr", "")),
        ("br-abnt2", ("br", "abnt2")),
        ("br-abnt", ("br", "abnt")),
        ("sg", ("ch", "de")),
        ("fr_CH", ("ch", "fr")),
        ("us-acentos", ("us", "intl")),
    ];
    let ghost ex = excepciones();
    assert(tabla@.map_values(
        |t: (&'static str, (&'static str, &'static str))| (t.0@, (t.1.0@, t.1.1@)),
    ) =~= ex);
    let texto = cadena_de(copia(l));
    let mut i: usize = 0;
    while i < 17
        invariant
            i <= 17,
            ex == excepciones(),
            texto@ == l@,
            tabla@.map_values(
                |t: (&'static str, (&'static str, &'static str))| (t.0@, (t.1.0@, t.1.1@)),
            ) == ex,
            forall|j: int| 0 <= j < i ==> !es_excepcion(l@)(#[trigger] ex[j]),
        decreases 17 - i,
    {
        let (k, par) = tabla[i];
        assert(ex[i as int] == (k@, (par.0@, par.1@)));
        if crate::texto::iguales(k, texto.as_str()) {
            proof {
                lemma_primera(ex, es_excepcion(l@), i as int);
            }
            return Some(par);
        }
        i = i + 1;
    }
    proof {
        lemma_primera(ex, es_excepcion(l@), 17);
    }
    None
}

/// El primer sufijo de la lista con que termina `actual`.
fn primer_sufijo(actual: &Vec<char>) -> (r: Option<usize>)
    ensures
        match r {
            Some(k) => k == primera(sufijos(), termina_con_fn(actual@)) && k < 10,
            None => primera(sufijos(), termina_con_fn(actual@)) == -1,
        },
{
    let tabla: [&'static str; 10] = [
        "-nodeadkeys",
        "-deadkeys",
        "-latin1",
        "-latin9",
        "-lat2",
        "-lat1",
        "-latin",
        "-abnt2",
        "-utf",
        "-ucw",
    ];
    let ghost sufs = sufijos();
    assert(tabla@.map_values(|s: &'static str| s@) =~= sufs);
    let mut i: usize = 0;
    while i < 10
        invariant
            i <= 10,
            sufs == sufijos(),
            tabla@.map_values(|s: &'static str| s@) == sufs,
            forall|j: int| 0 <= j < i ==> !termina_con_fn(actual@)(#[trigger] sufs[j]),
        decreases 10 - i,
    {
        let s = caracteres(tabla[i]);
        assert(s@ == sufs[i as int]);
        if termina_con(actual, &s) {
            proof {
                lemma_primera(sufs, termina_con_fn(actual@), i as int);
            }
            return Some(i);
        }
        i = i + 1;
    }
    proof {
        lemma_primera(sufs, termina_con_fn(actual@), 10);
    }
    None
}

/// El largo del sufijo `k` de la lista.
fn largo_sufijo(k: usize) -> (r: usize)
    requires
        k < 10,
    ensures
        r == sufijos()[k as int].len(),
        r > 0,
{
    proof {
        reveal_strlit("-nodeadkeys");
        reveal_strlit("-deadkeys");
        reveal_strlit("-latin1");
        reveal_strlit("-latin9");
        reveal_strlit("-lat2");
        reveal_strlit("-lat1");
        reveal_strlit("-latin");
        reveal_strlit("-abnt2");
        reveal_strlit("-utf");
        reveal_strlit("-ucw");
    }
    match k {
        0 => 11,
        1 => 9,
        2 => 7,
        3 => 7,
        4 => 5,
        5 => 5,
        6 => 6,
        7 => 6,
        8 => 4,
        _ => 4,
    }
}

/// Saca los sufijos de consola del final, de a uno, hasta que no quede
/// ninguno: `de-latin1-nodeadkeys` tiene dos.
fn sacar_sufijos(base: &Vec<char>) -> (r: Vec<char>)
    ensures
        r@ == sin_sufijos_de_consola(base@),
{
    let mut actual: Vec<char> = copia(base);
    loop
        invariant
            sin_sufijos_de_consola(base@) == sin_sufijos_de_consola(actual@),
        ensures
            sin_sufijos_de_consola(base@) == actual@,
        decreases actual.len(),
    {
        match primer_sufijo(&actual) {
            None => {
                break;
            },
            Some(k) => {
                let largo = largo_sufijo(k);
                proof {
                    crate::orden::lemma_primera_encontro(sufijos(), termina_con_fn(actual@));
                }
                let nuevo_largo = actual.len() - largo;
                let mut recorte: Vec<char> = Vec::new();
                let mut m: usize = 0;
                while m < nuevo_largo
                    invariant
                        m <= nuevo_largo <= actual.len(),
                        recorte@ == actual@.take(m as int),
                    decreases nuevo_largo - m,
                {
                    recorte.push(actual[m]);
                    assert(recorte@ =~= actual@.take(m as int + 1));
                    m = m + 1;
                }
                actual = recorte;
            },
        }
    }
    actual
}

proof fn lemma_ascii_recortado(s: Seq<char>)
    requires
        es_ascii(s),
    ensures
        es_ascii(recortado(s)),
{
    crate::texto::lemma_recortado_es_tramo(s);
    let (i, j) = choose|i: int, j: int| 0 <= i <= j <= s.len() && recortado(s) == s.subrange(i, j);
    assert forall|k: int| 0 <= k < recortado(s).len() implies (#[trigger] recortado(s)[k] as u32)
        < 0x80 by {
        assert(recortado(s)[k] == s[i + k]);
    }
}

proof fn lemma_ascii_sin_sufijos(s: Seq<char>)
    requires
        es_ascii(s),
    ensures
        es_ascii(sin_sufijos_de_consola(s)),
    decreases s.len(),
{
    let k = primera(sufijos(), termina_con_fn(s));
    if 0 <= k < sufijos().len() && sufijos()[k].len() > 0 && sufijos()[k].len() <= s.len() {
        let t = s.take(s.len() - sufijos()[k].len());
        assert forall|m: int| 0 <= m < t.len() implies (#[trigger] t[m] as u32) < 0x80 by {
            assert(t[m] == s[m]);
        }
        lemma_ascii_sin_sufijos(t);
    }
}

/// La parte mecánica de la traducción: excepción si hay, y si no, sacar
/// sufijos y bajar a minúsculas.
pub fn a_xkb(keymap_consola: &str) -> (r: (String, String))
    ensures
        vista_par(r) == a_xkb_spec(keymap_consola@),
        es_ascii(keymap_consola@) ==> vista_par(r) == a_xkb_ascii(keymap_consola@),
{
    let limpio = recortar(&caracteres(keymap_consola));
    proof {
        if es_ascii(keymap_consola@) {
            lemma_ascii_recortado(keymap_consola@);
            lemma_ascii_sin_sufijos(recortado(keymap_consola@));
        }
    }
    match buscar_excepcion(&limpio) {
        Some((d, v)) => (cadena(d), cadena(v)),
        None => {
            let base = sacar_sufijos(&limpio);
            let texto = cadena_de(base);
            (en_minusculas(texto.as_str()), String::new())
        },
    }
}

/// Traduce un mapa de consola a un diseno de XKB: `(diseno, variante)`, con
/// la variante vacía cuando no hay.
///
/// `Err` con el respaldo `us` cuando el diseno no figura entre los que conoce
/// el sistema: se instala igual, pero tiene que quedar dicho. Con la lista
/// vacía no se puede validar nada y se acepta la traducción mecánica.
pub fn traducir(keymap_consola: &str, disenos_conocidos: &Conjunto) -> (r: Result<
    (String, String),
    (String, String),
>)
    ensures
        vista_traduccion(r) == traducir_spec(keymap_consola@, disenos_conocidos@),
        es_ascii(keymap_consola@) ==> vista_traduccion(r) == traducir_desde(
            a_xkb_ascii(keymap_consola@),
            disenos_conocidos@,
        ),
{
    let (diseno, variante) = a_xkb(keymap_consola);
    if disenos_conocidos.is_empty() || disenos_conocidos.contains(diseno.as_str()) {
        return Ok((diseno, variante));
    }
    Err((cadena(RESPALDO), String::new()))
}

// ── Los disenos que conoce el sistema ───────────────────────────────────────

/// Si una línea recortada abre una sección (`! layout`).
pub open spec fn abre_seccion(t: Seq<char>) -> bool {
    t.len() > 0 && t[0] == '!'
}

/// El recorrido de `base.lst`: en qué sección se está y qué disenos se
/// juntaron. Interesa sólo la sección `! layout`, y de cada línea la primera
/// palabra.
pub open spec fn disenos_hasta(ls: Seq<Seq<char>>) -> (bool, Seq<Seq<char>>)
    decreases ls.len(),
{
    if ls.len() == 0 {
        (false, seq![])
    } else {
        let (dentro, juntos) = disenos_hasta(ls.drop_last());
        let t = recortado(ls.last());
        if abre_seccion(t) {
            (t == "! layout"@, juntos)
        } else if !dentro || t.len() == 0 {
            (dentro, juntos)
        } else {
            (dentro, crate::conjunto::con(juntos, primera_palabra(t)))
        }
    }
}

/// Los disenos de XKB que trae `base.lst` de `xkeyboard-config`, o ninguno si
/// no se pudo leer.
pub open spec fn disenos_spec(contenido: Option<Seq<char>>) -> Seq<Seq<char>> {
    match contenido {
        None => seq![],
        Some(c) => disenos_hasta(lineas(c)).1,
    }
}

/// Los disenos de XKB que conoce el sistema, a partir del contenido de
/// `/usr/share/X11/xkb/rules/base.lst`.
///
/// El archivo tiene secciones (`! layout`, `! variant`, `! model`) y, dentro,
/// líneas `nombre    descripción`. Sin el archivo (`None`) no hay ninguno.
pub fn disenos_de_xkb(contenido: Option<&str>) -> (r: Conjunto)
    ensures
        r@ == disenos_spec(
            match contenido {
                Some(c) => Some(c@),
                None => None,
            },
        ),
{
    let mut salida = Conjunto::new();
    let texto = match contenido {
        None => {
            return salida;
        },
        Some(c) => c,
    };
    let ls = lineas_de(texto);
    let ghost vl = ls@.map_values(|t: Vec<char>| t@);
    let mut dentro = false;
    let mut i: usize = 0;
    while i < ls.len()
        invariant
            i <= ls.len(),
            vl == ls@.map_values(|t: Vec<char>| t@),
            vl == lineas(texto@),
            disenos_hasta(vl.take(i as int)) == (dentro, salida@),
        decreases ls.len() - i,
    {
        proof {
            assert(vl.take(i as int + 1).drop_last() =~= vl.take(i as int));
            assert(vl.take(i as int + 1).last() == ls@[i as int]@);
        }
        let t = recortar(&ls[i]);
        if t.len() > 0 && t[0] == '!' {
            let nombre = cadena_de(t);
            dentro = crate::texto::iguales(nombre.as_str(), "! layout");
        } else if !dentro || t.len() == 0 {
        } else {
            let palabra = primera_palabra_de(&t);
            salida.insert(cadena_de(palabra));
        }
        i = i + 1;
    }
    assert(vl.take(i as int) =~= vl);
    salida
}

// ── La tabla de excepciones, con sus valores ────────────────────────────────

proof fn lemma_claves_distintas()
    ensures
        forall|i: int, j: int|
            0 <= i < j < excepciones().len() ==> (#[trigger] excepciones()[i]).0 != (
            #[trigger] excepciones()[j]).0,
{
    reveal_strlit("la-latin1");
    reveal_strlit("la");
    reveal_strlit("uk");
    reveal_strlit("cf");
    reveal_strlit("dvorak");
    reveal_strlit("dvorak-l");
    reveal_strlit("dvorak-r");
    reveal_strlit("colemak");
    reveal_strlit("trq");
    reveal_strlit("trf");
    reveal_strlit("jp106");
    reveal_strlit("gr");
    reveal_strlit("br-abnt2");
    reveal_strlit("br-abnt");
    reveal_strlit("sg");
    reveal_strlit("fr_CH");
    reveal_strlit("us-acentos");
    assert("la-latin1"@.len() != "la"@.len());
    assert("la-latin1"@.len() != "uk"@.len());
    assert("la-latin1"@.len() != "cf"@.len());
    assert("la-latin1"@.len() != "dvorak"@.len());
    assert("la-latin1"@.len() != "dvorak-l"@.len());
    assert("la-latin1"@.len() != "dvorak-r"@.len());
    assert("la-latin1"@.len() != "colemak"@.len());
    assert("la-latin1"@.len() != "trq"@.len());
    assert("la-latin1"@.len() != "trf"@.len());
    assert("la-latin1"@.len() != "jp106"@.len());
    assert("la-latin1"@.len() != "gr"@.len());
    assert("la-latin1"@.len() != "br-abnt2"@.len());
    assert("la-latin1"@.len() != "br-abnt"@.len());
    assert("la-latin1"@.len() != "sg"@.len());
    assert("la-latin1"@.len() != "fr_CH"@.len());
    assert("la-latin1"@.len() != "us-acentos"@.len());
    assert("la"@[0] != "uk"@[0]);
    assert("la"@[0] != "cf"@[0]);
    assert("la"@.len() != "dvorak"@.len());
    assert("la"@.len() != "dvorak-l"@.len());
    assert("la"@.len() != "dvorak-r"@.len());
    assert("la"@.len() != "colemak"@.len());
    assert("la"@.len() != "trq"@.len());
    assert("la"@.len() != "trf"@.len());
    assert("la"@.len() != "jp106"@.len());
    assert("la"@[0] != "gr"@[0]);
    assert("la"@.len() != "br-abnt2"@.len());
    assert("la"@.len() != "br-abnt"@.len());
    assert("la"@[0] != "sg"@[0]);
    assert("la"@.len() != "fr_CH"@.len());
    assert("la"@.len() != "us-acentos"@.len());
    assert("uk"@[0] != "cf"@[0]);
    assert("uk"@.len() != "dvorak"@.len());
    assert("uk"@.len() != "dvorak-l"@.len());
    assert("uk"@.len() != "dvorak-r"@.len());
    assert("uk"@.len() != "colemak"@.len());
    assert("uk"@.len() != "trq"@.len());
    assert("uk"@.len() != "trf"@.len());
    assert("uk"@.len() != "jp106"@.len());
    assert("uk"@[0] != "gr"@[0]);
    assert("uk"@.len() != "br-abnt2"@.len());
    assert("uk"@.len() != "br-abnt"@.len());
    assert("uk"@[0] != "sg"@[0]);
    assert("uk"@.len() != "fr_CH"@.len());
    assert("uk"@.len() != "us-acentos"@.len());
    assert("cf"@.len() != "dvorak"@.len());
    assert("cf"@.len() != "dvorak-l"@.len());
    assert("cf"@.len() != "dvorak-r"@.len());
    assert("cf"@.len() != "colemak"@.len());
    assert("cf"@.len() != "trq"@.len());
    assert("cf"@.len() != "trf"@.len());
    assert("cf"@.len() != "jp106"@.len());
    assert("cf"@[0] != "gr"@[0]);
    assert("cf"@.len() != "br-abnt2"@.len());
    assert("cf"@.len() != "br-abnt"@.len());
    assert("cf"@[0] != "sg"@[0]);
    assert("cf"@.len() != "fr_CH"@.len());
    assert("cf"@.len() != "us-acentos"@.len());
    assert("dvorak"@.len() != "dvorak-l"@.len());
    assert("dvorak"@.len() != "dvorak-r"@.len());
    assert("dvorak"@.len() != "colemak"@.len());
    assert("dvorak"@.len() != "trq"@.len());
    assert("dvorak"@.len() != "trf"@.len());
    assert("dvorak"@.len() != "jp106"@.len());
    assert("dvorak"@.len() != "gr"@.len());
    assert("dvorak"@.len() != "br-abnt2"@.len());
    assert("dvorak"@.len() != "br-abnt"@.len());
    assert("dvorak"@.len() != "sg"@.len());
    assert("dvorak"@.len() != "fr_CH"@.len());
    assert("dvorak"@.len() != "us-acentos"@.len());
    assert("dvorak-l"@[7] != "dvorak-r"@[7]);
    assert("dvorak-l"@.len() != "colemak"@.len());
    assert("dvorak-l"@.len() != "trq"@.len());
    assert("dvorak-l"@.len() != "trf"@.len());
    assert("dvorak-l"@.len() != "jp106"@.len());
    assert("dvorak-l"@.len() != "gr"@.len());
    assert("dvorak-l"@[0] != "br-abnt2"@[0]);
    assert("dvorak-l"@.len() != "br-abnt"@.len());
    assert("dvorak-l"@.len() != "sg"@.len());
    assert("dvorak-l"@.len() != "fr_CH"@.len());
    assert("dvorak-l"@.len() != "us-acentos"@.len());
    assert("dvorak-r"@.len() != "colemak"@.len());
    assert("dvorak-r"@.len() != "trq"@.len());
    assert("dvorak-r"@.len() != "trf"@.len());
    assert("dvorak-r"@.len() != "jp106"@.len());
    assert("dvorak-r"@.len() != "gr"@.len());
    assert("dvorak-r"@[0] != "br-abnt2"@[0]);
    assert("dvorak-r"@.len() != "br-abnt"@.len());
    assert("dvorak-r"@.len() != "sg"@.len());
    assert("dvorak-r"@.len() != "fr_CH"@.len());
    assert("dvorak-r"@.len() != "us-acentos"@.len());
    assert("colemak"@.len() != "trq"@.len());
    assert("colemak"@.len() != "trf"@.len());
    assert("colemak"@.len() != "jp106"@.len());
    assert("colemak"@.len() != "gr"@.len());
    assert("colemak"@.len() != "br-abnt2"@.len());
    assert("colemak"@[0] != "br-abnt"@[0]);
    assert("colemak"@.len() != "sg"@.len());
    assert("colemak"@.len() != "fr_CH"@.len());
    assert("colemak"@.len() != "us-acentos"@.len());
    assert("trq"@[2] != "trf"@[2]);
    assert("trq"@.len() != "jp106"@.len());
    assert("trq"@.len() != "gr"@.len());
    assert("trq"@.len() != "br-abnt2"@.len());
    assert("trq"@.len() != "br-abnt"@.len());
    assert("trq"@.len() != "sg"@.len());
    assert("trq"@.len() != "fr_CH"@.len());
    assert("trq"@.len() != "us-acentos"@.len());
    assert("trf"@.len() != "jp106"@.len());
    assert("trf"@.len() != "gr"@.len());
    assert("trf"@.len() != "br-abnt2"@.len());
    assert("trf"@.len() != "br-abnt"@.len());
    assert("trf"@.len() != "sg"@.len());
    assert("trf"@.len() != "fr_CH"@.len());
    assert("trf"@.len() != "us-acentos"@.len());
    assert("jp106"@.len() != "gr"@.len());
    assert("jp106"@.len() != "br-abnt2"@.len());
    assert("jp106"@.len() != "br-abnt"@.len());
    assert("jp106"@.len() != "sg"@.len());
    assert("jp106"@[0] != "fr_CH"@[0]);
    assert("jp106"@.len() != "us-acentos"@.len());
    assert("gr"@.len() != "br-abnt2"@.len());
    assert("gr"@.len() != "br-abnt"@.len());
    assert("gr"@[0] != "sg"@[0]);
    assert("gr"@.len() != "fr_CH"@.len());
    assert("gr"@.len() != "us-acentos"@.len());
    assert("br-abnt2"@.len() != "br-abnt"@.len());
    assert("br-abnt2"@.len() != "sg"@.len());
    assert("br-abnt2"@.len() != "fr_CH"@.len());
    assert("br-abnt2"@.len() != "us-acentos"@.len());
    assert("br-abnt"@.len() != "sg"@.len());
    assert("br-abnt"@.len() != "fr_CH"@.len());
    assert("br-abnt"@.len() != "us-acentos"@.len());
    assert("sg"@.len() != "fr_CH"@.len());
    assert("sg"@.len() != "us-acentos"@.len());
    assert("fr_CH"@.len() != "us-acentos"@.len());
    let e = excepciones();
    assert forall|i: int, j: int| 0 <= i < j < e.len() implies (#[trigger] e[i]).0 != (#[trigger] e[j]).0 by {
    }
}

proof fn lemma_fila(keymap: Seq<char>, j: int)
    requires
        0 <= j < excepciones().len(),
        recortado(keymap) == excepciones()[j].0,
    ensures
        a_xkb_spec(keymap) == excepciones()[j].1,
{
    lemma_claves_distintas();
    let l = recortado(keymap);
    let e = excepciones();
    assert forall|i: int| 0 <= i < j implies !es_excepcion(l)(#[trigger] e[i]) by {
        assert(e[i].0 != e[j].0);
    }
    crate::orden::lemma_primera(e, es_excepcion(l), j);
}

/// **Cada mapa de consola de la tabla da su diseño y su variante de XKB.**
/// Para cualquier mapa de consola que, sin los blancos de los extremos, sea
/// uno de estos, la traducción es exactamente ésta: el latinoamericano es
/// `latam`, el británico `gb`, el canadiense francés `ca` con `fr`, los
/// Dvorak y Colemak son variantes de `us`, el turco F es `tr` con `f`, el
/// brasileño es `br` con `abnt2` o `abnt`, los suizos son `ch` con `de` o
/// `fr`, y `us-acentos` es `us` con la variante internacional `intl`, la de
/// las teclas muertas para escribir acentos.
pub proof fn cada_excepcion_da_su_diseno(keymap: Seq<char>)
    ensures
        recortado(keymap) == "la-latin1"@ ==> a_xkb_spec(keymap) == ("latam"@, ""@),
        recortado(keymap) == "la"@ ==> a_xkb_spec(keymap) == ("latam"@, ""@),
        recortado(keymap) == "uk"@ ==> a_xkb_spec(keymap) == ("gb"@, ""@),
        recortado(keymap) == "cf"@ ==> a_xkb_spec(keymap) == ("ca"@, "fr"@),
        recortado(keymap) == "dvorak"@ ==> a_xkb_spec(keymap) == ("us"@, "dvorak"@),
        recortado(keymap) == "dvorak-l"@ ==> a_xkb_spec(keymap) == ("us"@, "dvorak-l"@),
        recortado(keymap) == "dvorak-r"@ ==> a_xkb_spec(keymap) == ("us"@, "dvorak-r"@),
        recortado(keymap) == "colemak"@ ==> a_xkb_spec(keymap) == ("us"@, "colemak"@),
        recortado(keymap) == "trq"@ ==> a_xkb_spec(keymap) == ("tr"@, ""@),
        recortado(keymap) == "trf"@ ==> a_xkb_spec(keymap) == ("tr"@, "f"@),
        recortado(keymap) == "jp106"@ ==> a_xkb_spec(keymap) == ("jp"@, ""@),
        recortado(keymap) == "gr"@ ==> a_xkb_spec(keymap) == ("gr"@, ""@),
        recortado(keymap) == "br-abnt2"@ ==> a_xkb_spec(keymap) == ("br"@, "abnt2"@),
        recortado(keymap) == "br-abnt"@ ==> a_xkb_spec(keymap) == ("br"@, "abnt"@),
        recortado(keymap) == "sg"@ ==> a_xkb_spec(keymap) == ("ch"@, "de"@),
        recortado(keymap) == "fr_CH"@ ==> a_xkb_spec(keymap) == ("ch"@, "fr"@),
        recortado(keymap) == "us-acentos"@ ==> a_xkb_spec(keymap) == ("us"@, "intl"@),
{
    reveal_strlit("la-latin1");
    reveal_strlit("la");
    reveal_strlit("uk");
    reveal_strlit("cf");
    reveal_strlit("dvorak");
    reveal_strlit("dvorak-l");
    reveal_strlit("dvorak-r");
    reveal_strlit("colemak");
    reveal_strlit("trq");
    reveal_strlit("trf");
    reveal_strlit("jp106");
    reveal_strlit("gr");
    reveal_strlit("br-abnt2");
    reveal_strlit("br-abnt");
    reveal_strlit("sg");
    reveal_strlit("fr_CH");
    reveal_strlit("us-acentos");
    let l = recortado(keymap);
    if l == "la-latin1"@ {
        lemma_fila(keymap, 0);
    }
    if l == "la"@ {
        lemma_fila(keymap, 1);
    }
    if l == "uk"@ {
        lemma_fila(keymap, 2);
    }
    if l == "cf"@ {
        lemma_fila(keymap, 3);
    }
    if l == "dvorak"@ {
        lemma_fila(keymap, 4);
    }
    if l == "dvorak-l"@ {
        lemma_fila(keymap, 5);
    }
    if l == "dvorak-r"@ {
        lemma_fila(keymap, 6);
    }
    if l == "colemak"@ {
        lemma_fila(keymap, 7);
    }
    if l == "trq"@ {
        lemma_fila(keymap, 8);
    }
    if l == "trf"@ {
        lemma_fila(keymap, 9);
    }
    if l == "jp106"@ {
        lemma_fila(keymap, 10);
    }
    if l == "gr"@ {
        lemma_fila(keymap, 11);
    }
    if l == "br-abnt2"@ {
        lemma_fila(keymap, 12);
    }
    if l == "br-abnt"@ {
        lemma_fila(keymap, 13);
    }
    if l == "sg"@ {
        lemma_fila(keymap, 14);
    }
    if l == "fr_CH"@ {
        lemma_fila(keymap, 15);
    }
    if l == "us-acentos"@ {
        lemma_fila(keymap, 16);
    }
}

} // verus!
