//! Lo que se puede averiguar del equipo antes de tocarlo.
//!
//! Casi todo sale de `/sys`, `/proc` y `/usr/share`. La aplicación lee esos
//! archivos y acá se interpretan. Regla de todo el módulo: si un dato no se
//! puede averiguar, se devuelve vacío y se sigue. El instalador tiene que abrir
//! aunque falte un archivo; una lista vacía se puede completar a mano, una
//! ventana que no abre no.

use vstd::prelude::*;

use crate::complementos::vistas_textos;
use crate::conjunto::{agregados, Conjunto};
use crate::entorno::es_directorio;
use crate::layout::Firmware;
use crate::orden::{lemma_primera, lemma_primera_encontro, primera};
use crate::texto::{
    cadena, cadena_de, caracteres, es_blanco, lineas, lineas_de, palabras, palabras_de, partes,
    dividir, recortado, recortar, termina_en, sin_sufijos, recortar_sufijos, termina_con,
};

verus! {

broadcast use vstd::string::group_string_axioms;

/// El equipo, para la pantalla de resumen y para las comprobaciones previas.
#[derive(Debug)]
pub struct Sistema {
    pub firmware: Firmware,
    pub memoria_bytes: u64,
    pub cpu: String,
    pub nucleos: usize,
    /// Si hay ruta por defecto. La instalación baja todo de los repositorios,
    /// así que sin esto no se puede empezar.
    pub hay_red: bool,
    /// Si el equipo corre dentro de una máquina virtual, y de cuál. Sirve para
    /// avisar antes de que alguien instale sobre el disco de su anfitrión.
    pub virtualizacion: Option<String>,
}

// ── Firmware ────────────────────────────────────────────────────────────────

/// UEFI si el kernel creó `/sys/firmware/efi`, BIOS si no.
pub open spec fn firmware_spec(hay_efi: bool) -> Firmware {
    if hay_efi {
        Firmware::Uefi
    } else {
        Firmware::Bios
    }
}

/// El firmware, sabiendo si existe `/sys/firmware/efi`.
pub fn firmware_segun(hay_efi: bool) -> (r: Firmware)
    ensures
        r == firmware_spec(hay_efi),
{
    if hay_efi {
        Firmware::Uefi
    } else {
        Firmware::Bios
    }
}

/// El directorio que el kernel crea cuando arrancó por UEFI.
pub fn ruta_efi() -> (r: &'static str)
    ensures
        r@ == "/sys/firmware/efi"@,
{
    "/sys/firmware/efi"
}

/// UEFI o BIOS.
///
/// La existencia de `/sys/firmware/efi` es la comprobación canónica: el
/// directorio lo crea el kernel sólo cuando arrancó por EFI. `efivars` vive
/// adentro, y buscarlo directamente falla en los equipos donde el módulo no
/// está cargado aunque el arranque haya sido EFI.
pub fn detectar_firmware() -> (r: Firmware)
    ensures
        exists|hay_efi: bool| r == firmware_spec(hay_efi),
{
    let hay_efi = es_directorio(ruta_efi());
    firmware_segun(hay_efi)
}

// ── Texto de /proc ──────────────────────────────────────────────────────────

/// Si `l` empieza con `p`.
pub open spec fn empieza(l: Seq<char>, p: Seq<char>) -> bool {
    p.len() <= l.len() && l.take(p.len() as int) == p
}

pub open spec fn empieza_fn(p: Seq<char>) -> spec_fn(Seq<char>) -> bool {
    |l: Seq<char>| empieza(l, p)
}

fn empieza_con(l: &Vec<char>, p: &str) -> (r: bool)
    ensures
        r == empieza(l@, p@),
{
    let c = caracteres(p);
    if c.len() > l.len() {
        return false;
    }
    let mut i: usize = 0;
    while i < c.len()
        invariant
            i <= c.len() <= l.len(),
            c@ == p@,
            forall|j: int| 0 <= j < i ==> l@[j] == c@[j],
        decreases c.len() - i,
    {
        if l[i] != c[i] {
            assert(l@.take(c.len() as int)[i as int] != p@[i as int]);
            return false;
        }
        i = i + 1;
    }
    assert(l@.take(c.len() as int) =~= p@);
    true
}

/// La primera línea que empieza con `p`, si hay.
fn primera_que_empieza(ls: &Vec<Vec<char>>, p: &str) -> (r: Option<usize>)
    ensures
        match r {
            Some(k) => k < ls.len() && k == primera(
                ls@.map_values(|t: Vec<char>| t@),
                empieza_fn(p@),
            ),
            None => primera(ls@.map_values(|t: Vec<char>| t@), empieza_fn(p@)) == -1,
        },
{
    let ghost vl = ls@.map_values(|t: Vec<char>| t@);
    let mut i: usize = 0;
    while i < ls.len()
        invariant
            i <= ls.len(),
            vl == ls@.map_values(|t: Vec<char>| t@),
            forall|j: int| 0 <= j < i ==> !empieza_fn(p@)(#[trigger] vl[j]),
        decreases ls.len() - i,
    {
        assert(vl[i as int] == ls@[i as int]@);
        if empieza_con(&ls[i], p) {
            proof {
                lemma_primera(vl, empieza_fn(p@), i as int);
            }
            return Some(i);
        }
        i = i + 1;
    }
    proof {
        lemma_primera(vl, empieza_fn(p@), i as int);
    }
    None
}

/// El valor de una cifra decimal.
pub open spec fn cifra_decimal(c: char) -> Option<nat> {
    if '0' <= c && c <= '9' {
        Some((c as u32 - '0' as u32) as nat)
    } else {
        None
    }
}

pub open spec fn todas_decimales(s: Seq<char>) -> bool {
    forall|i: int| 0 <= i < s.len() ==> (#[trigger] cifra_decimal(s[i])) is Some
}

pub open spec fn valor_decimal(s: Seq<char>) -> nat
    decreases s.len(),
{
    if s.len() == 0 {
        0
    } else {
        valor_decimal(s.drop_last()) * 10 + cifra_decimal(s.last())->0
    }
}

/// Lo que devuelve `u64::from_str`: un `+` opcional, al menos una cifra, y
/// que el valor entre en un `u64`.
pub open spec fn decimal_u64(s: Seq<char>) -> Option<u64> {
    decimal_sin_signo(
        if s.len() > 0 && s[0] == '+' {
            s.drop_first()
        } else {
            s
        },
    )
}

pub open spec fn decimal_sin_signo(t: Seq<char>) -> Option<u64> {
    if t.len() > 0 && todas_decimales(t) && valor_decimal(t) <= u64::MAX {
        Some(valor_decimal(t) as u64)
    } else {
        None
    }
}

proof fn lemma_decimal_crece(s: Seq<char>, k: int)
    requires
        0 <= k <= s.len(),
    ensures
        valor_decimal(s.take(k)) <= valor_decimal(s),
    decreases s.len() - k,
{
    if k < s.len() {
        lemma_decimal_crece(s, k + 1);
        assert(s.take(k + 1).drop_last() =~= s.take(k));
    } else {
        assert(s.take(k) =~= s);
    }
}

/// Lee un número decimal sin signo, como `u64::from_str`.
pub fn leer_decimal(s: &Vec<char>) -> (r: Option<u64>)
    ensures
        r == decimal_u64(s@),
{
    let desde: usize = if s.len() > 0 && s[0] == '+' {
        1
    } else {
        0
    };
    let ghost t = s@.skip(desde as int);
    proof {
        if desde == 1 {
            assert(s@.drop_first() =~= t);
        } else {
            assert(s@ =~= t);
        }
    }
    assert(decimal_u64(s@) == decimal_sin_signo(t));
    if desde >= s.len() {
        return None;
    }
    let mut acc: u128 = 0;
    let mut i: usize = desde;
    while i < s.len()
        invariant
            desde <= i <= s.len(),
            desde < s.len(),
            t == s@.skip(desde as int),
            decimal_u64(s@) == decimal_sin_signo(t),
            todas_decimales(t.take(i - desde)),
            acc == valor_decimal(t.take(i - desde)),
            acc <= u64::MAX,
        decreases s.len() - i,
    {
        let c = s[i];
        let ghost p = t.take(i - desde + 1);
        assert(p.drop_last() =~= t.take(i - desde));
        assert(p.last() == c);
        if !('0' <= c && c <= '9') {
            assert(cifra_decimal(t[i - desde]) is None);
            return None;
        }
        let d: u128 = (c as u128) - 48;
        let nuevo = acc * 10 + d;
        if nuevo > 0xffff_ffff_ffff_ffff {
            proof {
                lemma_decimal_crece(t, i - desde + 1);
            }
            return None;
        }
        acc = nuevo;
        proof {
            assert forall|j: int| 0 <= j < p.len() implies (#[trigger] cifra_decimal(p[j])) is Some by {
                if j < p.len() - 1 {
                    assert(p[j] == t.take(i - desde)[j]);
                }
            }
        }
        i = i + 1;
    }
    assert(t.take(i - desde) =~= t);
    Some(acc as u64)
}

/// Los kibibytes de `MemTotal` en `/proc/meminfo`, si se pueden leer.
///
/// La línea es `MemTotal:  16311512 kB`, y ese `kB` son kibibytes aunque
/// diga `kB`.
pub open spec fn memoria_kib_spec(meminfo: Seq<char>) -> Option<u64> {
    let ls = lineas(meminfo);
    let k = primera(ls, empieza_fn("MemTotal:"@));
    if k < 0 {
        None
    } else {
        let ws = palabras(ls[k].skip("MemTotal:"@.len() as int));
        if ws.len() == 0 {
            None
        } else {
            decimal_u64(ws[0])
        }
    }
}

/// Que la memoria en bytes entre en un `u64`.
pub open spec fn memoria_acotada(meminfo: Seq<char>) -> bool {
    match memoria_kib_spec(meminfo) {
        Some(kib) => kib * 1024 <= u64::MAX,
        None => true,
    }
}

/// La memoria total en bytes, o cero si no se puede leer.
pub open spec fn memoria_spec(meminfo: Seq<char>) -> u64 {
    match memoria_kib_spec(meminfo) {
        Some(kib) => (kib * 1024) as u64,
        None => 0,
    }
}

/// Los kibibytes de `MemTotal`, si se pueden leer.
pub fn memoria_kib(meminfo: &str) -> (r: Option<u64>)
    ensures
        r == memoria_kib_spec(meminfo@),
{
    let ls = lineas_de(meminfo);
    let ghost vl = ls@.map_values(|t: Vec<char>| t@);
    proof {
        reveal_strlit("MemTotal:");
    }
    match primera_que_empieza(&ls, "MemTotal:") {
        None => None,
        Some(k) => {
            let linea = &ls[k];
            assert(vl[k as int] == linea@);
            let mut resto: Vec<char> = Vec::new();
            let mut i: usize = 9;
            assert(empieza(linea@, "MemTotal:"@)) by {
                lemma_primera_encontro(vl, empieza_fn("MemTotal:"@));
            }
            while i < linea.len()
                invariant
                    9 <= i <= linea.len(),
                    resto@ == linea@.subrange(9, i as int),
                decreases linea.len() - i,
            {
                resto.push(linea[i]);
                assert(resto@ =~= linea@.subrange(9, i as int + 1));
                i = i + 1;
            }
            assert(resto@ =~= linea@.skip(9));
            let texto = cadena_de(resto);
            let ws = palabras_de(texto.as_str());
            if ws.len() == 0 {
                None
            } else {
                assert(ws@[0]@ == palabras(linea@.skip(9))[0]);
                leer_decimal(&ws[0])
            }
        },
    }
}

/// Memoria total, en bytes, o cero si no se puede leer.
pub fn memoria_total(meminfo: &str) -> (r: u64)
    requires
        memoria_acotada(meminfo@),
    ensures
        r == memoria_spec(meminfo@),
{
    match memoria_kib(meminfo) {
        Some(kib) => kib * 1024,
        None => 0,
    }
}

/// El modelo de CPU: lo que sigue a los dos puntos de la primera línea
/// `model name`, recortado, o vacío.
pub open spec fn modelo_spec(cpuinfo: Seq<char>) -> Seq<char> {
    let ls = lineas(cpuinfo);
    let k = primera(ls, empieza_fn("model name"@));
    if k < 0 {
        seq![]
    } else {
        let l = ls[k];
        let d = primera(l, dos_puntos());
        if d < 0 {
            seq![]
        } else {
            recortado(l.skip(d + 1))
        }
    }
}

pub open spec fn dos_puntos() -> spec_fn(char) -> bool {
    |c: char| c == ':'
}

/// Cuántas líneas de la lista empiezan con `p`.
pub open spec fn cuantas_empiezan(ls: Seq<Seq<char>>, p: Seq<char>) -> nat
    decreases ls.len(),
{
    if ls.len() == 0 {
        0
    } else {
        cuantas_empiezan(ls.drop_last(), p) + if empieza(ls.last(), p) {
            1nat
        } else {
            0nat
        }
    }
}

/// Los hilos: las líneas `processor`, que son los que ve el kernel.
pub open spec fn hilos_spec(cpuinfo: Seq<char>) -> nat {
    cuantas_empiezan(lineas(cpuinfo), "processor"@)
}

/// Modelo de CPU y cantidad de hilos, de `/proc/cpuinfo`.
///
/// Se cuentan los `processor`, que son los hilos que ve el kernel: `cpu cores`
/// daría núcleos físicos, que es otro número.
pub fn cpu(cpuinfo: &str) -> (r: (String, usize))
    ensures
        r.0@ == modelo_spec(cpuinfo@),
        r.1 == hilos_spec(cpuinfo@),
{
    let ls = lineas_de(cpuinfo);
    let ghost vl = ls@.map_values(|t: Vec<char>| t@);
    proof {
        reveal_strlit("");
    }
    let modelo = match primera_que_empieza(&ls, "model name") {
        None => cadena(""),
        Some(k) => {
            let l = &ls[k];
            assert(vl[k as int] == l@);
            let mut d: usize = 0;
            while d < l.len()
                invariant
                    d <= l.len(),
                    forall|j: int| 0 <= j < d ==> !dos_puntos()(#[trigger] l@[j]),
                ensures
                    d <= l.len(),
                    forall|j: int| 0 <= j < d ==> !dos_puntos()(#[trigger] l@[j]),
                    d < l.len() ==> dos_puntos()(l@[d as int]),
                decreases l.len() - d,
            {
                if l[d] == ':' {
                    break;
                }
                d = d + 1;
            }
            proof {
                lemma_primera(l@, dos_puntos(), d as int);
            }
            if d == l.len() {
                cadena("")
            } else {
                let mut resto: Vec<char> = Vec::new();
                let mut i: usize = d + 1;
                while i < l.len()
                    invariant
                        d + 1 <= i <= l.len(),
                        resto@ == l@.subrange(d + 1, i as int),
                    decreases l.len() - i,
                {
                    resto.push(l[i]);
                    assert(resto@ =~= l@.subrange(d + 1, i as int + 1));
                    i = i + 1;
                }
                assert(resto@ =~= l@.skip(d + 1));
                cadena_de(recortar(&resto))
            }
        },
    };
    let mut hilos: usize = 0;
    let mut i: usize = 0;
    while i < ls.len()
        invariant
            i <= ls.len(),
            vl == ls@.map_values(|t: Vec<char>| t@),
            hilos == cuantas_empiezan(vl.take(i as int), "processor"@),
            hilos <= i,
        decreases ls.len() - i,
    {
        assert(vl.take(i as int + 1).drop_last() =~= vl.take(i as int));
        assert(vl[i as int] == ls@[i as int]@);
        if empieza_con(&ls[i], "processor") {
            hilos = hilos + 1;
        }
        i = i + 1;
    }
    assert(vl.take(i as int) =~= vl);
    (modelo, hilos)
}

/// Si alguna línea de la tabla de rutas, salvo la cabecera, tiene destino
/// `00000000`: la ruta por defecto.
///
/// Es una comprobación de configuración, no de conectividad: puede haber ruta
/// y no llegar a internet.
pub open spec fn hay_ruta_spec(route: Seq<char>) -> bool {
    let ls = lineas(route);
    exists|i: int|
        1 <= i < ls.len() && palabras(#[trigger] ls[i]).len() >= 2 && palabras(ls[i])[1]
            == "00000000"@
}

/// **Cualquier fila con destino `00000000` es una ruta por defecto, esté
/// donde esté.** Si alguna fila de la tabla de rutas que no es la cabecera
/// tiene como segundo campo `00000000`, hay red, sin importar cuántas filas
/// vengan antes o después de ella. Si ninguna lo tiene —o la tabla no tiene
/// más que la cabecera—, no hay. La cabecera nunca cuenta.
pub proof fn la_ruta_por_defecto_cuenta_en_cualquier_fila(route: Seq<char>, i: int)
    ensures
        1 <= i < lineas(route).len() && palabras(lineas(route)[i]).len() >= 2 && palabras(
            lineas(route)[i],
        )[1] == "00000000"@ ==> hay_ruta_spec(route),
        (forall|j: int|
            1 <= j < lineas(route).len() ==> !(palabras(#[trigger] lineas(route)[j]).len() >= 2
                && palabras(lineas(route)[j])[1] == "00000000"@)) ==> !hay_ruta_spec(route),
        lineas(route).len() <= 1 ==> !hay_ruta_spec(route),
{
}

/// Si hay una ruta por defecto, según `/proc/net/route`.
pub fn hay_ruta_por_defecto(route: &str) -> (r: bool)
    ensures
        r == hay_ruta_spec(route@),
{
    let ls = lineas_de(route);
    let ghost vl = ls@.map_values(|t: Vec<char>| t@);
    let mut i: usize = 1;
    while i < ls.len()
        invariant
            1 <= i,
            vl == ls@.map_values(|t: Vec<char>| t@),
            vl == lineas(route@),
            forall|j: int|
                1 <= j < i && j < vl.len() ==> !(palabras(#[trigger] vl[j]).len() >= 2 && palabras(
                    vl[j],
                )[1] == "00000000"@),
        decreases ls.len() - i,
    {
        let texto = cadena_de(crate::texto::copia(&ls[i]));
        assert(vl[i as int] == texto@);
        let ws = palabras_de(texto.as_str());
        if ws.len() >= 2 {
            let campo = cadena_de(crate::texto::copia(&ws[1]));
            assert(campo@ == palabras(vl[i as int])[1]);
            if crate::texto::iguales(campo.as_str(), "00000000") {
                return true;
            }
        }
        i = i + 1;
    }
    false
}

/// Lo que dice `systemd-detect-virt`: `none` o nada es que no hay
/// virtualización. Sale con código 1 en ese caso, y eso no es un error.
pub open spec fn virtualizacion_spec(salida: Seq<char>) -> Option<Seq<char>> {
    let t = recortado(salida);
    if t.len() == 0 || t == "none"@ {
        None
    } else {
        Some(t)
    }
}

/// La virtualización, a partir de la salida de `systemd-detect-virt`.
pub fn virtualizacion(salida: &str) -> (r: Option<String>)
    ensures
        crate::archconfig::vista_texto_opcional(r) == virtualizacion_spec(salida@),
{
    let t = cadena_de(recortar(&caracteres(salida)));
    if t.as_str().is_empty() || crate::texto::iguales(t.as_str(), "none") {
        None
    } else {
        Some(t)
    }
}

/// Todo lo que se sabe del equipo, a partir de lo que se pudo leer.
///
/// Cada archivo que falta deja su dato vacío y nada más.
pub fn sondear_sistema(
    hay_efi: bool,
    meminfo: Option<&str>,
    cpuinfo: Option<&str>,
    route: Option<&str>,
    salida_virt: Option<&str>,
) -> (r: Sistema)
    requires
        match meminfo {
            Some(m) => memoria_acotada(m@),
            None => true,
        },
    ensures
        r.firmware == firmware_spec(hay_efi),
        r.memoria_bytes == match meminfo {
            Some(m) => memoria_spec(m@),
            None => 0,
        },
        r.cpu@ == match cpuinfo {
            Some(c) => modelo_spec(c@),
            None => seq![],
        },
        r.nucleos == match cpuinfo {
            Some(c) => hilos_spec(c@),
            None => 0,
        },
        r.hay_red == match route {
            Some(t) => hay_ruta_spec(t@),
            None => false,
        },
        crate::archconfig::vista_texto_opcional(r.virtualizacion) == match salida_virt {
            Some(v) => virtualizacion_spec(v@),
            None => None,
        },
{
    proof {
        reveal_strlit("");
    }
    let (modelo, nucleos) = match cpuinfo {
        Some(c) => cpu(c),
        None => (cadena(""), 0),
    };
    Sistema {
        firmware: firmware_segun(hay_efi),
        memoria_bytes: match meminfo {
            Some(m) => memoria_total(m),
            None => 0,
        },
        cpu: modelo,
        nucleos,
        hay_red: match route {
            Some(t) => hay_ruta_por_defecto(t),
            None => false,
        },
        virtualizacion: match salida_virt {
            Some(v) => virtualizacion(v),
            None => None,
        },
    }
}

// ── Catálogos: zonas, idiomas y teclados ────────────────────────────────────

fn solo_blancos(c: &Vec<char>) -> (r: bool)
    ensures
        r == crate::texto::todo_blanco(c@),
{
    let mut i: usize = 0;
    while i < c.len()
        invariant
            i <= c.len(),
            forall|j: int| 0 <= j < i ==> es_blanco(#[trigger] c@[j]),
        decreases c.len() - i,
    {
        if !crate::texto::blanco(c[i]) {
            return false;
        }
        i = i + 1;
    }
    true
}

/// La zona que nombra una línea de `zone1970.tab`: la tercera columna, entre
/// tabulaciones. Los comentarios y las líneas en blanco no nombran ninguna.
pub open spec fn zona_de_linea(l: Seq<char>) -> Option<Seq<char>> {
    if (l.len() > 0 && l[0] == '#') || crate::texto::todo_blanco(l) {
        None
    } else if partes(l, '\t').len() >= 3 {
        Some(recortado(partes(l, '\t')[2]))
    } else {
        None
    }
}

/// Junta en un conjunto lo que da `f` de cada línea.
pub open spec fn juntar(ls: Seq<Seq<char>>, f: spec_fn(Seq<char>) -> Option<Seq<char>>) -> Seq<
    Seq<char>,
>
    decreases ls.len(),
{
    if ls.len() == 0 {
        seq![]
    } else {
        let antes = juntar(ls.drop_last(), f);
        match f(ls.last()) {
            Some(x) => crate::conjunto::con(antes, x),
            None => antes,
        }
    }
}

pub open spec fn zonas_spec(contenido: Seq<char>) -> Seq<Seq<char>> {
    juntar(lineas(contenido), |l: Seq<char>| zona_de_linea(l))
}

fn zona_de(l: &Vec<char>) -> (r: Option<String>)
    ensures
        crate::archconfig::vista_texto_opcional(r) == zona_de_linea(l@),
{
    if (l.len() > 0 && l[0] == '#') || solo_blancos(l) {
        return None;
    }
    let texto = cadena_de(crate::texto::copia(l));
    let ps = dividir(texto.as_str(), '\t');
    if ps.len() >= 3 {
        assert(ps@[2]@ == partes(l@, '\t')[2]);
        Some(cadena_de(recortar(&ps[2])))
    } else {
        None
    }
}

/// Las zonas horarias de `zone1970.tab`, sin repetidas y en orden.
///
/// Se lee esa tabla y no el árbol de `/usr/share/zoneinfo` porque el árbol
/// tiene además los enlaces de compatibilidad (`US/Eastern`), las copias
/// `posix/` y `right/`, y `leapseconds`: un desplegable con eso adentro tiene
/// tres entradas para la misma ciudad.
pub fn zonas_de_tabla(contenido: &str) -> (r: Vec<String>)
    ensures
        vistas_textos(r@) == zonas_spec(contenido@),
{
    let ls = lineas_de(contenido);
    let ghost vl = ls@.map_values(|t: Vec<char>| t@);
    let ghost f = |l: Seq<char>| zona_de_linea(l);
    let mut zonas = Conjunto::new();
    let mut i: usize = 0;
    while i < ls.len()
        invariant
            i <= ls.len(),
            vl == ls@.map_values(|t: Vec<char>| t@),
            vl == lineas(contenido@),
            f == (|l: Seq<char>| zona_de_linea(l)),
            zonas@ == juntar(vl.take(i as int), f),
        decreases ls.len() - i,
    {
        proof {
            assert(vl.take(i as int + 1).drop_last() =~= vl.take(i as int));
            assert(vl.take(i as int + 1).last() == ls@[i as int]@);
        }
        match zona_de(&ls[i]) {
            Some(z) => {
                zonas.insert(z);
            },
            None => {},
        }
        i = i + 1;
    }
    assert(vl.take(i as int) =~= vl);
    zonas.como_lista()
}

/// Las regiones reales del árbol de zonas: `posix` y `right` son copias del
/// mismo árbol, y `SystemV` son alias.
pub open spec fn regiones_spec() -> Seq<Seq<char>> {
    seq![
        "Africa"@, "America"@, "Antarctica"@, "Arctic"@, "Asia"@, "Atlantic"@, "Australia"@,
        "Europe"@, "Indian"@, "Pacific"@,
    ]
}

/// Las regiones que se recorren cuando falta la tabla de zonas.
pub fn regiones() -> (r: Vec<&'static str>)
    ensures
        crate::archconfig::vistas_fijas(r@) == regiones_spec(),
{
    let r = vec![
        "Africa", "America", "Antarctica", "Arctic", "Asia", "Atlantic", "Australia", "Europe",
        "Indian", "Pacific",
    ];
    assert(crate::archconfig::vistas_fijas(r@) =~= regiones_spec());
    r
}

pub open spec fn zonas_del_arbol_spec(archivos: Seq<Seq<char>>) -> Seq<Seq<char>> {
    crate::conjunto::con(agregados(seq![], archivos), "UTC"@)
}

/// Las zonas, a partir de los archivos encontrados bajo las regiones
/// (`America/Argentina/Buenos_Aires`), más `UTC`. Es el respaldo cuando falta
/// la tabla: peor lista, pero una lista.
pub fn zonas_recorriendo_el_arbol(archivos: &[String]) -> (r: Vec<String>)
    ensures
        vistas_textos(r@) == zonas_del_arbol_spec(vistas_textos(archivos@)),
{
    let mut zonas = Conjunto::new();
    zonas.extender(archivos);
    zonas.insert(cadena("UTC"));
    zonas.como_lista()
}

pub open spec fn es_espacio() -> spec_fn(char) -> bool {
    |c: char| c == ' '
}

/// El local UTF-8 que nombra una línea de `SUPPORTED` (`es_AR.UTF-8 UTF-8`),
/// sin la codificación: archinstall pide el idioma y la codificación en dos
/// campos separados.
pub open spec fn idioma_de_linea(l: Seq<char>) -> Option<Seq<char>> {
    let k = primera(l, es_espacio());
    if k < 0 {
        None
    } else if recortado(l.skip(k + 1)) == "UTF-8"@ {
        Some(crate::texto::sin_sufijos(l.take(k), ".UTF-8"@))
    } else {
        None
    }
}

pub open spec fn idiomas_spec(contenido: Seq<char>) -> Seq<Seq<char>> {
    juntar(lineas(contenido), |l: Seq<char>| idioma_de_linea(l))
}

fn idioma_de(l: &Vec<char>) -> (r: Option<String>)
    ensures
        crate::archconfig::vista_texto_opcional(r) == idioma_de_linea(l@),
{
    let mut k: usize = 0;
    while k < l.len()
        invariant
            k <= l.len(),
            forall|j: int| 0 <= j < k ==> !es_espacio()(#[trigger] l@[j]),
        ensures
            k <= l.len(),
            forall|j: int| 0 <= j < k ==> !es_espacio()(#[trigger] l@[j]),
            k < l.len() ==> es_espacio()(l@[k as int]),
        decreases l.len() - k,
    {
        if l[k] == ' ' {
            break;
        }
        k = k + 1;
    }
    proof {
        lemma_primera(l@, es_espacio(), k as int);
    }
    if k == l.len() {
        return None;
    }
    let mut local: Vec<char> = Vec::new();
    let mut i: usize = 0;
    while i < k
        invariant
            i <= k < l.len(),
            local@ == l@.take(i as int),
        decreases k - i,
    {
        local.push(l[i]);
        assert(local@ =~= l@.take(i as int + 1));
        i = i + 1;
    }
    let mut resto: Vec<char> = Vec::new();
    let mut j: usize = k + 1;
    while j < l.len()
        invariant
            k + 1 <= j <= l.len(),
            resto@ == l@.subrange(k + 1, j as int),
        decreases l.len() - j,
    {
        resto.push(l[j]);
        assert(resto@ =~= l@.subrange(k + 1, j as int + 1));
        j = j + 1;
    }
    assert(resto@ =~= l@.skip(k + 1));
    let cod = cadena_de(recortar(&resto));
    if crate::texto::iguales(cod.as_str(), "UTF-8") {
        Some(cadena_de(recortar_sufijos(&local, ".UTF-8")))
    } else {
        None
    }
}

/// Los locales UTF-8 que soporta el sistema, sin la codificación, a partir
/// de `/usr/share/i18n/SUPPORTED`.
pub fn idiomas(contenido: &str) -> (r: Vec<String>)
    ensures
        vistas_textos(r@) == idiomas_spec(contenido@),
{
    let ls = lineas_de(contenido);
    let ghost vl = ls@.map_values(|t: Vec<char>| t@);
    let ghost f = |l: Seq<char>| idioma_de_linea(l);
    let mut lista = Conjunto::new();
    let mut i: usize = 0;
    while i < ls.len()
        invariant
            i <= ls.len(),
            vl == ls@.map_values(|t: Vec<char>| t@),
            vl == lineas(contenido@),
            f == (|l: Seq<char>| idioma_de_linea(l)),
            lista@ == juntar(vl.take(i as int), f),
        decreases ls.len() - i,
    {
        proof {
            assert(vl.take(i as int + 1).drop_last() =~= vl.take(i as int));
            assert(vl.take(i as int + 1).last() == ls@[i as int]@);
        }
        match idioma_de(&ls[i]) {
            Some(x) => {
                lista.insert(x);
            },
            None => {},
        }
        i = i + 1;
    }
    assert(vl.take(i as int) =~= vl);
    lista.como_lista()
}

/// El mapa de teclado que nombra un archivo de `/usr/share/kbd/keymaps`.
///
/// Los mapas son `nombre.map.gz`. `include/` trae fragmentos con la misma
/// extensión que no son mapas cargables: ofrecerlos hace que `loadkeys` falle
/// con un error de sintaxis.
pub open spec fn teclado_de_ruta(ruta: Seq<char>) -> Option<Seq<char>> {
    let ps = partes(ruta, '/');
    let nombre = ps.last();
    if !termina_en(nombre, ".map.gz"@) || ps.contains("include"@) {
        None
    } else {
        Some(sin_sufijos(nombre, ".map.gz"@))
    }
}

pub open spec fn teclados_spec(rutas: Seq<Seq<char>>) -> Seq<Seq<char>> {
    juntar(rutas, |r: Seq<char>| teclado_de_ruta(r))
}

fn teclado_de(ruta: &str) -> (r: Option<String>)
    ensures
        crate::archconfig::vista_texto_opcional(r) == teclado_de_ruta(ruta@),
{
    let ps = dividir(ruta, '/');
    let ghost vp = ps@.map_values(|t: Vec<char>| t@);
    proof {
        crate::texto::lemma_partes_no_vacias(ruta@, '/');
    }
    let nombre = &ps[ps.len() - 1];
    assert(nombre@ == vp.last());
    let sufijo = caracteres(".map.gz");
    if !termina_con(nombre, &sufijo) {
        return None;
    }
    let mut i: usize = 0;
    while i < ps.len()
        invariant
            i <= ps.len(),
            vp == ps@.map_values(|t: Vec<char>| t@),
            vp == partes(ruta@, '/'),
            forall|j: int| 0 <= j < i ==> vp[j] != "include"@,
        decreases ps.len() - i,
    {
        let parte = cadena_de(crate::texto::copia(&ps[i]));
        assert(parte@ == vp[i as int]);
        if crate::texto::iguales(parte.as_str(), "include") {
            assert(vp.contains("include"@));
            return None;
        }
        i = i + 1;
    }
    Some(cadena_de(recortar_sufijos(nombre, ".map.gz")))
}

/// Los mapas de teclado de consola, a partir de los archivos encontrados bajo
/// `/usr/share/kbd/keymaps`.
///
/// Son los que consume archinstall: su `kb_layout` termina en `KEYMAP` de
/// `/etc/vconsole.conf`. No son los nombres de XKB que usa el escritorio; la
/// traducción está en `teclado`.
pub fn teclados(rutas: &[String]) -> (r: Vec<String>)
    ensures
        vistas_textos(r@) == teclados_spec(vistas_textos(rutas@)),
{
    let ghost vr = vistas_textos(rutas@);
    let ghost f = |r: Seq<char>| teclado_de_ruta(r);
    let mut lista = Conjunto::new();
    let mut i: usize = 0;
    while i < rutas.len()
        invariant
            i <= rutas.len(),
            vr == vistas_textos(rutas@),
            f == (|r: Seq<char>| teclado_de_ruta(r)),
            lista@ == juntar(vr.take(i as int), f),
        decreases rutas.len() - i,
    {
        proof {
            assert(vr.take(i as int + 1).drop_last() =~= vr.take(i as int));
            assert(vr.take(i as int + 1).last() == rutas@[i as int]@);
        }
        match teclado_de(rutas[i].as_str()) {
            Some(x) => {
                lista.insert(x);
            },
            None => {},
        }
        i = i + 1;
    }
    assert(vr.take(i as int) =~= vr);
    lista.como_lista()
}

// ── Discos ──────────────────────────────────────────────────────────────────

/// Un dispositivo de `lsblk --bytes --json`, con los campos que se piden.
#[derive(Debug)]
pub struct NodoLsblk {
    pub path: Option<String>,
    /// El nombre del kernel del dispositivo padre (`sda` para `/dev/sda1`), o
    /// nada en un disco. Es así como se asocian las particiones con su disco,
    /// y no por el anidamiento.
    pub pkname: Option<String>,
    pub tipo: Option<String>,
    /// Con `--bytes` es un número; sin él sería `"238,5G"`.
    pub size: Option<u64>,
    pub model: Option<String>,
    pub rota: Option<bool>,
    pub log_sec: Option<u64>,
    pub fstype: Option<String>,
    pub label: Option<String>,
    /// Dónde empieza, en sectores de 512 bytes.
    pub start: Option<u64>,
    pub partn: Option<u32>,
    pub parttype: Option<String>,
    /// Una lista, con `None` para los puntos que no están montados.
    pub mountpoints: Vec<Option<String>>,
    /// Sólo viene con `--tree`; se contempla igual para que la misma función
    /// sirva con las dos formas de salida.
    pub children: Vec<NodoLsblk>,
}

/// Si algún punto de montaje del nodo está puesto.
pub open spec fn montado_spec(n: NodoLsblk) -> bool {
    exists|i: int| 0 <= i < n.mountpoints@.len() && (#[trigger] n.mountpoints@[i]) is Some
}

/// El nombre del kernel: lo que sigue a la última barra de la ruta.
pub open spec fn nombre_spec(n: NodoLsblk) -> Option<Seq<char>> {
    match n.path {
        Some(p) => Some(partes(p@, '/').last()),
        None => None,
    }
}

pub open spec fn nombre_o_vacio(n: NodoLsblk) -> Seq<char> {
    match nombre_spec(n) {
        Some(x) => x,
        None => seq![],
    }
}

pub open spec fn texto_o_vacio(o: Option<String>) -> Seq<char> {
    match o {
        Some(s) => s@,
        None => seq![],
    }
}

impl NodoLsblk {
    /// Si está montado en algún lado.
    pub fn montado(&self) -> (r: bool)
        ensures
            r == montado_spec(*self),
    {
        let mut i: usize = 0;
        while i < self.mountpoints.len()
            invariant
                i <= self.mountpoints.len(),
                forall|j: int| 0 <= j < i ==> !(self.mountpoints@[j] is Some),
            decreases self.mountpoints.len() - i,
        {
            if self.mountpoints[i].is_some() {
                return true;
            }
            i = i + 1;
        }
        false
    }

    /// El nombre del kernel: `sda` para `/dev/sda`.
    pub fn nombre(&self) -> (r: Option<String>)
        ensures
            crate::archconfig::vista_texto_opcional(r) == nombre_spec(*self),
    {
        match &self.path {
            None => None,
            Some(p) => {
                let ps = dividir(p.as_str(), '/');
                proof {
                    crate::texto::lemma_partes_no_vacias(p@, '/');
                }
                let ultimo = &ps[ps.len() - 1];
                assert(ultimo@ == partes(p@, '/').last());
                Some(cadena_de(crate::texto::copia(ultimo)))
            },
        }
    }
}

/// Los nodos en orden, cada uno seguido de sus descendientes.
pub open spec fn aplanado(ns: Seq<NodoLsblk>) -> Seq<NodoLsblk>
    decreases ns,
{
    if ns.len() == 0 {
        seq![]
    } else {
        let n = ns[0];
        proof {
            assert(decreases_to!(ns => ns[0]));
            assert(decreases_to!(ns[0] => ns[0].children));
            assert(decreases_to!(ns[0].children => ns[0].children@));
        }
        seq![n] + aplanado(n.children@) + aplanado(ns.subrange(1, ns.len() as int))
    }
}

pub open spec fn sin_refs(s: Seq<&NodoLsblk>) -> Seq<NodoLsblk> {
    s.map_values(|r: &NodoLsblk| *r)
}

proof fn lemma_aplanado_concat(a: Seq<NodoLsblk>, b: Seq<NodoLsblk>)
    ensures
        aplanado(a + b) == aplanado(a) + aplanado(b),
    decreases a.len(),
{
    if a.len() == 0 {
        assert(a + b =~= b);
        assert(aplanado(a) + aplanado(b) =~= aplanado(b));
    } else {
        let ab = a + b;
        assert(ab[0] == a[0]);
        assert(ab.subrange(1, ab.len() as int) =~= a.subrange(1, a.len() as int) + b);
        lemma_aplanado_concat(a.subrange(1, a.len() as int), b);
        let n = a[0];
        assert(aplanado(ab) =~= seq![n] + aplanado(n.children@) + (aplanado(
            a.subrange(1, a.len() as int),
        ) + aplanado(b)));
    }
}

proof fn lemma_aplanado_uno(n: NodoLsblk)
    ensures
        aplanado(seq![n]) == seq![n] + aplanado(n.children@),
{
    let s = seq![n];
    assert(s.subrange(1, 1) =~= Seq::<NodoLsblk>::empty());
    assert(aplanado(s.subrange(1, 1)) =~= Seq::<NodoLsblk>::empty());
    assert(s[0] == n);
    assert(aplanado(s) =~= seq![n] + aplanado(n.children@));
}

/// Agrega el nodo y todos sus descendientes, en orden.
///
/// `lsblk` anida los hijos sólo cuando se le pasa `--tree`; sin él devuelve
/// una lista plana. Se contemplan las dos formas igual: si vuelve a anidar,
/// esto lo absorbe.
pub fn aplanar<'a>(nodo: &'a NodoLsblk, salida: &mut Vec<&'a NodoLsblk>)
    ensures
        sin_refs(final(salida)@) == sin_refs(old(salida)@) + aplanado(seq![*nodo]),
    decreases nodo,
{
    let ghost inicio = sin_refs(salida@);
    salida.push(nodo);
    assert(sin_refs(salida@) =~= inicio + seq![*nodo]);
    let ghost hijos = nodo.children@;
    let mut i: usize = 0;
    assert(hijos.take(0) =~= Seq::<NodoLsblk>::empty());
    while i < nodo.children.len()
        invariant
            i <= nodo.children.len(),
            hijos == nodo.children@,
            sin_refs(salida@) == inicio + seq![*nodo] + aplanado(hijos.take(i as int)),
        decreases nodo.children.len() - i,
    {
        let hijo = &nodo.children[i];
        proof {
            assert(decreases_to!(nodo => nodo.children));
            assert(decreases_to!(nodo.children => nodo.children@));
            assert(decreases_to!(nodo.children@ => nodo.children@[i as int]));
            lemma_aplanado_concat(hijos.take(i as int), seq![hijos[i as int]]);
            assert(hijos.take(i as int) + seq![hijos[i as int]] =~= hijos.take(i as int + 1));
        }
        aplanar(hijo, salida);
        i = i + 1;
    }
    proof {
        assert(hijos.take(i as int) =~= hijos);
        lemma_aplanado_uno(*nodo);
    }
}

/// Los prefijos de los dispositivos que `lsblk` informa como `disk` y no son
/// discos: `zram` es la memoria de intercambio comprimida, que VasakOS activa
/// por defecto; `loop` es el squashfs de la propia ISO; `sr` las unidades
/// ópticas y `fd` las disqueteras.
pub open spec fn pseudo_discos() -> Seq<Seq<char>> {
    seq!["/dev/zram"@, "/dev/loop"@, "/dev/ram"@, "/dev/sr"@, "/dev/fd"@]
}

pub open spec fn es_pseudo(ruta: Seq<char>) -> bool {
    exists|k: int| 0 <= k < pseudo_discos().len() && empieza(ruta, #[trigger] pseudo_discos()[k])
}

/// Un disco de verdad: tipo `disk` y una ruta que no es de un pseudodisco.
pub open spec fn es_disco_real(n: NodoLsblk) -> bool {
    &&& n.tipo is Some
    &&& n.tipo->0@ == "disk"@
    &&& !es_pseudo(texto_o_vacio(n.path))
}

pub open spec fn hijo_de(n: NodoLsblk, nombre: Seq<char>) -> bool {
    n.pkname is Some && n.pkname->0@ == nombre
}

/// Los nodos cuyo padre se llama `nombre`, en orden.
pub open spec fn hijos_de(todos: Seq<NodoLsblk>, nombre: Seq<char>) -> Seq<NodoLsblk>
    decreases todos.len(),
{
    if todos.len() == 0 {
        seq![]
    } else {
        hijos_de(todos.drop_last(), nombre) + if hijo_de(todos.last(), nombre) {
            seq![todos.last()]
        } else {
            seq![]
        }
    }
}

pub open spec fn alguno_montado(s: Seq<NodoLsblk>) -> bool {
    exists|i: int| 0 <= i < s.len() && montado_spec(#[trigger] s[i])
}

/// Si algún nieto está montado: una partición cifrada monta su contenido a
/// través de un `dm-*` cuyo padre es la partición, no el disco.
pub open spec fn algun_nieto_montado(todos: Seq<NodoLsblk>, hijos: Seq<NodoLsblk>) -> bool {
    exists|i: int, j: int|
        0 <= i < hijos.len() && 0 <= j < todos.len() && hijo_de(
            #[trigger] todos[j],
            nombre_o_vacio(#[trigger] hijos[i]),
        ) && montado_spec(todos[j])
}

pub open spec fn inicio_spec(start: Option<u64>) -> u64 {
    match start {
        Some(s) => if s * 512 <= u64::MAX {
            (s * 512) as u64
        } else {
            0
        },
        None => 0,
    }
}

pub open spec fn particion_de_nodo(h: NodoLsblk) -> crate::layout::VistaParticion {
    crate::layout::VistaParticion {
        ruta: texto_o_vacio(h.path),
        inicio_bytes: inicio_spec(h.start),
        tamano_bytes: match h.size {
            Some(t) => t,
            None => 0,
        },
        sistema_archivos: crate::protocol::vista_texto(h.fstype),
        etiqueta: crate::protocol::vista_texto(h.label),
        numero: h.partn,
        tipo_particion: crate::protocol::vista_texto(h.parttype),
        sistema_operativo: None,
    }
}

pub open spec fn es_particion(h: NodoLsblk) -> bool {
    h.tipo is Some && h.tipo->0@ == "part"@
}

pub open spec fn particiones_de(hijos: Seq<NodoLsblk>) -> Seq<crate::layout::VistaParticion>
    decreases hijos.len(),
{
    if hijos.len() == 0 {
        seq![]
    } else {
        particiones_de(hijos.drop_last()) + if es_particion(hijos.last()) {
            seq![particion_de_nodo(hijos.last())]
        } else {
            seq![]
        }
    }
}

pub open spec fn contiene(t: Seq<char>, p: Seq<char>) -> bool {
    exists|i: int| 0 <= i && i + p.len() <= t.len() && #[trigger] t.subrange(i, i + p.len()) == p
}

/// El disco que describe un nodo, con sus descendientes sacados de todos los
/// nodos.
pub open spec fn disco_spec(n: NodoLsblk, todos: Seq<NodoLsblk>) -> crate::layout::VistaDisco {
    let ruta = texto_o_vacio(n.path);
    let hijos = hijos_de(todos, nombre_o_vacio(n));
    crate::layout::VistaDisco {
        ruta: ruta,
        modelo: match n.model {
            Some(m) => if recortado(m@).len() > 0 {
                recortado(m@)
            } else {
                ruta
            },
            None => ruta,
        },
        tamano_bytes: match n.size {
            Some(t) => t,
            None => 0,
        },
        sector_logico: match n.log_sec {
            Some(s) => s,
            None => 512,
        },
        rotacional: match n.rota {
            Some(r) => r,
            None => false,
        },
        nvme: match n.path {
            Some(p) => contiene(p@, "/nvme"@),
            None => false,
        },
        en_uso: montado_spec(n) || alguno_montado(hijos) || algun_nieto_montado(todos, hijos),
        particiones: particiones_de(hijos),
    }
}

fn texto_de(o: &Option<String>) -> (r: String)
    ensures
        r@ == texto_o_vacio(*o),
{
    proof {
        reveal_strlit("");
    }
    match o {
        Some(t) => cadena(t.as_str()),
        None => cadena(""),
    }
}

fn copia_opcional(o: &Option<String>) -> (r: Option<String>)
    ensures
        crate::protocol::vista_texto(r) == crate::protocol::vista_texto(*o),
{
    match o {
        Some(t) => Some(cadena(t.as_str())),
        None => None,
    }
}

fn es_hijo_de(n: &NodoLsblk, nombre: &str) -> (r: bool)
    ensures
        r == hijo_de(*n, nombre@),
{
    match &n.pkname {
        Some(k) => crate::texto::iguales(k.as_str(), nombre),
        None => false,
    }
}

fn hijos<'a>(todos: &[&'a NodoLsblk], nombre: &str) -> (r: Vec<&'a NodoLsblk>)
    ensures
        sin_refs(r@) == hijos_de(sin_refs(todos@), nombre@),
{
    let ghost vt = sin_refs(todos@);
    let mut r: Vec<&'a NodoLsblk> = Vec::new();
    let mut i: usize = 0;
    while i < todos.len()
        invariant
            i <= todos.len(),
            vt == sin_refs(todos@),
            sin_refs(r@) == hijos_de(vt.take(i as int), nombre@),
        decreases todos.len() - i,
    {
        proof {
            assert(vt.take(i as int + 1).drop_last() =~= vt.take(i as int));
            assert(vt.take(i as int + 1).last() == *todos@[i as int]);
        }
        let ghost antes = sin_refs(r@);
        if es_hijo_de(todos[i], nombre) {
            r.push(todos[i]);
            assert(sin_refs(r@) =~= antes + seq![*todos@[i as int]]);
        } else {
            assert(hijos_de(vt.take(i as int + 1), nombre@) =~= antes);
        }
        i = i + 1;
    }
    assert(vt.take(i as int) =~= vt);
    r
}

fn alguno_montado_en(s: &[&NodoLsblk]) -> (r: bool)
    ensures
        r == alguno_montado(sin_refs(s@)),
{
    let ghost vs = sin_refs(s@);
    let mut i: usize = 0;
    while i < s.len()
        invariant
            i <= s.len(),
            vs == sin_refs(s@),
            forall|j: int| 0 <= j < i ==> !montado_spec(#[trigger] vs[j]),
        decreases s.len() - i,
    {
        assert(vs[i as int] == *s@[i as int]);
        if s[i].montado() {
            return true;
        }
        i = i + 1;
    }
    false
}

fn algun_nieto_montado_en(todos: &[&NodoLsblk], hijos: &[&NodoLsblk]) -> (r: bool)
    ensures
        r == algun_nieto_montado(sin_refs(todos@), sin_refs(hijos@)),
{
    let ghost vt = sin_refs(todos@);
    let ghost vh = sin_refs(hijos@);
    let mut i: usize = 0;
    while i < hijos.len()
        invariant
            i <= hijos.len(),
            vt == sin_refs(todos@),
            vh == sin_refs(hijos@),
            forall|a: int, b: int|
                0 <= a < i && 0 <= b < vt.len() ==> !(hijo_de(
                    #[trigger] vt[b],
                    nombre_o_vacio(#[trigger] vh[a]),
                ) && montado_spec(vt[b])),
        decreases hijos.len() - i,
    {
        assert(vh[i as int] == *hijos@[i as int]);
        let nombre = match hijos[i].nombre() {
            Some(x) => x,
            None => texto_de(&None),
        };
        assert(nombre@ == nombre_o_vacio(vh[i as int]));
        let mut j: usize = 0;
        while j < todos.len()
            invariant
                j <= todos.len(),
                i < hijos.len(),
                vt == sin_refs(todos@),
                vh == sin_refs(hijos@),
                nombre@ == nombre_o_vacio(vh[i as int]),
                forall|a: int, b: int|
                    0 <= a < i && 0 <= b < vt.len() ==> !(hijo_de(
                        #[trigger] vt[b],
                        nombre_o_vacio(#[trigger] vh[a]),
                    ) && montado_spec(vt[b])),
                forall|b: int|
                    0 <= b < j ==> !(hijo_de(#[trigger] vt[b], nombre_o_vacio(vh[i as int]))
                        && montado_spec(vt[b])),
            decreases todos.len() - j,
        {
            assert(vt[j as int] == *todos@[j as int]);
            if es_hijo_de(todos[j], nombre.as_str()) && todos[j].montado() {
                assert(hijo_de(vt[j as int], nombre_o_vacio(vh[i as int])) && montado_spec(vt[j as int]));
                return true;
            }
            j = j + 1;
        }
        i = i + 1;
    }
    false
}

fn particion_existente(h: &NodoLsblk) -> (r: crate::layout::ParticionExistente)
    ensures
        r@ == particion_de_nodo(*h),
{
    let inicio_bytes: u64 = match h.start {
        Some(s) => if s <= 0x007f_ffff_ffff_ffff {
            s * 512
        } else {
            0
        },
        None => 0,
    };
    crate::layout::ParticionExistente {
        ruta: texto_de(&h.path),
        inicio_bytes,
        tamano_bytes: match h.size {
            Some(t) => t,
            None => 0,
        },
        sistema_archivos: copia_opcional(&h.fstype),
        etiqueta: copia_opcional(&h.label),
        numero: h.partn,
        tipo_particion: copia_opcional(&h.parttype),
        sistema_operativo: None,
    }
}

fn particiones_en(hijos: &[&NodoLsblk]) -> (r: Vec<crate::layout::ParticionExistente>)
    ensures
        crate::layout::vistas_existentes(r@) == particiones_de(sin_refs(hijos@)),
{
    let ghost vh = sin_refs(hijos@);
    let mut r: Vec<crate::layout::ParticionExistente> = Vec::new();
    let mut i: usize = 0;
    while i < hijos.len()
        invariant
            i <= hijos.len(),
            vh == sin_refs(hijos@),
            crate::layout::vistas_existentes(r@) == particiones_de(vh.take(i as int)),
        decreases hijos.len() - i,
    {
        proof {
            assert(vh.take(i as int + 1).drop_last() =~= vh.take(i as int));
            assert(vh.take(i as int + 1).last() == *hijos@[i as int]);
        }
        let h = hijos[i];
        let es_part = match &h.tipo {
            Some(t) => crate::texto::iguales(t.as_str(), "part"),
            None => false,
        };
        let ghost antes = crate::layout::vistas_existentes(r@);
        if es_part {
            let p = particion_existente(h);
            r.push(p);
            assert(crate::layout::vistas_existentes(r@) =~= antes + seq![particion_de_nodo(*h)]);
        } else {
            assert(particiones_de(vh.take(i as int + 1)) =~= antes);
        }
        i = i + 1;
    }
    assert(vh.take(i as int) =~= vh);
    r
}

fn contiene_texto(t: &str, p: &str) -> (r: bool)
    ensures
        r == contiene(t@, p@),
{
    let ct = caracteres(t);
    let cp = caracteres(p);
    if cp.len() > ct.len() {
        return false;
    }
    let mut i: usize = 0;
    while i <= ct.len() - cp.len()
        invariant
            ct@ == t@,
            cp@ == p@,
            cp.len() <= ct.len(),
            i <= ct.len() - cp.len() + 1,
            forall|k: int| 0 <= k < i ==> #[trigger] t@.subrange(k, k + p@.len()) != p@,
        decreases ct.len() - i,
    {
        let mut j: usize = 0;
        let mut igual = true;
        while j < cp.len()
            invariant
                j <= cp.len(),
                i + cp.len() <= ct.len(),
                ct@ == t@,
                cp@ == p@,
                igual == forall|m: int| 0 <= m < j ==> ct@[i + m] == cp@[m],
            decreases cp.len() - j,
        {
            if ct[i + j] != cp[j] {
                igual = false;
            }
            j = j + 1;
        }
        if igual {
            assert(t@.subrange(i as int, i + p@.len()) =~= p@);
            return true;
        } else {
            proof {
                let m = choose|m: int| 0 <= m < cp.len() && ct@[i + m] != cp@[m];
                assert(t@.subrange(i as int, i + p@.len())[m] != p@[m]);
            }
        }
        i = i + 1;
    }
    false
}

/// Convierte un nodo de tipo disco en un `Disco`, con las particiones y el
/// estado de uso sacados de todos los nodos.
///
/// El disco está en uso si él, o cualquiera de sus particiones, o algo que
/// cuelgue de una partición, está montado: mirar sólo el disco deja pasar el
/// pendrive de la ISO, que nunca está montado él mismo.
pub fn convertir_disco(nodo: &NodoLsblk, todos: &[&NodoLsblk]) -> (r: crate::layout::Disco)
    ensures
        r@ == disco_spec(*nodo, sin_refs(todos@)),
{
    let ruta = texto_de(&nodo.path);
    let nombre = match nodo.nombre() {
        Some(x) => x,
        None => texto_de(&None),
    };
    assert(nombre@ == nombre_o_vacio(*nodo));
    let hs = hijos(todos, nombre.as_str());
    let en_uso = nodo.montado() || alguno_montado_en(hs.as_slice()) || algun_nieto_montado_en(
        todos,
        hs.as_slice(),
    );
    let particiones = particiones_en(hs.as_slice());
    // Algunos firmwares de NVMe no informan el modelo: la ruta como respaldo
    // es fea pero identifica.
    let modelo = match &nodo.model {
        Some(m) => {
            let limpio = cadena_de(recortar(&caracteres(m.as_str())));
            if limpio.as_str().is_empty() {
                cadena(ruta.as_str())
            } else {
                limpio
            }
        },
        None => cadena(ruta.as_str()),
    };
    let nvme = match &nodo.path {
        Some(p) => contiene_texto(p.as_str(), "/nvme"),
        None => false,
    };
    crate::layout::Disco {
        ruta,
        modelo,
        tamano_bytes: match nodo.size {
            Some(t) => t,
            None => 0,
        },
        sector_logico: match nodo.log_sec {
            Some(s) => s,
            None => 512,
        },
        rotacional: match nodo.rota {
            Some(x) => x,
            None => false,
        },
        nvme,
        en_uso,
        particiones,
    }
}

pub open spec fn convertidos(lista: Seq<NodoLsblk>, todos: Seq<NodoLsblk>) -> Seq<crate::layout::VistaDisco>
    decreases lista.len(),
{
    if lista.len() == 0 {
        seq![]
    } else {
        convertidos(lista.drop_last(), todos) + if es_disco_real(lista.last()) {
            seq![disco_spec(lista.last(), todos)]
        } else {
            seq![]
        }
    }
}

/// Los discos que describe la salida de `lsblk`.
pub open spec fn discos_spec(raices: Seq<NodoLsblk>) -> Seq<crate::layout::VistaDisco> {
    convertidos(aplanado(raices), aplanado(raices))
}

fn es_pseudo_exec(ruta: &str) -> (r: bool)
    ensures
        r == es_pseudo(ruta@),
{
    let c = caracteres(ruta);
    let prefijos: [&'static str; 5] = ["/dev/zram", "/dev/loop", "/dev/ram", "/dev/sr", "/dev/fd"];
    assert(crate::archconfig::vistas_fijas(prefijos@) =~= pseudo_discos());
    let mut k: usize = 0;
    while k < 5
        invariant
            k <= 5,
            c@ == ruta@,
            crate::archconfig::vistas_fijas(prefijos@) == pseudo_discos(),
            forall|j: int| 0 <= j < k ==> !empieza(ruta@, #[trigger] pseudo_discos()[j]),
        decreases 5 - k,
    {
        assert(prefijos@[k as int]@ == pseudo_discos()[k as int]);
        if empieza_con(&c, prefijos[k]) {
            return true;
        }
        k = k + 1;
    }
    false
}

/// Los discos del equipo, con sus particiones, a partir de los nodos de
/// `lsblk`.
///
/// Las particiones se asocian por el nombre del padre y no por el
/// anidamiento: sin `--tree`, `lsblk` devuelve las particiones como hermanas
/// de su disco, y confiar en el anidamiento daba todo disco sin particiones —
/// y con eso se caía la comprobación de «está en uso», que es la que impide
/// formatear el medio del que se arrancó.
pub fn discos_de(raices: &[NodoLsblk]) -> (r: Vec<crate::layout::Disco>)
    ensures
        r@.map_values(|d: crate::layout::Disco| d@) == discos_spec(raices@),
{
    let mut planos: Vec<&NodoLsblk> = Vec::new();
    let mut i: usize = 0;
    assert(sin_refs(planos@) =~= aplanado(raices@.take(0)));
    while i < raices.len()
        invariant
            i <= raices.len(),
            sin_refs(planos@) == aplanado(raices@.take(i as int)),
        decreases raices.len() - i,
    {
        proof {
            lemma_aplanado_concat(raices@.take(i as int), seq![raices@[i as int]]);
            assert(raices@.take(i as int) + seq![raices@[i as int]] =~= raices@.take(i as int + 1));
        }
        aplanar(&raices[i], &mut planos);
        i = i + 1;
    }
    assert(raices@.take(i as int) =~= raices@);
    let ghost ps = sin_refs(planos@);
    let mut r: Vec<crate::layout::Disco> = Vec::new();
    let mut k: usize = 0;
    while k < planos.len()
        invariant
            k <= planos.len(),
            ps == sin_refs(planos@),
            ps == aplanado(raices@),
            r@.map_values(|d: crate::layout::Disco| d@) == convertidos(ps.take(k as int), ps),
        decreases planos.len() - k,
    {
        proof {
            assert(ps.take(k as int + 1).drop_last() =~= ps.take(k as int));
            assert(ps.take(k as int + 1).last() == *planos@[k as int]);
        }
        let n = planos[k];
        let es_disco = match &n.tipo {
            Some(t) => crate::texto::iguales(t.as_str(), "disk"),
            None => false,
        };
        let ruta = texto_de(&n.path);
        let ghost antes = r@.map_values(|d: crate::layout::Disco| d@);
        if es_disco && !es_pseudo_exec(ruta.as_str()) {
            let d = convertir_disco(n, planos.as_slice());
            r.push(d);
            assert(r@.map_values(|d: crate::layout::Disco| d@) =~= antes + seq![disco_spec(*n, ps)]);
        } else {
            assert(convertidos(ps.take(k as int + 1), ps) =~= antes);
        }
        k = k + 1;
    }
    assert(ps.take(k as int) =~= ps);
    r
}

/// **Ningún pseudodisco se ofrece como destino, y todo lo que se ofrece es de
/// tipo `disk`.** `zram` es el caso real: `lsblk` lo informa con tipo `disk`,
/// y sin el filtro se ofrecía para instalar.
pub proof fn el_sondeo_no_devuelve_pseudodiscos(raices: Seq<NodoLsblk>)
    ensures
        forall|k: int|
            0 <= k < discos_spec(raices).len() ==> !es_pseudo(#[trigger] discos_spec(raices)[k].ruta),
{
    let ps = aplanado(raices);
    lemma_convertidos_sin_pseudo(ps, ps);
}

proof fn lemma_convertidos_sin_pseudo(lista: Seq<NodoLsblk>, todos: Seq<NodoLsblk>)
    ensures
        forall|k: int|
            0 <= k < convertidos(lista, todos).len() ==> !es_pseudo(
                #[trigger] convertidos(lista, todos)[k].ruta,
            ),
    decreases lista.len(),
{
    if lista.len() > 0 {
        lemma_convertidos_sin_pseudo(lista.drop_last(), todos);
        let antes = convertidos(lista.drop_last(), todos);
        let c = convertidos(lista, todos);
        assert forall|k: int| 0 <= k < c.len() implies !es_pseudo(#[trigger] c[k].ruta) by {
            if k < antes.len() {
                assert(c[k] == antes[k]);
            }
        }
    }
}

// ── Los sistemas operativos que ya están instalados ─────────────────────────

/// Lo que dice una línea de `os-prober`: `ruta:nombre largo:etiqueta:tipo`.
/// Sin `:` no dice nada.
pub open spec fn entrada_os(l: Seq<char>) -> Option<(Seq<char>, Seq<char>)> {
    let ps = partes(l, ':');
    if ps.len() >= 2 {
        Some((ps[0], ps[1]))
    } else {
        None
    }
}

/// El nombre que la última línea sobre esa ruta le da.
pub open spec fn ultima_entrada(ruta: Seq<char>, ls: Seq<Seq<char>>) -> Option<Seq<char>>
    decreases ls.len(),
{
    if ls.len() == 0 {
        None
    } else {
        match entrada_os(ls.last()) {
            Some(e) => if e.0 == ruta {
                Some(e.1)
            } else {
                ultima_entrada(ruta, ls.drop_last())
            },
            None => ultima_entrada(ruta, ls.drop_last()),
        }
    }
}

pub open spec fn anotada(p: crate::layout::VistaParticion, ls: Seq<Seq<char>>) -> crate::layout::VistaParticion {
    match ultima_entrada(p.ruta, ls) {
        Some(n) => crate::layout::VistaParticion { sistema_operativo: Some(n), ..p },
        None => p,
    }
}

pub open spec fn disco_anotado(d: crate::layout::VistaDisco, ls: Seq<Seq<char>>) -> crate::layout::VistaDisco {
    crate::layout::VistaDisco {
        particiones: d.particiones.map_values(|p: crate::layout::VistaParticion| anotada(p, ls)),
        ..d
    }
}

fn entrada_de(l: &Vec<char>) -> (r: Option<(String, String)>)
    ensures
        match r {
            Some(e) => entrada_os(l@) == Some((e.0@, e.1@)),
            None => entrada_os(l@) is None,
        },
{
    let texto = cadena_de(crate::texto::copia(l));
    let ps = dividir(texto.as_str(), ':');
    if ps.len() >= 2 {
        Some((cadena_de(crate::texto::copia(&ps[0])), cadena_de(crate::texto::copia(&ps[1]))))
    } else {
        None
    }
}

fn nombre_para(ruta: &str, entradas: &Vec<Option<(String, String)>>, ls: Ghost<Seq<Seq<char>>>) -> (r:
    Option<String>)
    requires
        entradas.len() == ls@.len(),
        forall|k: int|
            0 <= k < ls@.len() ==> match #[trigger] entradas@[k] {
                Some(e) => entrada_os(ls@[k]) == Some((e.0@, e.1@)),
                None => entrada_os(ls@[k]) is None,
            },
    ensures
        crate::archconfig::vista_texto_opcional(r) == ultima_entrada(ruta@, ls@),
{
    let mut k: usize = entradas.len();
    assert(ls@.take(k as int) =~= ls@);
    while k > 0
        invariant
            k <= entradas.len() == ls@.len(),
            forall|j: int|
                0 <= j < ls@.len() ==> match #[trigger] entradas@[j] {
                    Some(e) => entrada_os(ls@[j]) == Some((e.0@, e.1@)),
                    None => entrada_os(ls@[j]) is None,
                },
            ultima_entrada(ruta@, ls@) == ultima_entrada(ruta@, ls@.take(k as int)),
        decreases k,
    {
        let ghost t = ls@.take(k as int);
        assert(t.drop_last() =~= ls@.take(k as int - 1));
        assert(t.last() == ls@[k as int - 1]);
        match &entradas[k - 1] {
            Some(e) => {
                if crate::texto::iguales(e.0.as_str(), ruta) {
                    return Some(cadena(e.1.as_str()));
                }
            },
            None => {},
        }
        k = k - 1;
    }
    None
}

pub open spec fn con_sistema(p: crate::layout::VistaParticion, so: Option<Seq<char>>) -> crate::layout::VistaParticion {
    crate::layout::VistaParticion { sistema_operativo: so, ..p }
}

fn particion_anotada(p: &crate::layout::ParticionExistente, so: Option<String>) -> (r:
    crate::layout::ParticionExistente)
    ensures
        r@ == con_sistema(p@, crate::protocol::vista_texto(so)),
{
    crate::layout::ParticionExistente {
        ruta: cadena(p.ruta.as_str()),
        inicio_bytes: p.inicio_bytes,
        tamano_bytes: p.tamano_bytes,
        sistema_archivos: copia_opcional(&p.sistema_archivos),
        etiqueta: copia_opcional(&p.etiqueta),
        numero: p.numero,
        tipo_particion: copia_opcional(&p.tipo_particion),
        sistema_operativo: so,
    }
}

/// Anota en las particiones los sistemas operativos que encontró `os-prober`.
///
/// Es lo que permite que el resumen diga «vas a borrar un Windows 11» en vez
/// de «una partición ntfs». Si una ruta aparece en varias líneas, vale la
/// última; las particiones que no aparecen quedan como estaban.
pub fn anotar_sistemas_operativos(discos: &mut Vec<crate::layout::Disco>, salida: &str)
    ensures
        crate::commands::vistas_discos(final(discos)@) == crate::commands::vistas_discos(
            old(discos)@,
        ).map_values(|d: crate::layout::VistaDisco| disco_anotado(d, lineas(salida@))),
{
    let ls = lineas_de(salida);
    let ghost vl = ls@.map_values(|t: Vec<char>| t@);
    let mut entradas: Vec<Option<(String, String)>> = Vec::new();
    let mut i: usize = 0;
    while i < ls.len()
        invariant
            i <= ls.len(),
            vl == ls@.map_values(|t: Vec<char>| t@),
            entradas.len() == i,
            forall|k: int|
                0 <= k < i ==> match #[trigger] entradas@[k] {
                    Some(e) => entrada_os(vl[k]) == Some((e.0@, e.1@)),
                    None => entrada_os(vl[k]) is None,
                },
        decreases ls.len() - i,
    {
        assert(vl[i as int] == ls@[i as int]@);
        let e = entrada_de(&ls[i]);
        entradas.push(e);
        i = i + 1;
    }
    let ghost antes = crate::commands::vistas_discos(discos@);
    let mut d: usize = 0;
    while d < discos.len()
        invariant
            d <= discos.len(),
            antes.len() == discos.len(),
            vl == lineas(salida@),
            entradas.len() == vl.len(),
            forall|k: int|
                0 <= k < vl.len() ==> match #[trigger] entradas@[k] {
                    Some(e) => entrada_os(vl[k]) == Some((e.0@, e.1@)),
                    None => entrada_os(vl[k]) is None,
                },
            forall|j: int|
                0 <= j < discos.len() ==> (#[trigger] discos@[j])@ == if j < d {
                    disco_anotado(antes[j], vl)
                } else {
                    antes[j]
                },
        decreases discos.len() - d,
    {
        let disco = &discos[d];
        let ghost dv = antes[d as int];
        assert(disco@ == dv);
        let mut nuevas: Vec<crate::layout::ParticionExistente> = Vec::new();
        let mut j: usize = 0;
        while j < disco.particiones.len()
            invariant
                j <= disco.particiones.len(),
                disco@ == dv,
                dv.particiones.len() == disco.particiones.len(),
                entradas.len() == vl.len(),
                forall|k: int|
                    0 <= k < vl.len() ==> match #[trigger] entradas@[k] {
                        Some(e) => entrada_os(vl[k]) == Some((e.0@, e.1@)),
                        None => entrada_os(vl[k]) is None,
                    },
                crate::layout::vistas_existentes(nuevas@) == dv.particiones.map_values(
                    |p: crate::layout::VistaParticion| anotada(p, vl),
                ).take(j as int),
            decreases disco.particiones.len() - j,
        {
            let p = &disco.particiones[j];
            assert(p@ == dv.particiones[j as int]);
            let so_previo = copia_opcional(&p.sistema_operativo);
            let so = match nombre_para(p.ruta.as_str(), &entradas, Ghost(vl)) {
                Some(n) => Some(n),
                None => so_previo,
            };
            let q = particion_anotada(p, so);
            assert(q@ == anotada(p@, vl));
            let ghost previas = crate::layout::vistas_existentes(nuevas@);
            nuevas.push(q);
            assert(crate::layout::vistas_existentes(nuevas@) =~= previas.push(q@));
            assert(crate::layout::vistas_existentes(nuevas@) =~= dv.particiones.map_values(
                |p: crate::layout::VistaParticion| anotada(p, vl),
            ).take(j as int + 1));
            j = j + 1;
        }
        assert(dv.particiones.map_values(|p: crate::layout::VistaParticion| anotada(p, vl)).take(
            j as int,
        ) =~= dv.particiones.map_values(|p: crate::layout::VistaParticion| anotada(p, vl)));
        let nuevo = crate::layout::Disco {
            ruta: cadena(disco.ruta.as_str()),
            modelo: cadena(disco.modelo.as_str()),
            tamano_bytes: disco.tamano_bytes,
            sector_logico: disco.sector_logico,
            rotacional: disco.rotacional,
            nvme: disco.nvme,
            en_uso: disco.en_uso,
            particiones: nuevas,
        };
        assert(nuevo@ == disco_anotado(dv, vl));
        discos.set(d, nuevo);
        d = d + 1;
    }
    assert(crate::commands::vistas_discos(discos@) =~= antes.map_values(
        |dd: crate::layout::VistaDisco| disco_anotado(dd, vl),
    ));
}

} // verus!
