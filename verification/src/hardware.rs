//! Qué hay adentro del equipo, para proponer los controladores que le sirven.
//!
//! Dos clases de detección con dos destinos. Lo que se **propone** (el
//! controlador propietario de NVIDIA, el módulo de Broadcom) llega a la
//! interfaz como una casilla: son complementos. Lo que **hace falta** (el
//! firmware del audio de una portátil Intel, `bluez` si hay adaptador) va a la
//! lista de paquetes del sistema, y lo calcula [`paquetes`].
//!
//! La señal de lo segundo es qué encontró el kernel del medio vivo: la ISO trae
//! el firmware de todo, así que lo que anduvo acá es lo que la máquina
//! necesita. Leer `/sys` lo hace quien llama; acá se decide con lo leído.

use vstd::prelude::*;

use crate::conjunto::{con, Conjunto};
use crate::texto::{agregar, cadena, cadena_de, caracteres, recortado, recortar};

verus! {

broadcast use vstd::string::group_string_axioms;

/// Los fabricantes que interesan, por su identificador de PCI.
pub const VENDOR_NVIDIA: u32 = 0x10de;
pub const VENDOR_AMD: u32 = 0x1002;
pub const VENDOR_INTEL: u32 = 0x8086;
pub const VENDOR_BROADCOM: u32 = 0x14e4;

/// La clase de dispositivo: el byte más alto del código de clase.
pub const CLASE_VIDEO: u32 = 0x03;
pub const CLASE_RED: u32 = 0x02;
/// La subclase de red inalámbrica.
pub const SUBCLASE_INALAMBRICA: u32 = 0x80;

/// Lo que se detectó, como identificadores que el catálogo de complementos
/// puede nombrar en su campo `detectar`.
#[derive(Debug)]
pub struct Hardware {
    /// `gpu-nvidia`, `gpu-amd`, `gpu-intel`, `wifi-broadcom`, `bluetooth`,
    /// `wifi`, `audio-sof`.
    pub marcas: Conjunto,
    /// Para mostrar: «NVIDIA (video)». Sin repetidos.
    pub descripciones: Vec<String>,
}

pub open spec fn nombre_de_fabricante_spec(vendor: u32) -> Option<Seq<char>> {
    if vendor == VENDOR_NVIDIA {
        Some("NVIDIA"@)
    } else if vendor == VENDOR_AMD {
        Some("AMD"@)
    } else if vendor == VENDOR_INTEL {
        Some("Intel"@)
    } else if vendor == VENDOR_BROADCOM {
        Some("Broadcom"@)
    } else {
        None
    }
}

pub open spec fn vista_fija(o: Option<&'static str>) -> Option<Seq<char>> {
    match o {
        Some(s) => Some(s@),
        None => None,
    }
}

/// El nombre del fabricante, para la descripción.
pub fn nombre_de_fabricante(vendor: u32) -> (r: Option<&'static str>)
    ensures
        vista_fija(r) == nombre_de_fabricante_spec(vendor),
{
    if vendor == VENDOR_NVIDIA {
        Some("NVIDIA")
    } else if vendor == VENDOR_AMD {
        Some("AMD")
    } else if vendor == VENDOR_INTEL {
        Some("Intel")
    } else if vendor == VENDOR_BROADCOM {
        Some("Broadcom")
    } else {
        None
    }
}

/// La marca de un dispositivo PCI: las placas de video de los tres
/// fabricantes, y sólo las inalámbricas de Broadcom —sus placas por cable
/// andan con el controlador del kernel—.
pub open spec fn marca_spec(vendor: u32, clase_completa: u32) -> Option<Seq<char>> {
    let clase = clase_completa / 0x10000;
    let subclase = (clase_completa / 0x100) % 0x100;
    if clase == CLASE_VIDEO && vendor == VENDOR_NVIDIA {
        Some("gpu-nvidia"@)
    } else if clase == CLASE_VIDEO && vendor == VENDOR_AMD {
        Some("gpu-amd"@)
    } else if clase == CLASE_VIDEO && vendor == VENDOR_INTEL {
        Some("gpu-intel"@)
    } else if clase == CLASE_RED && vendor == VENDOR_BROADCOM && subclase == SUBCLASE_INALAMBRICA {
        Some("wifi-broadcom"@)
    } else {
        None
    }
}

/// La marca de un dispositivo, por su fabricante y su código de clase.
pub fn marca_de(vendor: u32, clase_completa: u32) -> (r: Option<&'static str>)
    ensures
        vista_fija(r) == marca_spec(vendor, clase_completa),
{
    let clase = clase_completa / 0x10000;
    let subclase = (clase_completa / 0x100) % 0x100;
    if clase == CLASE_VIDEO && vendor == VENDOR_NVIDIA {
        Some("gpu-nvidia")
    } else if clase == CLASE_VIDEO && vendor == VENDOR_AMD {
        Some("gpu-amd")
    } else if clase == CLASE_VIDEO && vendor == VENDOR_INTEL {
        Some("gpu-intel")
    } else if clase == CLASE_RED && vendor == VENDOR_BROADCOM && subclase == SUBCLASE_INALAMBRICA {
        Some("wifi-broadcom")
    } else {
        None
    }
}

// ── Leer un número hexadecimal ──────────────────────────────────────────────

/// El valor de una cifra hexadecimal, en mayúscula o minúscula.
pub open spec fn cifra_hex(c: char) -> Option<nat> {
    if '0' <= c && c <= '9' {
        Some((c as u32 - '0' as u32) as nat)
    } else if 'a' <= c && c <= 'f' {
        Some((c as u32 - 'a' as u32 + 10) as nat)
    } else if 'A' <= c && c <= 'F' {
        Some((c as u32 - 'A' as u32 + 10) as nat)
    } else {
        None
    }
}

pub open spec fn todas_hex(s: Seq<char>) -> bool {
    forall|i: int| 0 <= i < s.len() ==> (#[trigger] cifra_hex(s[i])) is Some
}

/// El valor de una sucesión de cifras hexadecimales.
pub open spec fn valor_hex(s: Seq<char>) -> nat
    decreases s.len(),
{
    if s.len() == 0 {
        0
    } else {
        valor_hex(s.drop_last()) * 16 + cifra_hex(s.last())->0
    }
}

/// Lo que devuelve `u32::from_str_radix(s, 16)`: un `+` opcional, al menos
/// una cifra, y que el valor entre en un `u32`.
pub open spec fn hex_u32(s: Seq<char>) -> Option<u32> {
    hex_sin_signo(
        if s.len() > 0 && s[0] == '+' {
            s.drop_first()
        } else {
            s
        },
    )
}

pub open spec fn hex_sin_signo(t: Seq<char>) -> Option<u32> {
    if t.len() > 0 && todas_hex(t) && valor_hex(t) <= u32::MAX {
        Some(valor_hex(t) as u32)
    } else {
        None
    }
}

/// Un número de `/sys` en hexadecimal: se recorta, se saca el `0x` si lo
/// tiene y se lee.
pub open spec fn leer_hex_spec(texto: Seq<char>) -> Option<u32> {
    let l = recortado(texto);
    let sin_prefijo = if l.len() >= 2 && l[0] == '0' && l[1] == 'x' {
        l.skip(2)
    } else {
        l
    };
    hex_u32(sin_prefijo)
}

proof fn lemma_valor_crece(s: Seq<char>, k: int)
    requires
        0 <= k <= s.len(),
    ensures
        valor_hex(s.take(k)) <= valor_hex(s),
    decreases s.len() - k,
{
    if k < s.len() {
        lemma_valor_crece(s, k + 1);
        assert(s.take(k + 1).drop_last() =~= s.take(k));
    } else {
        assert(s.take(k) =~= s);
    }
}

/// Lee un número hexadecimal de un archivo de `/sys` (`0x10de\n`).
///
/// Devuelve `None` ante cualquier problema: un dispositivo que no informa su
/// clase no puede impedir que se miren los demás.
pub fn leer_hex(texto: &str) -> (r: Option<u32>)
    ensures
        r == leer_hex_spec(texto@),
{
    let l = recortar(&caracteres(texto));
    let inicio: usize = if l.len() >= 2 && l[0] == '0' && l[1] == 'x' {
        2
    } else {
        0
    };
    let ghost sp = l@.skip(inicio as int);
    proof {
        assert(l@.skip(0) =~= l@);
        if inicio < l.len() {
            assert(sp[0] == l@[inicio as int]);
        }
        assert(leer_hex_spec(texto@) == hex_u32(sp));
    }
    let con_signo = inicio < l.len() && l[inicio] == '+';
    let desde: usize = if con_signo {
        inicio + 1
    } else {
        inicio
    };
    let ghost t = l@.skip(desde as int);
    proof {
        if con_signo {
            assert(sp.drop_first() =~= t);
        } else {
            assert(sp =~= t);
        }
    }
    if desde >= l.len() {
        assert(t.len() == 0);
        return None;
    }
    assert(leer_hex_spec(texto@) == hex_sin_signo(t));
    let mut acc: u64 = 0;
    let mut i: usize = desde;
    while i < l.len()
        invariant
            desde <= i <= l.len(),
            desde < l.len(),
            t == l@.skip(desde as int),
            leer_hex_spec(texto@) == hex_sin_signo(t),
            todas_hex(t.take(i - desde)),
            acc == valor_hex(t.take(i - desde)),
            acc <= u32::MAX,
        decreases l.len() - i,
    {
        let c = l[i];
        let ghost p = t.take(i - desde + 1);
        assert(p.drop_last() =~= t.take(i - desde));
        assert(p.last() == c);
        let d: u64 = if '0' <= c && c <= '9' {
            (c as u64) - 48
        } else if 'a' <= c && c <= 'f' {
            (c as u64) - 97 + 10
        } else if 'A' <= c && c <= 'F' {
            (c as u64) - 65 + 10
        } else {
            assert(cifra_hex(t[i - desde]) is None);
            return None;
        };
        let nuevo = acc * 16 + d;
        if nuevo > 0xffff_ffff {
            proof {
                lemma_valor_crece(t, i - desde + 1);
            }
            return None;
        }
        acc = nuevo;
        proof {
            assert forall|j: int| 0 <= j < p.len() implies (#[trigger] cifra_hex(p[j])) is Some by {
                if j < p.len() - 1 {
                    assert(p[j] == t.take(i - desde)[j]);
                }
            }
        }
        i = i + 1;
    }
    assert(t.take(i - desde) =~= t);
    Some(acc as u32)
}

// ── La detección ────────────────────────────────────────────────────────────

/// La descripción que se muestra de un dispositivo con marca.
pub open spec fn descripcion_spec(vendor: u32, clase_completa: u32) -> Option<Seq<char>> {
    match nombre_de_fabricante_spec(vendor) {
        None => None,
        Some(f) => Some(
            f + " ("@ + (if clase_completa / 0x10000 == CLASE_VIDEO {
                "video"@
            } else {
                "red inalámbrica"@
            }) + ")"@,
        ),
    }
}

/// Lo que se junta recorriendo los dispositivos en orden: las marcas y las
/// descripciones, sin repetir.
pub open spec fn detectado_hasta(ds: Seq<(Option<u32>, Option<u32>)>) -> (Seq<Seq<char>>, Seq<Seq<char>>)
    decreases ds.len(),
{
    if ds.len() == 0 {
        (seq![], seq![])
    } else {
        let (marcas, descripciones) = detectado_hasta(ds.drop_last());
        let d = ds.last();
        match (d.0, d.1) {
            (Some(vendor), Some(clase)) => match marca_spec(vendor, clase) {
                None => (marcas, descripciones),
                Some(m) => (
                    con(marcas, m),
                    match descripcion_spec(vendor, clase) {
                        Some(texto) => if descripciones.contains(texto) {
                            descripciones
                        } else {
                            descripciones.push(texto)
                        },
                        None => descripciones,
                    },
                ),
            },
            _ => (marcas, descripciones),
        }
    }
}

/// Las marcas que puede haber.
pub open spec fn marcas_conocidas() -> Seq<Seq<char>> {
    seq![
        "gpu-nvidia"@,
        "gpu-amd"@,
        "gpu-intel"@,
        "wifi-broadcom"@,
        "bluetooth"@,
        "wifi"@,
        "audio-sof"@,
    ]
}

fn ya_esta(v: &Vec<String>, s: &str) -> (r: bool)
    ensures
        r == v@.map_values(|x: String| x@).contains(s@),
{
    let ghost w = v@.map_values(|x: String| x@);
    let mut i: usize = 0;
    while i < v.len()
        invariant
            i <= v.len(),
            w == v@.map_values(|x: String| x@),
            forall|j: int| 0 <= j < i ==> w[j] != s@,
        decreases v.len() - i,
    {
        if crate::texto::iguales(v[i].as_str(), s) {
            assert(w[i as int] == s@);
            return true;
        }
        i = i + 1;
    }
    false
}

/// Recorre los dispositivos PCI, cada uno con su fabricante y su código de
/// clase tal como se leyeron (`None` si no se pudo), y saca las marcas.
pub fn detectar_en(dispositivos: &[(Option<u32>, Option<u32>)]) -> (hw: Hardware)
    ensures
        (hw.marcas@, hw.descripciones@.map_values(|x: String| x@)) == detectado_hasta(
            dispositivos@,
        ),
{
    let mut marcas = Conjunto::new();
    let mut descripciones: Vec<String> = Vec::new();
    let mut i: usize = 0;
    proof {
        assert(dispositivos@.take(0) =~= seq![]);
        assert(descripciones@.map_values(|x: String| x@) =~= seq![]);
    }
    while i < dispositivos.len()
        invariant
            i <= dispositivos.len(),
            (marcas@, descripciones@.map_values(|x: String| x@)) == detectado_hasta(
                dispositivos@.take(i as int),
            ),
        decreases dispositivos.len() - i,
    {
        proof {
            assert(dispositivos@.take(i as int + 1).drop_last() =~= dispositivos@.take(i as int));
            assert(dispositivos@.take(i as int + 1).last() == dispositivos@[i as int]);
        }
        let (v, c) = dispositivos[i];
        if let (Some(vendor), Some(clase)) = (v, c) {
            if let Some(marca) = marca_de(vendor, clase) {
                marcas.insert(cadena(marca));
                if let Some(fabricante) = nombre_de_fabricante(vendor) {
                    let mut texto: Vec<char> = Vec::new();
                    agregar(&mut texto, fabricante);
                    agregar(&mut texto, " (");
                    if clase / 0x10000 == CLASE_VIDEO {
                        agregar(&mut texto, "video");
                    } else {
                        agregar(&mut texto, "red inalámbrica");
                    }
                    agregar(&mut texto, ")");
                    let descripcion = cadena_de(texto);
                    if !ya_esta(&descripciones, descripcion.as_str()) {
                        let ghost antes = descripciones@;
                        descripciones.push(descripcion);
                        assert(descripciones@.map_values(|x: String| x@) =~= antes.map_values(
                            |x: String| x@,
                        ).push(descripcion@));
                    }
                }
            }
        }
        i = i + 1;
    }
    assert(dispositivos@.take(i as int) =~= dispositivos@);
    Hardware { marcas, descripciones }
}

/// Las señales de lo que el kernel del medio vivo encontró y ató: un `hciN`
/// en `/sys/class/bluetooth`, una interfaz con `phy80211`, y el módulo
/// `snd_sof` cargado.
pub open spec fn senales_spec(hay_hci: bool, hay_wifi: bool, hay_sof: bool) -> Seq<Seq<char>> {
    let a = if hay_hci {
        con(seq![], "bluetooth"@)
    } else {
        seq![]
    };
    let b = if hay_wifi {
        con(a, "wifi"@)
    } else {
        a
    };
    if hay_sof {
        con(b, "audio-sof"@)
    } else {
        b
    }
}

/// Las marcas que salen de lo que ató el kernel del medio vivo.
pub fn senales_del_medio(hay_hci: bool, hay_wifi: bool, hay_sof: bool) -> (r: Conjunto)
    ensures
        r@ == senales_spec(hay_hci, hay_wifi, hay_sof),
{
    let mut marcas = Conjunto::new();
    if hay_hci {
        marcas.insert(cadena("bluetooth"));
    }
    if hay_wifi {
        marcas.insert(cadena("wifi"));
    }
    if hay_sof {
        marcas.insert(cadena("audio-sof"));
    }
    marcas
}

/// Todo lo detectado: los dispositivos PCI y las señales del medio vivo.
pub fn detectar(
    dispositivos: &[(Option<u32>, Option<u32>)],
    hay_hci: bool,
    hay_wifi: bool,
    hay_sof: bool,
) -> (hw: Hardware)
    ensures
        hw.marcas@ == crate::conjunto::agregados(
            detectado_hasta(dispositivos@).0,
            senales_spec(hay_hci, hay_wifi, hay_sof),
        ),
        hw.descripciones@.map_values(|x: String| x@) == detectado_hasta(dispositivos@).1,
{
    let mut hw = detectar_en(dispositivos);
    let senales = senales_del_medio(hay_hci, hay_wifi, hay_sof);
    let lista = senales.como_lista();
    hw.marcas.extender(&lista);
    hw
}

// ── Lo que hace falta ───────────────────────────────────────────────────────

/// Los paquetes que pide una marca: el controlador de video de Intel, `bluez`
/// con su herramienta, la base de regulaciones inalámbricas y el firmware de
/// SOF. AMD y NVIDIA no piden nada acá.
pub open spec fn paquetes_de_marca(m: Seq<char>) -> Seq<Seq<char>> {
    if m == "gpu-intel"@ {
        seq!["intel-media-driver"@]
    } else if m == "bluetooth"@ {
        seq!["bluez"@, "bluez-utils"@]
    } else if m == "wifi"@ {
        seq!["wireless-regdb"@]
    } else if m == "audio-sof"@ {
        seq!["sof-firmware"@]
    } else {
        seq![]
    }
}

/// Los paquetes de las marcas, recorridas en orden.
pub open spec fn paquetes_hasta(marcas: Seq<Seq<char>>) -> Seq<Seq<char>>
    decreases marcas.len(),
{
    if marcas.len() == 0 {
        seq![]
    } else {
        crate::conjunto::agregados(paquetes_hasta(marcas.drop_last()), paquetes_de_marca(marcas.last()))
    }
}

/// Los paquetes que **esta** máquina necesita y que no van en el
/// metapaquete. El microcódigo, `linux-firmware` y las herramientas del
/// sistema de archivos no están: los agrega archinstall.
pub fn paquetes(hardware: &Hardware) -> (r: Conjunto)
    ensures
        r@ == paquetes_hasta(hardware.marcas@),
{
    let mut salida = Conjunto::new();
    let mut i: usize = 0;
    let n = hardware.marcas.len();
    while i < n
        invariant
            i <= n,
            n == hardware.marcas@.len(),
            salida@ == paquetes_hasta(hardware.marcas@.take(i as int)),
        decreases n - i,
    {
        let marca = hardware.marcas.get(i);
        let ghost antes = salida@;
        proof {
            assert(hardware.marcas@.take(i as int + 1).drop_last() =~= hardware.marcas@.take(
                i as int,
            ));
            assert(hardware.marcas@.take(i as int + 1).last() == marca@);
        }
        let m = marca.as_str();
        if crate::texto::iguales(m, "gpu-intel") {
            salida.insert(cadena("intel-media-driver"));
            proof {
                reveal_with_fuel(crate::conjunto::agregados, 2);
                assert(seq!["intel-media-driver"@].drop_last() =~= Seq::<Seq<char>>::empty());
            }
        } else if crate::texto::iguales(m, "bluetooth") {
            salida.insert(cadena("bluez"));
            salida.insert(cadena("bluez-utils"));
            proof {
                reveal_with_fuel(crate::conjunto::agregados, 3);
                assert(seq!["bluez"@, "bluez-utils"@].drop_last() =~= seq!["bluez"@]);
                assert(seq!["bluez"@].drop_last() =~= Seq::<Seq<char>>::empty());
            }
        } else if crate::texto::iguales(m, "wifi") {
            salida.insert(cadena("wireless-regdb"));
            proof {
                reveal_with_fuel(crate::conjunto::agregados, 2);
                assert(seq!["wireless-regdb"@].drop_last() =~= Seq::<Seq<char>>::empty());
            }
        } else if crate::texto::iguales(m, "audio-sof") {
            salida.insert(cadena("sof-firmware"));
            proof {
                reveal_with_fuel(crate::conjunto::agregados, 2);
                assert(seq!["sof-firmware"@].drop_last() =~= Seq::<Seq<char>>::empty());
            }
        }
        i = i + 1;
    }
    assert(hardware.marcas@.take(i as int) =~= hardware.marcas@);
    salida
}


// ── Lo que vale de la detección ─────────────────────────────────────────────

proof fn lemma_detectado(ds: Seq<(Option<u32>, Option<u32>)>)
    ensures
        crate::conjunto::creciente(detectado_hasta(ds).0),
        forall|m: Seq<char>| #[trigger]
            detectado_hasta(ds).0.contains(m) ==> marcas_conocidas().contains(m),
    decreases ds.len(),
{
    if ds.len() > 0 {
        lemma_detectado(ds.drop_last());
        let (marcas, _) = detectado_hasta(ds.drop_last());
        let d = ds.last();
        if let (Some(vendor), Some(clase)) = (d.0, d.1) {
            if let Some(m) = marca_spec(vendor, clase) {
                crate::conjunto::lemma_con(marcas, m);
                let k = marcas_conocidas();
                assert(k[0] == "gpu-nvidia"@ && k[1] == "gpu-amd"@ && k[2] == "gpu-intel"@ && k[3]
                    == "wifi-broadcom"@);
                assert(k.contains(m));
            }
        }
    }
}

proof fn lemma_senales(hay_hci: bool, hay_wifi: bool, hay_sof: bool)
    ensures
        forall|i: int|
            0 <= i < senales_spec(hay_hci, hay_wifi, hay_sof).len() ==> marcas_conocidas().contains(
                #[trigger] senales_spec(hay_hci, hay_wifi, hay_sof)[i],
            ),
{
    let k = marcas_conocidas();
    assert(k[4] == "bluetooth"@ && k[5] == "wifi"@ && k[6] == "audio-sof"@);
    let e: Seq<Seq<char>> = seq![];
    crate::conjunto::lemma_con(e, "bluetooth"@);
    let a = if hay_hci {
        con(e, "bluetooth"@)
    } else {
        e
    };
    crate::conjunto::lemma_con(a, "wifi"@);
    let b = if hay_wifi {
        con(a, "wifi"@)
    } else {
        a
    };
    crate::conjunto::lemma_con(b, "audio-sof"@);
    let r = senales_spec(hay_hci, hay_wifi, hay_sof);
    assert forall|i: int| 0 <= i < r.len() implies k.contains(#[trigger] r[i]) by {
        assert(r.contains(r[i]));
    }
}

/// **Sólo salen marcas conocidas**: todo lo que detecta la detección es una
/// de las siete marcas que el catálogo de complementos y la lista de paquetes
/// saben nombrar.
pub proof fn solo_salen_marcas_conocidas(
    dispositivos: Seq<(Option<u32>, Option<u32>)>,
    hay_hci: bool,
    hay_wifi: bool,
    hay_sof: bool,
)
    ensures
        forall|m: Seq<char>| #[trigger]
            crate::conjunto::agregados(
                detectado_hasta(dispositivos).0,
                senales_spec(hay_hci, hay_wifi, hay_sof),
            ).contains(m) ==> marcas_conocidas().contains(m),
{
    lemma_detectado(dispositivos);
    lemma_senales(hay_hci, hay_wifi, hay_sof);
    crate::conjunto::lemma_agregados(
        detectado_hasta(dispositivos).0,
        senales_spec(hay_hci, hay_wifi, hay_sof),
    );
    let s = senales_spec(hay_hci, hay_wifi, hay_sof);
    assert forall|m: Seq<char>| #[trigger] s.contains(m) implies marcas_conocidas().contains(m) by {
        let i = choose|i: int| 0 <= i < s.len() && s[i] == m;
    }
}

/// Los únicos paquetes que la detección puede pedir.
pub open spec fn paquetes_posibles() -> Seq<Seq<char>> {
    seq!["intel-media-driver"@, "bluez"@, "bluez-utils"@, "wireless-regdb"@, "sof-firmware"@]
}

proof fn lemma_paquetes_hasta(ms: Seq<Seq<char>>)
    ensures
        crate::conjunto::creciente(paquetes_hasta(ms)),
        forall|p: Seq<char>| #[trigger]
            paquetes_hasta(ms).contains(p) ==> paquetes_posibles().contains(p),
    decreases ms.len(),
{
    if ms.len() > 0 {
        lemma_paquetes_hasta(ms.drop_last());
        let nuevos = paquetes_de_marca(ms.last());
        crate::conjunto::lemma_agregados(paquetes_hasta(ms.drop_last()), nuevos);
        let k = paquetes_posibles();
        assert(k[0] == "intel-media-driver"@ && k[1] == "bluez"@ && k[2] == "bluez-utils"@ && k[3]
            == "wireless-regdb"@ && k[4] == "sof-firmware"@);
        assert forall|p: Seq<char>| #[trigger] nuevos.contains(p) implies k.contains(p) by {
            let i = choose|i: int| 0 <= i < nuevos.len() && nuevos[i] == p;
        }
    }
}

/// **Nunca se nombra lo que archinstall ya pone**: sea cual sea el hardware,
/// los paquetes que pide la máquina son sólo el controlador de video de
/// Intel, `bluez` y su herramienta, la base de regulaciones inalámbricas y el
/// firmware de SOF; ni microcódigo, ni `linux-firmware`, ni nada del sistema
/// base. Y salen en orden, sin repetir.
pub proof fn nunca_se_nombra_lo_que_archinstall_ya_pone(marcas: Seq<Seq<char>>)
    ensures
        crate::conjunto::creciente(paquetes_hasta(marcas)),
        forall|p: Seq<char>| #[trigger]
            paquetes_hasta(marcas).contains(p) ==> paquetes_posibles().contains(p),
{
    lemma_paquetes_hasta(marcas);
}

// ── Las leyes como conjuntos ────────────────────────────────────────────────

/// Algún dispositivo, con fabricante y clase leídos, tiene esa marca.
pub open spec fn marca_en(ds: Seq<(Option<u32>, Option<u32>)>, m: Seq<char>) -> bool {
    exists|i: int|
        0 <= i < ds.len() && (#[trigger] ds[i]).0 is Some && ds[i].1 is Some && marca_spec(
            ds[i].0->0,
            ds[i].1->0,
        ) == Some(m)
}

proof fn lemma_marcas_son_las_de_los_dispositivos(ds: Seq<(Option<u32>, Option<u32>)>)
    ensures
        forall|m: Seq<char>| #[trigger] detectado_hasta(ds).0.contains(m) == marca_en(ds, m),
        detectado_hasta(ds).1.no_duplicates(),
    decreases ds.len(),
{
    if ds.len() > 0 {
        let p = ds.drop_last();
        lemma_marcas_son_las_de_los_dispositivos(p);
        lemma_detectado(p);
        let (marcas, descripciones) = detectado_hasta(p);
        let d = ds.last();
        if let (Some(vendor), Some(clase)) = (d.0, d.1) {
            if let Some(m0) = marca_spec(vendor, clase) {
                crate::conjunto::lemma_con(marcas, m0);
            }
        }
        assert forall|m: Seq<char>| #[trigger] detectado_hasta(ds).0.contains(m) == marca_en(ds, m) by {
            if marca_en(p, m) {
                let i = choose|i: int|
                    0 <= i < p.len() && (#[trigger] p[i]).0 is Some && p[i].1 is Some && marca_spec(
                        p[i].0->0,
                        p[i].1->0,
                    ) == Some(m);
                assert(ds[i] == p[i]);
            }
            if marca_en(ds, m) && !marca_en(p, m) {
                let i = choose|i: int|
                    0 <= i < ds.len() && (#[trigger] ds[i]).0 is Some && ds[i].1 is Some && marca_spec(
                        ds[i].0->0,
                        ds[i].1->0,
                    ) == Some(m);
                if i < p.len() {
                    assert(p[i] == ds[i]);
                }
                assert(i == ds.len() - 1);
            }
            if detectado_hasta(ds).0.contains(m) && !marcas.contains(m) {
                let n = ds.len() - 1;
                assert(ds[n] == d);
            }
        }
    }
}

/// **Las marcas son las de los dispositivos, como conjunto**: una marca está
/// entre las detectadas si y sólo si algún dispositivo con fabricante y clase
/// leídos la tiene según la tabla de clases —video de NVIDIA, AMD o Intel, red
/// inalámbrica de Broadcom—; salen ordenadas y sin repetir, y las
/// descripciones tampoco se repiten.
pub proof fn las_marcas_son_las_de_los_dispositivos(ds: Seq<(Option<u32>, Option<u32>)>)
    ensures
        forall|m: Seq<char>| #[trigger] detectado_hasta(ds).0.contains(m) == marca_en(ds, m),
        crate::conjunto::creciente(detectado_hasta(ds).0),
        detectado_hasta(ds).1.no_duplicates(),
{
    lemma_marcas_son_las_de_los_dispositivos(ds);
    lemma_detectado(ds);
}

/// Alguna de las marcas pide ese paquete.
pub open spec fn pedido_por(marcas: Seq<Seq<char>>, p: Seq<char>) -> bool {
    exists|i: int| 0 <= i < marcas.len() && paquetes_de_marca(#[trigger] marcas[i]).contains(p)
}

proof fn lemma_paquetes_union(ms: Seq<Seq<char>>)
    ensures
        forall|p: Seq<char>| #[trigger] paquetes_hasta(ms).contains(p) == pedido_por(ms, p),
    decreases ms.len(),
{
    if ms.len() > 0 {
        let q = ms.drop_last();
        lemma_paquetes_union(q);
        lemma_paquetes_hasta(q);
        crate::conjunto::lemma_agregados(paquetes_hasta(q), paquetes_de_marca(ms.last()));
        assert forall|p: Seq<char>| #[trigger] paquetes_hasta(ms).contains(p) == pedido_por(ms, p) by {
            if pedido_por(q, p) {
                let i = choose|i: int| 0 <= i < q.len() && paquetes_de_marca(#[trigger] q[i]).contains(p);
                assert(ms[i] == q[i]);
            }
            if pedido_por(ms, p) && !pedido_por(q, p) {
                let i = choose|i: int| 0 <= i < ms.len() && paquetes_de_marca(#[trigger] ms[i]).contains(p);
                if i < q.len() {
                    assert(q[i] == ms[i]);
                }
            }
            if paquetes_de_marca(ms.last()).contains(p) {
                assert(ms[ms.len() - 1] == ms.last());
            }
        }
    }
}

/// **Los paquetes de la máquina son la unión de los de sus marcas**: un
/// paquete está en la lista si y sólo si lo pide alguna de las marcas
/// detectadas —`intel-media-driver` el video de Intel, `bluez` y
/// `bluez-utils` el bluetooth, `wireless-regdb` el wifi y `sof-firmware` el
/// audio SOF; las demás marcas no piden nada—, sin marcas no hay ninguno, y
/// salen ordenados y sin repetir.
pub proof fn los_paquetes_son_la_union_de_las_marcas(marcas: Seq<Seq<char>>)
    ensures
        forall|p: Seq<char>| #[trigger] paquetes_hasta(marcas).contains(p) == pedido_por(marcas, p),
        crate::conjunto::creciente(paquetes_hasta(marcas)),
        marcas.len() == 0 ==> paquetes_hasta(marcas).len() == 0,
{
    lemma_paquetes_union(marcas);
    lemma_paquetes_hasta(marcas);
}

// ── La tabla de clases, con números ─────────────────────────────────────────

/// **La marca sale del byte alto de la clase y del fabricante, nada más.**
/// Para cualquier fabricante y cualquier código de clase de 24 bits:
/// - si el byte alto es `0x03` (video), cualquiera sea la subclase —VGA
///   `0x0300`, 3D `0x0302` como la GPU dedicada de una notebook híbrida,
///   etc.—, NVIDIA (`0x10de`) da `gpu-nvidia`, AMD (`0x1002`) `gpu-amd` e
///   Intel (`0x8086`) `gpu-intel`;
/// - si el byte alto es `0x02` (red) y la subclase `0x80` (inalámbrica),
///   Broadcom (`0x14e4`) da `wifi-broadcom`;
/// - en cualquier otro caso no hay marca: ni el audio de AMD, ni la red por
///   cable de Broadcom, ni un fabricante desconocido.
///
/// Y dos códigos con el mismo byte alto de video dan la misma marca.
pub proof fn la_marca_sale_del_byte_alto_de_la_clase(vendor: u32, clase: u32, otra_clase: u32)
    ensures
        clase / 0x10000 == 0x03 && vendor == 0x10de ==> marca_spec(vendor, clase) == Some("gpu-nvidia"@),
        clase / 0x10000 == 0x03 && vendor == 0x1002 ==> marca_spec(vendor, clase) == Some("gpu-amd"@),
        clase / 0x10000 == 0x03 && vendor == 0x8086 ==> marca_spec(vendor, clase) == Some("gpu-intel"@),
        clase / 0x10000 == 0x02 && (clase / 0x100) % 0x100 == 0x80 && vendor == 0x14e4 ==> marca_spec(
            vendor,
            clase,
        ) == Some("wifi-broadcom"@),
        !((clase / 0x10000 == 0x03 && (vendor == 0x10de || vendor == 0x1002 || vendor == 0x8086)) || (
        clase / 0x10000 == 0x02 && (clase / 0x100) % 0x100 == 0x80 && vendor == 0x14e4)) ==> marca_spec(
            vendor,
            clase,
        ) is None,
        clase / 0x10000 == 0x03 && otra_clase / 0x10000 == 0x03 ==> marca_spec(vendor, clase)
            == marca_spec(vendor, otra_clase),
{
}

/// **Un dispositivo de video de un fabricante conocido siempre se detecta**:
/// si entre los dispositivos leídos hay uno de NVIDIA cuyo byte alto de clase
/// es `0x03`, cualquiera sea su subclase, `gpu-nvidia` está entre las marcas;
/// lo mismo AMD con `gpu-amd` e Intel con `gpu-intel`.
pub proof fn una_placa_de_video_conocida_siempre_se_detecta(
    ds: Seq<(Option<u32>, Option<u32>)>,
    i: int,
)
    requires
        0 <= i < ds.len(),
        ds[i].0 is Some,
        ds[i].1 is Some,
        ds[i].1->0 / 0x10000 == 0x03,
    ensures
        ds[i].0->0 == 0x10de ==> detectado_hasta(ds).0.contains("gpu-nvidia"@),
        ds[i].0->0 == 0x1002 ==> detectado_hasta(ds).0.contains("gpu-amd"@),
        ds[i].0->0 == 0x8086 ==> detectado_hasta(ds).0.contains("gpu-intel"@),
{
    lemma_marcas_son_las_de_los_dispositivos(ds);
    la_marca_sale_del_byte_alto_de_la_clase(ds[i].0->0, ds[i].1->0, ds[i].1->0);
    let m = marca_spec(ds[i].0->0, ds[i].1->0);
    if m is Some {
        assert(marca_en(ds, m->0));
    }
}

} // verus!
