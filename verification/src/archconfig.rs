//! Lo que se le entrega a archinstall.
//!
//! archinstall se maneja con dos archivos: la configuración, con todo lo que
//! no es secreto, y las credenciales, con las contraseñas. La primera se puede
//! dejar en el sistema instalado como constancia de cómo se instaló; la segunda
//! se borra.
//!
//! Acá se decide qué va en cada uno: qué paquetes y servicios, qué particiones
//! con qué estado, qué se cifra, qué grupos lleva el usuario. La forma en JSON
//! la pone la aplicación a partir de estos valores, sin decidir nada.

use vstd::prelude::*;

use crate::complementos::{vistas_textos, Aporte};
use crate::conjunto::{agregados, creciente, lemma_agregados, Conjunto};
use crate::entorno::es_archivo;
use crate::layout::{vista_fija, vistas_planeadas, Accion, Firmware, ParticionPlaneada, Plan, VistaPlaneada};
use crate::orden::{lemma_primera, lemma_primera_encontro, primera};
use crate::protocol::{nombre_archinstall, PlanInstalacion};
use crate::texto::{
    agregar, cadena, cadena_de, decimal, escribir_decimal, es_blanco, lemma_recortado_es_tramo,
    lineas, lineas_de, recortado, recortar,
};

verus! {

broadcast use vstd::string::group_string_axioms;

/// Nombre del repositorio propio en el `pacman.conf` del sistema instalado.
pub const REPO_NOMBRE: &'static str = "vasakos";

/// El espejo del repositorio.
///
/// El orden de los componentes no es el de Arch: Arch usa `$repo/os/$arch`, y
/// el repositorio de VasakOS sirve `repo/$arch/$repo`. Con el orden de Arch,
/// `pacstrap` recibe un 404 en cada paquete `vasak-*` después de haber
/// formateado el disco.
pub const REPO_URL: &'static str = "https://repo.vasak.net.ar/repo/$arch/$repo";

/// El nombre de archivo del plugin, dentro del directorio de datos.
pub const PLUGIN: &'static str = "vasakos.py";

// ── La lista de paquetes ────────────────────────────────────────────────────

pub open spec fn es_numeral() -> spec_fn(char) -> bool {
    |c: char| c == '#'
}

/// La línea hasta el primer `#`, que comenta el resto.
pub open spec fn sin_comentario(l: Seq<char>) -> Seq<char> {
    let k = primera(l, es_numeral());
    if k >= 0 {
        l.take(k)
    } else {
        l
    }
}

/// El paquete que nombra una línea: sin comentario y sin blancos en los bordes.
pub open spec fn paquete_de_linea(l: Seq<char>) -> Seq<char> {
    recortado(sin_comentario(l))
}

pub open spec fn paquetes_de_lineas(ls: Seq<Seq<char>>) -> Seq<Seq<char>>
    decreases ls.len(),
{
    if ls.len() == 0 {
        seq![]
    } else {
        let antes = paquetes_de_lineas(ls.drop_last());
        let p = paquete_de_linea(ls.last());
        if p.len() == 0 {
            antes
        } else {
            antes.push(p)
        }
    }
}

/// Los paquetes de un archivo de datos: uno por línea, `#` comenta, las
/// vacías no cuentan.
pub open spec fn paquetes_spec(contenido: Seq<char>) -> Seq<Seq<char>> {
    paquetes_de_lineas(lineas(contenido))
}

fn primer_numeral(c: &Vec<char>) -> (r: usize)
    ensures
        r <= c.len(),
        r == c.len() ==> primera(c@, es_numeral()) == -1,
        r < c.len() ==> r == primera(c@, es_numeral()),
{
    let mut i: usize = 0;
    while i < c.len()
        invariant
            i <= c.len(),
            forall|j: int| 0 <= j < i ==> !es_numeral()(#[trigger] c@[j]),
        decreases c.len() - i,
    {
        if c[i] == '#' {
            proof {
                lemma_primera(c@, es_numeral(), i as int);
            }
            return i;
        }
        i = i + 1;
    }
    proof {
        lemma_primera(c@, es_numeral(), i as int);
    }
    i
}

/// Lee la lista de paquetes del archivo de datos.
///
/// El formato es deliberadamente tonto —un paquete por línea, `#` comenta—
/// para que el archivo se pueda leer y comparar con herramientas de texto
/// contra la lista de la ISO, que tiene la misma forma.
pub fn leer_paquetes(contenido: &str) -> (r: Vec<String>)
    ensures
        vistas_textos(r@) == paquetes_spec(contenido@),
{
    let ls = lineas_de(contenido);
    let ghost vl = ls@.map_values(|t: Vec<char>| t@);
    let mut r: Vec<String> = Vec::new();
    let mut i: usize = 0;
    proof {
        assert(vistas_textos(r@) =~= paquetes_de_lineas(vl.take(0)));
    }
    while i < ls.len()
        invariant
            i <= ls.len(),
            vl == ls@.map_values(|t: Vec<char>| t@),
            vl == lineas(contenido@),
            vistas_textos(r@) == paquetes_de_lineas(vl.take(i as int)),
        decreases ls.len() - i,
    {
        proof {
            assert(vl.take(i as int + 1).drop_last() =~= vl.take(i as int));
            assert(vl.take(i as int + 1).last() == ls@[i as int]@);
        }
        let linea = &ls[i];
        let k = primer_numeral(linea);
        let mut hasta: Vec<char> = Vec::new();
        let mut j: usize = 0;
        while j < k
            invariant
                j <= k <= linea.len(),
                hasta@ == linea@.take(j as int),
            decreases k - j,
        {
            hasta.push(linea[j]);
            assert(hasta@ =~= linea@.take(j as int + 1));
            j = j + 1;
        }
        assert(hasta@ == sin_comentario(linea@)) by {
            if k == linea.len() {
                assert(linea@.take(k as int) =~= linea@);
            }
        }
        let limpio = recortar(&hasta);
        if limpio.len() > 0 {
            let ghost antes = r@;
            r.push(cadena_de(limpio));
            assert(vistas_textos(r@) =~= vistas_textos(antes).push(paquete_de_linea(ls@[i as int]@)));
        }
        i = i + 1;
    }
    assert(vl.take(i as int) =~= vl);
    r
}

/// **Ningún paquete leído trae un comentario, ni blancos en los bordes, ni
/// es vacío.** Un `#` a mitad de línea comenta el resto: si no se cortara ahí,
/// `pacstrap` fallaría con «target not found» nombrando la línea entera.
pub proof fn ningun_paquete_trae_comentario_ni_blancos(contenido: Seq<char>)
    ensures
        forall|k: int|
            0 <= k < paquetes_spec(contenido).len() ==> {
                let p = #[trigger] paquetes_spec(contenido)[k];
                &&& p.len() > 0
                &&& !p.contains('#')
                &&& !es_blanco(p[0])
                &&& !es_blanco(p.last())
            },
{
    lemma_paquetes_limpios(lineas(contenido));
}

proof fn lemma_paquetes_limpios(ls: Seq<Seq<char>>)
    ensures
        forall|k: int|
            0 <= k < paquetes_de_lineas(ls).len() ==> {
                let p = #[trigger] paquetes_de_lineas(ls)[k];
                &&& p.len() > 0
                &&& !p.contains('#')
                &&& !es_blanco(p[0])
                &&& !es_blanco(p.last())
            },
    decreases ls.len(),
{
    if ls.len() > 0 {
        lemma_paquetes_limpios(ls.drop_last());
        let l = ls.last();
        let s = sin_comentario(l);
        lemma_primera_encontro(l, es_numeral());
        assert(!s.contains('#')) by {
            if s.contains('#') {
                let j = choose|j: int| 0 <= j < s.len() && s[j] == '#';
                assert(s[j] == l[j]);
                assert(es_numeral()(l[j]));
            }
        }
        lemma_recortado_es_tramo(s);
        let p = recortado(s);
        let (a, b) = choose|i: int, j: int| 0 <= i <= j <= s.len() && recortado(s) == s.subrange(i, j);
        assert(!p.contains('#')) by {
            if p.contains('#') {
                let j = choose|j: int| 0 <= j < p.len() && p[j] == '#';
                assert(p[j] == s[a + j]);
            }
        }
        let antes = paquetes_de_lineas(ls.drop_last());
        let r = paquetes_de_lineas(ls);
        assert forall|k: int| 0 <= k < r.len() implies {
            let q = #[trigger] r[k];
            &&& q.len() > 0
            &&& !q.contains('#')
            &&& !es_blanco(q[0])
            &&& !es_blanco(q.last())
        } by {
            if k < antes.len() {
                assert(r[k] == antes[k]);
            } else {
                assert(r[k] == p);
            }
        }
    }
}

// ── Dónde están los datos ───────────────────────────────────────────────────

pub open spec fn vistas_fijas(s: Seq<&'static str>) -> Seq<Seq<char>> {
    s.map_values(|x: &'static str| x@)
}

/// La primera candidata que existe, en orden.
pub open spec fn primera_que_existe(candidatas: Seq<Seq<char>>, existe: Seq<bool>) -> Option<Seq<char>>
    decreases candidatas.len(),
{
    if candidatas.len() == 0 || existe.len() == 0 {
        None
    } else if existe[0] {
        Some(candidatas[0])
    } else {
        primera_que_existe(candidatas.drop_first(), existe.drop_first())
    }
}

/// Elige la primera candidata de la que se supo que existe.
pub fn elegir_ruta(candidatas: &[&'static str], existe: &[bool]) -> (r: Option<String>)
    ensures
        vista_texto_opcional(r) == primera_que_existe(vistas_fijas(candidatas@), existe@),
{
    let ghost c = vistas_fijas(candidatas@);
    let mut i: usize = 0;
    proof {
        assert(c.skip(0) =~= c);
        assert(existe@.skip(0) =~= existe@);
    }
    while i < candidatas.len() && i < existe.len()
        invariant
            i <= candidatas.len(),
            i <= existe.len(),
            c == vistas_fijas(candidatas@),
            c.len() == candidatas.len(),
            primera_que_existe(c, existe@) == primera_que_existe(c.skip(i as int), existe@.skip(i as int)),
            forall|j: int| 0 <= j < i ==> j < existe.len() && !existe@[j],
        decreases candidatas.len() - i,
    {
        if existe[i] {
            return Some(cadena(candidatas[i]));
        }
        proof {
            assert(c.skip(i as int).drop_first() =~= c.skip(i as int + 1));
            assert(existe@.skip(i as int).drop_first() =~= existe@.skip(i as int + 1));
        }
        i = i + 1;
    }
    proof {
        assert(c.skip(i as int).len() == 0 || existe@.skip(i as int).len() == 0);
    }
    None
}

pub open spec fn vista_texto_opcional(o: Option<String>) -> Option<Seq<char>> {
    match o {
        Some(s) => Some(s@),
        None => None,
    }
}

pub open spec fn candidatas_paquetes() -> Seq<Seq<char>> {
    seq![
        "src-tauri/paquetes.txt"@,
        "paquetes.txt"@,
        "/usr/share/vasak-installer/paquetes.txt"@,
    ]
}

pub open spec fn candidatas_plugin() -> Seq<Seq<char>> {
    seq![
        "src-tauri/plugin/vasakos.py"@,
        "plugin/vasakos.py"@,
        "/usr/share/vasak-installer/plugin/vasakos.py"@,
    ]
}

/// Las rutas donde se busca el archivo de paquetes, en el orden en que se prueban.
pub fn candidatas_de_paquetes() -> (r: [&'static str; 3])
    ensures
        vistas_fijas(r@) == candidatas_paquetes(),
{
    let r: [&'static str; 3] = [
        "src-tauri/paquetes.txt",
        "paquetes.txt",
        "/usr/share/vasak-installer/paquetes.txt",
    ];
    proof {
        assert(vistas_fijas(r@) =~= candidatas_paquetes());
    }
    r
}

/// Dónde está el archivo de paquetes: el árbol de desarrollo primero, para
/// poder probar sin instalar nada, y la ruta del paquete después.
///
/// A `es_archivo` se le pregunta por cada una de las candidatas fijas, en su
/// orden y ninguna otra ruta. Si cada archivo existe lo dice el disco; lo que
/// vuelve es la primera candidata que existía, y por eso una de ellas.
pub fn ruta_paquetes() -> (r: Option<String>)
    ensures
        exists|existe: Seq<bool>|
            existe.len() == 3 && vista_texto_opcional(r) == #[trigger] primera_que_existe(
                candidatas_paquetes(),
                existe,
            ),
        match vista_texto_opcional(r) {
            Some(ruta) => candidatas_paquetes().contains(ruta),
            None => true,
        },
{
    let candidatas = candidatas_de_paquetes();
    let existe: [bool; 3] = [
        es_archivo(candidatas[0]),
        es_archivo(candidatas[1]),
        es_archivo(candidatas[2]),
    ];
    let r = elegir_ruta(&candidatas, &existe);
    proof {
        lemma_primera_que_existe_es_candidata(vistas_fijas(candidatas@), existe@);
        assert(vistas_fijas(candidatas@) =~= candidatas_paquetes());
        assert(existe@.len() == 3 && vista_texto_opcional(r) == primera_que_existe(candidatas_paquetes(), existe@));
    }
    r
}

/// Las rutas donde se busca el plugin de archinstall, en el orden en que se prueban.
pub fn candidatas_de_plugin() -> (r: [&'static str; 3])
    ensures
        vistas_fijas(r@) == candidatas_plugin(),
{
    let r: [&'static str; 3] = [
        "src-tauri/plugin/vasakos.py",
        "plugin/vasakos.py",
        "/usr/share/vasak-installer/plugin/vasakos.py",
    ];
    proof {
        assert(vistas_fijas(r@) =~= candidatas_plugin());
    }
    r
}

/// Dónde está el plugin de archinstall, con el mismo orden de búsqueda que
/// los paquetes.
pub fn ruta_plugin() -> (r: Option<String>)
    ensures
        exists|existe: Seq<bool>|
            existe.len() == 3 && vista_texto_opcional(r) == #[trigger] primera_que_existe(
                candidatas_plugin(),
                existe,
            ),
        match vista_texto_opcional(r) {
            Some(ruta) => candidatas_plugin().contains(ruta),
            None => true,
        },
{
    let candidatas = candidatas_de_plugin();
    let existe: [bool; 3] = [
        es_archivo(candidatas[0]),
        es_archivo(candidatas[1]),
        es_archivo(candidatas[2]),
    ];
    let r = elegir_ruta(&candidatas, &existe);
    proof {
        lemma_primera_que_existe_es_candidata(vistas_fijas(candidatas@), existe@);
        assert(vistas_fijas(candidatas@) =~= candidatas_plugin());
        assert(existe@.len() == 3 && vista_texto_opcional(r) == primera_que_existe(candidatas_plugin(), existe@));
    }
    r
}

pub proof fn lemma_primera_que_existe_es_candidata(c: Seq<Seq<char>>, e: Seq<bool>)
    ensures
        match primera_que_existe(c, e) {
            Some(x) => c.contains(x),
            None => true,
        },
    decreases c.len(),
{
    if c.len() > 0 && e.len() > 0 {
        if e[0] {
            assert(c[0] == c[0]);
        } else {
            lemma_primera_que_existe_es_candidata(c.drop_first(), e.drop_first());
            if let Some(x) = primera_que_existe(c.drop_first(), e.drop_first()) {
                let j = choose|j: int| 0 <= j < c.drop_first().len() && c.drop_first()[j] == x;
                assert(c[j + 1] == x);
            }
        }
    }
}

// ── Listas fijas ────────────────────────────────────────────────────────────

/// Los servicios de sistema que se habilitan siempre.
///
/// `greetd` es el display manager: sin él el sistema arranca a una consola de
/// texto. Los servicios de usuario los habilitan sus propios paquetes.
pub open spec fn servicios_fijos() -> Seq<Seq<char>> {
    seq!["greetd"@, "NetworkManager"@, "bluetooth"@, "systemd-timesyncd"@, "avahi-daemon"@]
}

/// El kernel: uno solo, el mismo que trae la ISO.
pub open spec fn kernels() -> Seq<Seq<char>> {
    seq!["linux"@]
}

/// Los grupos del usuario administrador. Cada uno da acceso a una clase de
/// dispositivo: sin `video` el brillo no se cambia, sin `storage` no se montan
/// discos externos.
pub open spec fn grupos_admin() -> Seq<Seq<char>> {
    seq![
        "wheel"@, "adm"@, "audio"@, "video"@, "network"@, "storage"@, "power"@, "lp"@,
        "optical"@, "scanner"@, "rfkill"@, "uucp"@, "sys"@, "users"@,
    ]
}

/// Los mismos menos `wheel`, que es lo que da sudo.
pub open spec fn grupos_usuario() -> Seq<Seq<char>> {
    seq![
        "adm"@, "audio"@, "video"@, "network"@, "storage"@, "power"@, "lp"@, "optical"@,
        "scanner"@, "rfkill"@, "uucp"@, "sys"@, "users"@,
    ]
}

fn lista(de: &[&'static str]) -> (r: Vec<String>)
    ensures
        vistas_textos(r@) == vistas_fijas(de@),
{
    let mut r: Vec<String> = Vec::new();
    let mut i: usize = 0;
    while i < de.len()
        invariant
            i <= de.len(),
            vistas_textos(r@) == vistas_fijas(de@).take(i as int),
        decreases de.len() - i,
    {
        let ghost antes = r@;
        let x = cadena(de[i]);
        r.push(x);
        assert(vistas_textos(r@) =~= vistas_textos(antes).push(x@));
        assert(vistas_textos(r@) =~= vistas_fijas(de@).take(i as int + 1));
        i = i + 1;
    }
    assert(vistas_fijas(de@).take(i as int) =~= vistas_fijas(de@));
    r
}

/// Los servicios de sistema que se habilitan siempre.
pub fn servicios_de_sistema() -> (r: Vec<String>)
    ensures
        vistas_textos(r@) == servicios_fijos(),
{
    let de: [&'static str; 5] = [
        "greetd",
        "NetworkManager",
        "bluetooth",
        "systemd-timesyncd",
        "avahi-daemon",
    ];
    let r = lista(&de);
    assert(vistas_fijas(de@) =~= servicios_fijos());
    r
}

fn lista_de_kernels() -> (r: Vec<String>)
    ensures
        vistas_textos(r@) == kernels(),
{
    let de: [&'static str; 1] = ["linux"];
    let r = lista(&de);
    assert(vistas_fijas(de@) =~= kernels());
    r
}

fn grupos(administrador: bool) -> (r: Vec<String>)
    ensures
        vistas_textos(r@) == if administrador {
            grupos_admin()
        } else {
            grupos_usuario()
        },
{
    if administrador {
        let de: [&'static str; 14] = [
            "wheel", "adm", "audio", "video", "network", "storage", "power", "lp", "optical",
            "scanner", "rfkill", "uucp", "sys", "users",
        ];
        let r = lista(&de);
        assert(vistas_fijas(de@) =~= grupos_admin());
        r
    } else {
        let de: [&'static str; 13] = [
            "adm", "audio", "video", "network", "storage", "power", "lp", "optical", "scanner",
            "rfkill", "uucp", "sys", "users",
        ];
        let r = lista(&de);
        assert(vistas_fijas(de@) =~= grupos_usuario());
        r
    }
}

fn copia_de_textos(v: &[String]) -> (r: Vec<String>)
    ensures
        vistas_textos(r@) == vistas_textos(v@),
{
    let mut r: Vec<String> = Vec::new();
    let mut i: usize = 0;
    while i < v.len()
        invariant
            i <= v.len(),
            vistas_textos(r@) == vistas_textos(v@).take(i as int),
        decreases v.len() - i,
    {
        let ghost antes = r@;
        let x = cadena(v[i].as_str());
        r.push(x);
        assert(vistas_textos(r@) =~= vistas_textos(antes).push(x@));
        assert(vistas_textos(r@) =~= vistas_textos(v@).take(i as int + 1));
        i = i + 1;
    }
    assert(vistas_textos(v@).take(i as int) =~= vistas_textos(v@));
    r
}

// ── Paquetes y servicios ────────────────────────────────────────────────────

/// De dónde salen los paquetes: el escritorio, que es siempre el mismo; lo
/// que eligió esta persona; y lo que necesita esta máquina.
pub struct FuentesDePaquetes<'a> {
    pub escritorio: &'a [String],
    pub aporte: &'a Aporte,
    pub necesarios: &'a Conjunto,
}

/// Todos los paquetes, sin repetidos y en orden.
pub open spec fn paquetes_finales_spec(
    escritorio: Seq<Seq<char>>,
    aporte: Seq<Seq<char>>,
    necesarios: Seq<Seq<char>>,
) -> Seq<Seq<char>> {
    agregados(agregados(agregados(seq![], escritorio), aporte), necesarios)
}

/// Los servicios fijos más los de los complementos, sin repetidos y en orden.
pub open spec fn servicios_finales_spec(aporte: Seq<Seq<char>>) -> Seq<Seq<char>> {
    agregados(agregados(seq![], servicios_fijos()), aporte)
}

/// Los paquetes que se instalan, sin repetidos y en orden estable: dos
/// instalaciones con la misma elección producen el mismo archivo.
pub fn paquetes_finales(fuentes: &FuentesDePaquetes) -> (r: Vec<String>)
    ensures
        vistas_textos(r@) == paquetes_finales_spec(
            vistas_textos(fuentes.escritorio@),
            vistas_textos(fuentes.aporte.paquetes@),
            fuentes.necesarios@,
        ),
{
    let mut todos = Conjunto::new();
    todos.extender(fuentes.escritorio);
    todos.extender(fuentes.aporte.paquetes.as_slice());
    let necesarios = fuentes.necesarios.como_lista();
    todos.extender(necesarios.as_slice());
    todos.como_lista()
}

/// Los servicios que se habilitan.
pub fn servicios_finales(aporte: &Aporte) -> (r: Vec<String>)
    ensures
        vistas_textos(r@) == servicios_finales_spec(vistas_textos(aporte.servicios@)),
{
    let mut todos = Conjunto::new();
    let fijos = servicios_de_sistema();
    todos.extender(fijos.as_slice());
    todos.extender(aporte.servicios.as_slice());
    todos.como_lista()
}

/// **Los paquetes salen ordenados y sin repetidos, y son exactamente los del
/// escritorio, los de los complementos y los de la máquina.**
pub proof fn los_paquetes_se_funden_sin_repetir(
    escritorio: Seq<Seq<char>>,
    aporte: Seq<Seq<char>>,
    necesarios: Seq<Seq<char>>,
)
    ensures
        creciente(paquetes_finales_spec(escritorio, aporte, necesarios)),
        forall|p: Seq<char>|
            #[trigger] paquetes_finales_spec(escritorio, aporte, necesarios).contains(p) <==> (
            escritorio.contains(p) || aporte.contains(p) || necesarios.contains(p)),
        necesarios.len() == 0 ==> paquetes_finales_spec(escritorio, aporte, necesarios) == agregados(
            agregados(seq![], escritorio),
            aporte,
        ),
{
    let vacio: Seq<Seq<char>> = seq![];
    assert(creciente(vacio));
    lemma_agregados(vacio, escritorio);
    let a = agregados(vacio, escritorio);
    lemma_agregados(a, aporte);
    let b = agregados(a, aporte);
    lemma_agregados(b, necesarios);
}

/// **Los servicios de un complemento se suman a los del sistema, sin
/// pisarlos.** Si la fusión reemplazara a `greetd`, el equipo arrancaría a
/// una consola de texto.
pub proof fn los_servicios_del_sistema_siempre_estan(aporte: Seq<Seq<char>>)
    ensures
        creciente(servicios_finales_spec(aporte)),
        forall|s: Seq<char>|
            #[trigger] servicios_finales_spec(aporte).contains(s) <==> (servicios_fijos().contains(s)
                || aporte.contains(s)),
{
    let vacio: Seq<Seq<char>> = seq![];
    assert(creciente(vacio));
    lemma_agregados(vacio, servicios_fijos());
    let a = agregados(vacio, servicios_fijos());
    lemma_agregados(a, aporte);
}

// ── Las particiones ─────────────────────────────────────────────────────────

/// El estado que archinstall le da a lo que se hace con cada partición.
pub open spec fn estado_spec(a: Accion) -> Seq<char> {
    match a {
        Accion::Crear => "create"@,
        Accion::Formatear => "modify"@,
        Accion::Conservar => "existing"@,
    }
}

fn estado(a: Accion) -> (r: &'static str)
    ensures
        r@ == estado_spec(a),
{
    match a {
        Accion::Crear => "create",
        Accion::Formatear => "modify",
        Accion::Conservar => "existing",
    }
}

/// El identificador de la partición `i` dentro del archivo.
///
/// Sólo tiene que ser único dentro del archivo: archinstall lo usa para
/// referenciar particiones entre secciones. Un contador estable hace que dos
/// ejecuciones con el mismo plan produzcan el mismo archivo.
pub open spec fn id_de_particion(i: nat) -> Seq<char> {
    "vsk-part-"@ + decimal(i)
}

fn id_de(i: usize) -> (r: String)
    ensures
        r@ == id_de_particion(i as nat),
{
    let mut v: Vec<char> = Vec::new();
    agregar(&mut v, "vsk-part-");
    escribir_decimal(&mut v, i as u64);
    cadena_de(v)
}

/// Una partición como la lee archinstall.
#[derive(Debug)]
pub struct ParticionArchinstall {
    pub obj_id: String,
    /// `create`, `modify` o `existing`.
    pub estado: &'static str,
    /// Los tamaños van en MiB con el sector del disco adentro: en un disco
    /// 4Kn son 4096 y no 512, y pasarle 512 le hace calcular ocho veces menos
    /// espacio del que hay.
    pub sector_logico: u64,
    pub inicio_mib: u64,
    pub tamano_mib: u64,
    pub sistema_archivos: Option<&'static str>,
    pub punto_montaje: Option<&'static str>,
    pub opciones_montaje: Vec<String>,
    pub banderas: Vec<&'static str>,
    pub subvolumenes: Vec<(&'static str, &'static str)>,
    /// La ruta en `/dev`: nula en las que se crean, porque todavía no existen,
    /// y obligatoria en las que ya están.
    pub ruta: Option<String>,
}

pub struct VistaArchinstall {
    pub obj_id: Seq<char>,
    pub estado: Seq<char>,
    pub sector_logico: u64,
    pub inicio_mib: u64,
    pub tamano_mib: u64,
    pub sistema_archivos: Option<Seq<char>>,
    pub punto_montaje: Option<Seq<char>>,
    pub opciones_montaje: Seq<Seq<char>>,
    pub banderas: Seq<Seq<char>>,
    pub subvolumenes: Seq<(Seq<char>, Seq<char>)>,
    pub ruta: Option<Seq<char>>,
}

impl View for ParticionArchinstall {
    type V = VistaArchinstall;

    open spec fn view(&self) -> VistaArchinstall {
        VistaArchinstall {
            obj_id: self.obj_id@,
            estado: self.estado@,
            sector_logico: self.sector_logico,
            inicio_mib: self.inicio_mib,
            tamano_mib: self.tamano_mib,
            sistema_archivos: vista_fija(self.sistema_archivos),
            punto_montaje: vista_fija(self.punto_montaje),
            opciones_montaje: vistas_textos(self.opciones_montaje@),
            banderas: vistas_fijas(self.banderas@),
            subvolumenes: vistas_pares(self.subvolumenes@),
            ruta: vista_texto_opcional(self.ruta),
        }
    }
}

pub open spec fn vistas_pares(s: Seq<(&'static str, &'static str)>) -> Seq<(Seq<char>, Seq<char>)> {
    s.map_values(|p: (&'static str, &'static str)| (p.0@, p.1@))
}

pub open spec fn vistas_archinstall(s: Seq<ParticionArchinstall>) -> Seq<VistaArchinstall> {
    s.map_values(|p: ParticionArchinstall| p@)
}

/// La partición `i` del plan, como la lee archinstall.
pub open spec fn particion_spec(p: VistaPlaneada, i: nat, sector: u64) -> VistaArchinstall {
    VistaArchinstall {
        obj_id: id_de_particion(i),
        estado: estado_spec(p.accion),
        sector_logico: sector,
        inicio_mib: p.inicio_mib,
        tamano_mib: p.tamano_mib,
        sistema_archivos: p.sistema_archivos,
        punto_montaje: p.punto_montaje,
        opciones_montaje: p.opciones_montaje,
        banderas: p.banderas,
        subvolumenes: p.subvolumenes,
        ruta: p.ruta,
    }
}

pub open spec fn particiones_spec(ps: Seq<VistaPlaneada>, sector: u64) -> Seq<VistaArchinstall> {
    Seq::new(ps.len(), |i: int| particion_spec(ps[i], i as nat, sector))
}

/// Los identificadores de las particiones que van cifradas, en orden.
pub open spec fn ids_cifradas_hasta(ps: Seq<VistaPlaneada>, k: int) -> Seq<Seq<char>>
    decreases k,
{
    if k <= 0 {
        seq![]
    } else {
        ids_cifradas_hasta(ps, k - 1) + if ps[k - 1].cifrada {
            seq![id_de_particion((k - 1) as nat)]
        } else {
            seq![]
        }
    }
}

pub open spec fn ids_cifradas(ps: Seq<VistaPlaneada>) -> Seq<Seq<char>> {
    ids_cifradas_hasta(ps, ps.len() as int)
}

/// Si hay una raíz btrfs con `@` montado en `/`: es lo que hace que se pidan
/// las instantáneas.
pub open spec fn raiz_btrfs_por_defecto(ps: Seq<VistaPlaneada>) -> bool {
    exists|i: int|
        0 <= i < ps.len() && (#[trigger] ps[i]).sistema_archivos == Some("btrfs"@)
            && ps[i].subvolumenes.contains(("@"@, "/"@))
}

fn tiene_raiz_por_defecto(p: &ParticionPlaneada) -> (r: bool)
    ensures
        r == (p@.sistema_archivos == Some("btrfs"@) && p@.subvolumenes.contains(("@"@, "/"@))),
{
    let f = match p.sistema_archivos {
        Some(f) => f,
        None => {
            return false;
        },
    };
    if !crate::texto::iguales(f, "btrfs") {
        return false;
    }
    assert(p@.sistema_archivos == Some("btrfs"@));
    let mut i: usize = 0;
    while i < p.subvolumenes.len()
        invariant
            i <= p.subvolumenes.len(),
            p@.sistema_archivos == Some("btrfs"@),
            forall|j: int| 0 <= j < i ==> p@.subvolumenes[j] != ("@"@, "/"@),
        decreases p.subvolumenes.len() - i,
    {
        let (nombre, punto) = p.subvolumenes[i];
        if crate::texto::iguales(nombre, "@") && crate::texto::iguales(punto, "/") {
            assert(p@.subvolumenes[i as int] == ("@"@, "/"@));
            assert(p@.subvolumenes.contains(("@"@, "/"@)));
            return true;
        }
        i = i + 1;
    }
    false
}

fn copia_de_fijas(v: &Vec<&'static str>) -> (r: Vec<&'static str>)
    ensures
        r@ == v@,
{
    let mut r: Vec<&'static str> = Vec::new();
    let mut i: usize = 0;
    while i < v.len()
        invariant
            i <= v.len(),
            r@ == v@.take(i as int),
        decreases v.len() - i,
    {
        r.push(v[i]);
        assert(r@ =~= v@.take(i as int + 1));
        i = i + 1;
    }
    assert(v@.take(i as int) =~= v@);
    r
}

fn copia_de_pares(v: &Vec<(&'static str, &'static str)>) -> (r: Vec<(&'static str, &'static str)>)
    ensures
        r@ == v@,
{
    let mut r: Vec<(&'static str, &'static str)> = Vec::new();
    let mut i: usize = 0;
    while i < v.len()
        invariant
            i <= v.len(),
            r@ == v@.take(i as int),
        decreases v.len() - i,
    {
        r.push(v[i]);
        assert(r@ =~= v@.take(i as int + 1));
        i = i + 1;
    }
    assert(v@.take(i as int) =~= v@);
    r
}

fn copia_de_ruta(o: &Option<String>) -> (r: Option<String>)
    ensures
        vista_texto_opcional(r) == vista_texto_opcional(*o),
{
    match o {
        Some(s) => Some(cadena(s.as_str())),
        None => None,
    }
}

/// Convierte una partición del plan a lo que lee archinstall.
fn particion(p: &ParticionPlaneada, indice: usize, sector_logico: u64) -> (r: ParticionArchinstall)
    ensures
        r@ == particion_spec(p@, indice as nat, sector_logico),
{
    let opciones = copia_de_textos(p.opciones_montaje.as_slice());
    let r = ParticionArchinstall {
        obj_id: id_de(indice),
        estado: estado(p.accion),
        sector_logico,
        inicio_mib: p.inicio_mib,
        tamano_mib: p.tamano_mib,
        sistema_archivos: p.sistema_archivos,
        punto_montaje: p.punto_montaje,
        opciones_montaje: opciones,
        banderas: copia_de_fijas(&p.banderas),
        subvolumenes: copia_de_pares(&p.subvolumenes),
        ruta: copia_de_ruta(&p.ruta),
    };
    assert(r@.opciones_montaje =~= p@.opciones_montaje);
    assert(r@.banderas =~= p@.banderas);
    assert(r@.subvolumenes =~= p@.subvolumenes);
    r
}

// ── La configuración ────────────────────────────────────────────────────────

/// El firmware, como se anota en la configuración que se conserva.
pub open spec fn nombre_firmware(f: Firmware) -> Seq<char> {
    match f {
        Firmware::Uefi => "uefi"@,
        Firmware::Bios => "bios"@,
    }
}

pub open spec fn vista_opcional(o: Option<&str>) -> Option<Seq<char>> {
    match o {
        Some(s) => Some(s@),
        None => None,
    }
}

/// Lo que va en la configuración de archinstall, que no lleva ningún secreto.
///
/// El repositorio de VasakOS, con firma obligatoria, va siempre. El resto de lo
/// fijo del archivo —GRUB como cargador, NetworkManager, UTF-8, ningún perfil
/// de archinstall— no depende de nada y lo escribe la aplicación tal cual.
#[derive(Debug)]
pub struct Configuracion {
    /// La versión de archinstall instalada, para estampar el archivo.
    pub version: Option<String>,
    pub nombre_equipo: String,
    pub kernels: Vec<String>,
    pub zona_horaria: String,
    pub ntp: bool,
    pub idioma: String,
    pub teclado: String,
    pub disco: String,
    /// Si se borra la tabla de particiones. Es el punto sin retorno.
    pub borrar_disco: bool,
    pub particiones: Vec<ParticionArchinstall>,
    /// Los identificadores de las particiones cifradas. Vacío si no se cifra
    /// nada, y entonces no va la sección de cifrado.
    pub cifradas: Vec<String>,
    /// Si se piden las instantáneas de btrfs.
    pub instantaneas: bool,
    pub paquetes: Vec<String>,
    pub servicios: Vec<String>,
    pub zram: bool,
    pub firmware: &'static str,
    pub sistema_archivos: &'static str,
    pub complementos: Vec<String>,
    /// El repositorio de VasakOS: sin él `pacstrap` no encuentra ninguno de
    /// los paquetes `vasak-*` y la instalación muere después de formatear.
    pub repositorio_nombre: &'static str,
    pub repositorio_url: &'static str,
    /// Los paquetes del repositorio se instalan sólo con firma válida.
    pub repositorio_con_firma: bool,
}

impl Configuracion {
    /// Si va la sección de cifrado: sólo cuando alguna partición se cifra.
    pub fn lleva_cifrado(&self) -> (r: bool)
        ensures
            r == (self.cifradas@.len() > 0),
    {
        self.cifradas.len() > 0
    }
}

/// Arma la configuración de archinstall.
///
/// Los complementos se funden acá: lo del archivo de paquetes es el escritorio,
/// que es siempre el mismo; esto es lo que eligió esta persona y lo que
/// necesita esta máquina. Ninguna contraseña va acá: la configuración se
/// conserva en el sistema instalado.
pub fn configuracion(
    plan: &PlanInstalacion,
    plan_disco: &Plan,
    sector_logico: u64,
    firmware: Firmware,
    fuentes: &FuentesDePaquetes,
    version_archinstall: Option<&str>,
) -> (r: Configuracion)
    ensures
        vista_texto_opcional(r.version) == vista_opcional(version_archinstall),
        r.nombre_equipo@ == plan.hostname@,
        vistas_textos(r.kernels@) == kernels(),
        r.zona_horaria@ == plan.zona_horaria@,
        r.ntp == plan.ntp,
        r.idioma@ == plan.idioma_sistema@,
        r.teclado@ == plan.teclado@,
        r.disco@ == plan.disco@,
        r.borrar_disco == plan_disco.borrar_disco,
        vistas_archinstall(r.particiones@) == particiones_spec(plan_disco@.particiones, sector_logico),
        vistas_textos(r.cifradas@) == ids_cifradas(plan_disco@.particiones),
        r.instantaneas == raiz_btrfs_por_defecto(plan_disco@.particiones),
        vistas_textos(r.paquetes@) == paquetes_finales_spec(
            vistas_textos(fuentes.escritorio@),
            vistas_textos(fuentes.aporte.paquetes@),
            fuentes.necesarios@,
        ),
        vistas_textos(r.servicios@) == servicios_finales_spec(vistas_textos(fuentes.aporte.servicios@)),
        r.zram == plan.zram,
        r.firmware@ == nombre_firmware(firmware),
        r.sistema_archivos@ == nombre_archinstall(plan.sistema_archivos),
        vistas_textos(r.complementos@) == vistas_textos(plan.complementos@),
        r.repositorio_nombre@ == REPO_NOMBRE@,
        r.repositorio_url@ == REPO_URL@,
        r.repositorio_con_firma,
{
    let ghost ps = plan_disco@.particiones;
    let mut particiones: Vec<ParticionArchinstall> = Vec::new();
    let mut cifradas: Vec<String> = Vec::new();
    let mut instantaneas = false;
    let mut i: usize = 0;
    while i < plan_disco.particiones.len()
        invariant
            i <= plan_disco.particiones.len(),
            ps == plan_disco@.particiones,
            ps.len() == plan_disco.particiones.len(),
            vistas_archinstall(particiones@) == particiones_spec(ps, sector_logico).take(i as int),
            vistas_textos(cifradas@) == ids_cifradas_hasta(ps, i as int),
            instantaneas == exists|j: int|
                0 <= j < i && (#[trigger] ps[j]).sistema_archivos == Some("btrfs"@)
                    && ps[j].subvolumenes.contains(("@"@, "/"@)),
        decreases plan_disco.particiones.len() - i,
    {
        let p = &plan_disco.particiones[i];
        assert(p@ == ps[i as int]);
        let nueva = particion(p, i, sector_logico);
        let ghost antes = particiones@;
        particiones.push(nueva);
        assert(vistas_archinstall(particiones@) =~= vistas_archinstall(antes).push(nueva@));
        assert(vistas_archinstall(particiones@) =~= particiones_spec(ps, sector_logico).take(i as int + 1));
        if p.cifrada {
            let ghost antes_c = cifradas@;
            let id = id_de(i);
            cifradas.push(id);
            assert(vistas_textos(cifradas@) =~= vistas_textos(antes_c).push(id@));
            assert(vistas_textos(cifradas@) =~= ids_cifradas_hasta(ps, i as int + 1));
        } else {
            assert(ids_cifradas_hasta(ps, i as int + 1) =~= ids_cifradas_hasta(ps, i as int));
        }
        if tiene_raiz_por_defecto(p) {
            instantaneas = true;
        }
        i = i + 1;
    }
    assert(particiones_spec(ps, sector_logico).take(i as int) =~= particiones_spec(ps, sector_logico));
    let version = match version_archinstall {
        Some(v) => Some(cadena(v)),
        None => None,
    };
    Configuracion {
        version,
        nombre_equipo: cadena(plan.hostname.as_str()),
        kernels: lista_de_kernels(),
        zona_horaria: cadena(plan.zona_horaria.as_str()),
        ntp: plan.ntp,
        idioma: cadena(plan.idioma_sistema.as_str()),
        teclado: cadena(plan.teclado.as_str()),
        disco: cadena(plan.disco.as_str()),
        borrar_disco: plan_disco.borrar_disco,
        particiones,
        cifradas,
        instantaneas,
        paquetes: paquetes_finales(fuentes),
        servicios: servicios_finales(fuentes.aporte),
        zram: plan.zram,
        firmware: match firmware {
            Firmware::Uefi => "uefi",
            Firmware::Bios => "bios",
        },
        sistema_archivos: plan.sistema_archivos.como_archinstall(),
        complementos: copia_de_textos(plan.complementos.as_slice()),
        repositorio_nombre: REPO_NOMBRE,
        repositorio_url: REPO_URL,
        repositorio_con_firma: true,
    }
}

/// **Se cifra lo que el plan cifra y nada más.** Cada identificador de la
/// sección de cifrado es el de una partición que el plan marca cifrada, y
/// cada una de esas está. Con el plan que nunca cifra el arranque, eso es lo
/// que evita un equipo que no arranca porque el firmware no puede leer el ESP.
pub proof fn se_cifra_lo_que_el_plan_cifra(ps: Seq<VistaPlaneada>)
    ensures
        forall|id: Seq<char>|
            #[trigger] ids_cifradas(ps).contains(id) <==> exists|i: int|
                0 <= i < ps.len() && (#[trigger] ps[i]).cifrada && id == id_de_particion(i as nat),
{
    lemma_ids_cifradas(ps, ps.len() as int);
}

proof fn lemma_ids_cifradas(ps: Seq<VistaPlaneada>, k: int)
    requires
        0 <= k <= ps.len(),
    ensures
        forall|id: Seq<char>|
            #[trigger] ids_cifradas_hasta(ps, k).contains(id) <==> exists|i: int|
                0 <= i < k && (#[trigger] ps[i]).cifrada && id == id_de_particion(i as nat),
    decreases k,
{
    if k > 0 {
        lemma_ids_cifradas(ps, k - 1);
        let antes = ids_cifradas_hasta(ps, k - 1);
        let extra = if ps[k - 1].cifrada {
            seq![id_de_particion((k - 1) as nat)]
        } else {
            seq![]
        };
        let todo = ids_cifradas_hasta(ps, k);
        assert(todo == antes + extra);
        assert forall|id: Seq<char>| #[trigger] todo.contains(id) <==> exists|i: int|
            0 <= i < k && (#[trigger] ps[i]).cifrada && id == id_de_particion(i as nat) by {
            if todo.contains(id) {
                let j = choose|j: int| 0 <= j < todo.len() && todo[j] == id;
                if j < antes.len() {
                    assert(antes[j] == id);
                    assert(antes.contains(id));
                } else {
                    assert(extra[j - antes.len()] == id);
                    assert(ps[k - 1].cifrada && id == id_de_particion((k - 1) as nat));
                }
            }
            if exists|i: int| 0 <= i < k && (#[trigger] ps[i]).cifrada && id == id_de_particion(i as nat) {
                let i = choose|i: int| 0 <= i < k && (#[trigger] ps[i]).cifrada && id == id_de_particion(i as nat);
                if i < k - 1 {
                    assert(antes.contains(id));
                    let j = choose|j: int| 0 <= j < antes.len() && antes[j] == id;
                    assert(todo[j] == id);
                } else {
                    assert(todo[antes.len() as int] == id);
                }
            }
        }
    }
}

// ── Las credenciales ────────────────────────────────────────────────────────

/// Lo que va en el archivo de credenciales.
///
/// Las contraseñas van como hash. La frase de LUKS va en claro porque
/// cryptsetup necesita la frase y no un hash: por eso este archivo se borra al
/// terminar.
#[derive(Debug)]
pub struct Credenciales {
    pub usuario: String,
    pub hash_usuario: String,
    pub sudo: bool,
    pub grupos: Vec<String>,
    /// `None` va como `null` explícito y no como clave ausente: con la clave
    /// ausente, algunas versiones de archinstall dejan root con contraseña
    /// vacía, que es peor que bloqueada.
    pub hash_root: Option<String>,
    pub frase_cifrado: Option<String>,
}

/// Arma las credenciales de archinstall. El hash lo produce quien llama; acá
/// sólo se acomoda.
pub fn credenciales(
    plan: &PlanInstalacion,
    hash_usuario: &str,
    hash_root: Option<&str>,
    frase_cifrado: Option<&str>,
) -> (r: Credenciales)
    ensures
        r.usuario@ == plan.usuario@,
        r.hash_usuario@ == hash_usuario@,
        r.sudo == plan.administrador,
        vistas_textos(r.grupos@) == if plan.administrador {
            grupos_admin()
        } else {
            grupos_usuario()
        },
        vista_texto_opcional(r.hash_root) == vista_opcional(hash_root),
        vista_texto_opcional(r.frase_cifrado) == vista_opcional(frase_cifrado),
{
    Credenciales {
        usuario: cadena(plan.usuario.as_str()),
        hash_usuario: cadena(hash_usuario),
        sudo: plan.administrador,
        grupos: grupos(plan.administrador),
        hash_root: match hash_root {
            Some(h) => Some(cadena(h)),
            None => None,
        },
        frase_cifrado: match frase_cifrado {
            Some(f) => Some(cadena(f)),
            None => None,
        },
    }
}

/// **Un usuario sin privilegios no va a `wheel`, pero sí a los grupos de
/// dispositivos:** sin `video` no podría cambiar el brillo de su pantalla.
pub proof fn sin_privilegios_no_hay_wheel()
    ensures
        !grupos_usuario().contains("wheel"@),
        grupos_admin().contains("wheel"@),
        forall|g: Seq<char>| #[trigger] grupos_usuario().contains(g) ==> grupos_admin().contains(g),
{
    reveal_strlit("wheel");
    reveal_strlit("adm");
    reveal_strlit("audio");
    reveal_strlit("video");
    reveal_strlit("network");
    reveal_strlit("storage");
    reveal_strlit("power");
    reveal_strlit("lp");
    reveal_strlit("optical");
    reveal_strlit("scanner");
    reveal_strlit("rfkill");
    reveal_strlit("uucp");
    reveal_strlit("sys");
    reveal_strlit("users");
    assert(grupos_admin()[0] == "wheel"@);
    assert forall|j: int| 0 <= j < grupos_usuario().len() implies (#[trigger] grupos_usuario()[j])[0]
        != 'w' by {}
    assert("wheel"@[0] == 'w');
    assert forall|g: Seq<char>| #[trigger] grupos_usuario().contains(g) implies grupos_admin().contains(g) by {
        let j = choose|j: int| 0 <= j < grupos_usuario().len() && grupos_usuario()[j] == g;
        assert(grupos_admin()[j + 1] == g);
    }
}

} // verus!
