//! Lo que se puede sumar al sistema durante la instalación.
//!
//! Un complemento es un conjunto de paquetes y servicios con un nombre que una
//! persona entiende: «Firefox», «Impresoras», «Controlador de NVIDIA». El
//! catálogo vive en un archivo de datos que se lee en tiempo de ejecución:
//! sumar un navegador tiene que ser editar un archivo, no recompilar.

use vstd::prelude::*;

use crate::conjunto::{agregados, creciente, lemma_agregados, Conjunto};
use crate::texto::{agregar, cadena, cadena_de, iguales};

verus! {

broadcast use vstd::string::group_string_axioms;

#[derive(Debug, Clone, Copy, PartialEq, Eq, Structural)]
pub enum Categoria {
    Navegador,
    Impresoras,
    Drivers,
    Extras,
}

/// La clave del catálogo de idioma de cada categoría.
pub open spec fn clave_de_categoria(c: Categoria) -> Seq<char> {
    match c {
        Categoria::Navegador => "navegador"@,
        Categoria::Impresoras => "impresoras"@,
        Categoria::Drivers => "drivers"@,
        Categoria::Extras => "extras"@,
    }
}

impl Categoria {
    /// El orden en que se muestran las categorías: el navegador primero, los
    /// controladores después y los extras al final.
    pub const TODAS: [Categoria; 4] = [
        Categoria::Navegador,
        Categoria::Drivers,
        Categoria::Impresoras,
        Categoria::Extras,
    ];

    /// La clave del catálogo de idioma.
    pub fn clave(self) -> (r: &'static str)
        ensures
            r@ == clave_de_categoria(self),
    {
        match self {
            Categoria::Navegador => "navegador",
            Categoria::Impresoras => "impresoras",
            Categoria::Drivers => "drivers",
            Categoria::Extras => "extras",
        }
    }
}

/// Un complemento del catálogo.
#[derive(Debug, Clone)]
pub struct Complemento {
    /// Identificador estable. Va en el plan y en las claves de traducción.
    pub id: String,
    pub categoria: Categoria,
    pub paquetes: Vec<String>,
    /// Unidades de sistema: las de usuario las habilitan sus paquetes.
    pub servicios: Vec<String>,
    /// Nombre del tema de iconos, sin el sufijo `-symbolic`.
    pub icono: String,
    /// Marca de hardware que lo propone.
    pub detectar: Option<String>,
    /// Los exclusivos de una misma categoría son un grupo de uno solo.
    pub exclusivo: bool,
    /// Viene marcado de entrada.
    pub por_defecto: bool,
}

pub struct VistaComplemento {
    pub id: Seq<char>,
    pub categoria: Categoria,
    pub paquetes: Seq<Seq<char>>,
    pub servicios: Seq<Seq<char>>,
    pub icono: Seq<char>,
    pub detectar: Option<Seq<char>>,
    pub exclusivo: bool,
    pub por_defecto: bool,
}

impl View for Complemento {
    type V = VistaComplemento;

    open spec fn view(&self) -> VistaComplemento {
        VistaComplemento {
            id: self.id@,
            categoria: self.categoria,
            paquetes: self.paquetes@.map_values(|s: String| s@),
            servicios: self.servicios@.map_values(|s: String| s@),
            icono: self.icono@,
            detectar: match self.detectar {
                Some(d) => Some(d@),
                None => None,
            },
            exclusivo: self.exclusivo,
            por_defecto: self.por_defecto,
        }
    }
}

pub open spec fn vistas_catalogo(s: Seq<Complemento>) -> Seq<VistaComplemento> {
    s.map_values(|c: Complemento| c@)
}

/// Errores del catálogo que hacen que no se pueda usar.
#[derive(Debug, Clone, PartialEq, Eq)]
pub enum ErrorCatalogo {
    NoSeEncontro,
    NoSePudoLeer(String),
    NoSeEntiende(String),
    /// Dos complementos con el mismo `id`: elegir uno instalaría el otro.
    IdRepetido(String),
}

pub enum VistaErrorCatalogo {
    NoSeEncontro,
    NoSePudoLeer(Seq<char>),
    NoSeEntiende(Seq<char>),
    IdRepetido(Seq<char>),
}

impl View for ErrorCatalogo {
    type V = VistaErrorCatalogo;

    open spec fn view(&self) -> VistaErrorCatalogo {
        match self {
            ErrorCatalogo::NoSeEncontro => VistaErrorCatalogo::NoSeEncontro,
            ErrorCatalogo::NoSePudoLeer(e) => VistaErrorCatalogo::NoSePudoLeer(e@),
            ErrorCatalogo::NoSeEntiende(e) => VistaErrorCatalogo::NoSeEntiende(e@),
            ErrorCatalogo::IdRepetido(id) => VistaErrorCatalogo::IdRepetido(id@),
        }
    }
}

pub open spec fn mensaje_catalogo(e: VistaErrorCatalogo) -> Seq<char> {
    match e {
        VistaErrorCatalogo::NoSeEncontro => "no se encontró complementos.toml"@,
        VistaErrorCatalogo::NoSePudoLeer(m) => "no se pudo leer complementos.toml: "@ + m,
        VistaErrorCatalogo::NoSeEntiende(m) => "complementos.toml tiene un error: "@ + m,
        VistaErrorCatalogo::IdRepetido(id) => "hay dos complementos con el identificador «"@ + id
            + "»"@,
    }
}

impl ErrorCatalogo {
    /// El mensaje para el registro.
    pub fn describir(&self) -> (r: String)
        ensures
            r@ == mensaje_catalogo(self@),
    {
        let mut v: Vec<char> = Vec::new();
        match self {
            ErrorCatalogo::NoSeEncontro => agregar(&mut v, "no se encontró complementos.toml"),
            ErrorCatalogo::NoSePudoLeer(e) => {
                agregar(&mut v, "no se pudo leer complementos.toml: ");
                agregar(&mut v, e.as_str());
            },
            ErrorCatalogo::NoSeEntiende(e) => {
                agregar(&mut v, "complementos.toml tiene un error: ");
                agregar(&mut v, e.as_str());
            },
            ErrorCatalogo::IdRepetido(id) => {
                agregar(&mut v, "hay dos complementos con el identificador «");
                agregar(&mut v, id.as_str());
                agregar(&mut v, "»");
            },
        }
        assert(v@ =~= mensaje_catalogo(self@));
        cadena_de(v)
    }
}

/// El primer complemento cuyo `id` ya había aparecido antes, si hay uno.
pub open spec fn primer_repetido(cat: Seq<VistaComplemento>) -> Option<Seq<char>>
    decreases cat.len(),
{
    if cat.len() == 0 {
        None
    } else {
        match primer_repetido(cat.drop_last()) {
            Some(id) => Some(id),
            None => if exists|i: int| 0 <= i < cat.len() - 1 && #[trigger] cat[i].id == cat.last().id {
                Some(cat.last().id)
            } else {
                None
            },
        }
    }
}

/// Comprueba que no haya dos complementos con el mismo `id`: un duplicado
/// hace que elegir uno instale los paquetes del otro, y eso se descubre
/// mirando qué quedó instalado.
pub fn revisar_catalogo(catalogo: Vec<Complemento>) -> (r: Result<Vec<Complemento>, ErrorCatalogo>)
    ensures
        match primer_repetido(vistas_catalogo(catalogo@)) {
            Some(id) => r is Err && r->Err_0@ == VistaErrorCatalogo::IdRepetido(id),
            None => r is Ok && vistas_catalogo(r->Ok_0@) == vistas_catalogo(catalogo@),
        },
{
    let ghost cat = vistas_catalogo(catalogo@);
    let mut i: usize = 0;
    while i < catalogo.len()
        invariant
            i <= catalogo.len(),
            cat == vistas_catalogo(catalogo@),
            primer_repetido(cat.take(i as int)) is None,
        decreases catalogo.len() - i,
    {
        let mut j: usize = 0;
        let mut repetido = false;
        while j < i && !repetido
            invariant
                j <= i < catalogo.len(),
                cat == vistas_catalogo(catalogo@),
                repetido ==> j < i && cat[j as int].id == cat[i as int].id,
                forall|k: int| 0 <= k < j ==> cat[k].id != cat[i as int].id,
            decreases (i - j) as int + (if repetido {
                0int
            } else {
                1int
            }),
        {
            if iguales(catalogo[j].id.as_str(), catalogo[i].id.as_str()) {
                repetido = true;
            } else {
                j = j + 1;
            }
        }
        let ghost p = cat.take(i as int + 1);
        proof {
            assert(p.drop_last() =~= cat.take(i as int));
            assert(p.last() == cat[i as int]);
            assert forall|k: int| 0 <= k < p.len() - 1 implies #[trigger] p[k] == cat[k] by {}
        }
        if repetido {
            proof {
                assert(p[j as int].id == p.last().id);
            }
            assert(cat.take(catalogo.len() as int).take(i as int + 1) =~= p);
            proof {
                lemma_primer_repetido_prefijo(cat, i as int + 1);
            }
            return Err(ErrorCatalogo::IdRepetido(catalogo[i].id.clone()));
        }
        i = i + 1;
    }
    assert(cat.take(i as int) =~= cat);
    Ok(catalogo)
}

/// Si el primer repetido aparece en un prefijo, es el de toda la lista.
proof fn lemma_primer_repetido_prefijo(cat: Seq<VistaComplemento>, n: int)
    requires
        0 <= n <= cat.len(),
        primer_repetido(cat.take(n)) is Some,
    ensures
        primer_repetido(cat) == primer_repetido(cat.take(n)),
    decreases cat.len() - n,
{
    if n < cat.len() {
        assert(cat.take(n + 1).drop_last() =~= cat.take(n));
        lemma_primer_repetido_prefijo(cat, n + 1);
    } else {
        assert(cat.take(n) =~= cat);
    }
}

/// Lo que hay que sumarle a la configuración de archinstall.
#[derive(Debug, Clone, PartialEq, Eq)]
pub struct Aporte {
    pub paquetes: Vec<String>,
    pub servicios: Vec<String>,
}

pub open spec fn elegido(c: VistaComplemento, elegidos: Seq<Seq<char>>) -> bool {
    elegidos.contains(c.id)
}

/// Los paquetes o servicios de los complementos elegidos, juntados en orden
/// de catálogo en un conjunto.
pub open spec fn juntos_hasta(
    cat: Seq<VistaComplemento>,
    elegidos: Seq<Seq<char>>,
    servicios: bool,
) -> Seq<Seq<char>>
    decreases cat.len(),
{
    if cat.len() == 0 {
        seq![]
    } else {
        let antes = juntos_hasta(cat.drop_last(), elegidos, servicios);
        let c = cat.last();
        if elegido(c, elegidos) {
            agregados(
                antes,
                if servicios {
                    c.servicios
                } else {
                    c.paquetes
                },
            )
        } else {
            antes
        }
    }
}

pub open spec fn vistas_textos(s: Seq<String>) -> Seq<Seq<char>> {
    s.map_values(|x: String| x@)
}

/// Junta los paquetes y servicios de los complementos elegidos, sin
/// repetidos y en orden.
///
/// Los ids que no están en el catálogo se ignoran: el catálogo se puede
/// editar entre que la interfaz lo leyó y que se arma el plan, y un id viejo
/// no puede impedir una instalación que por lo demás está bien.
pub fn aporte_de(catalogo: &[Complemento], elegidos: &[String]) -> (r: Aporte)
    ensures
        vistas_textos(r.paquetes@) == juntos_hasta(
            vistas_catalogo(catalogo@),
            vistas_textos(elegidos@),
            false,
        ),
        vistas_textos(r.servicios@) == juntos_hasta(
            vistas_catalogo(catalogo@),
            vistas_textos(elegidos@),
            true,
        ),
{
    let ghost cat = vistas_catalogo(catalogo@);
    let ghost pedidos = vistas_textos(elegidos@);
    let mut paquetes = Conjunto::new();
    let mut servicios = Conjunto::new();
    let mut i: usize = 0;
    while i < catalogo.len()
        invariant
            i <= catalogo.len(),
            cat == vistas_catalogo(catalogo@),
            pedidos == vistas_textos(elegidos@),
            paquetes@ == juntos_hasta(cat.take(i as int), pedidos, false),
            servicios@ == juntos_hasta(cat.take(i as int), pedidos, true),
        decreases catalogo.len() - i,
    {
        let c = &catalogo[i];
        proof {
            assert(cat.take(i as int + 1).drop_last() =~= cat.take(i as int));
            assert(cat.take(i as int + 1).last() == c@);
        }
        if esta_en(elegidos, c.id.as_str()) {
            paquetes.extender(c.paquetes.as_slice());
            servicios.extender(c.servicios.as_slice());
        }
        i = i + 1;
    }
    assert(cat.take(i as int) =~= cat);
    Aporte { paquetes: paquetes.como_lista(), servicios: servicios.como_lista() }
}

fn esta_en(lista: &[String], s: &str) -> (r: bool)
    ensures
        r == vistas_textos(lista@).contains(s@),
{
    let ghost w = vistas_textos(lista@);
    let mut i: usize = 0;
    while i < lista.len()
        invariant
            i <= lista.len(),
            w == vistas_textos(lista@),
            forall|j: int| 0 <= j < i ==> w[j] != s@,
        decreases lista.len() - i,
    {
        if iguales(lista[i].as_str(), s) {
            assert(w[i as int] == s@);
            return true;
        }
        i = i + 1;
    }
    false
}

proof fn lemma_juntos(cat: Seq<VistaComplemento>, elegidos: Seq<Seq<char>>, servicios: bool)
    ensures
        creciente(juntos_hasta(cat, elegidos, servicios)),
        forall|p: Seq<char>| #[trigger]
            juntos_hasta(cat, elegidos, servicios).contains(p) <==> exists|i: int|
                0 <= i < cat.len() && elegido(cat[i], elegidos) && (if servicios {
                    cat[i].servicios
                } else {
                    cat[i].paquetes
                }).contains(p),
    decreases cat.len(),
{
    if cat.len() > 0 {
        let q = cat.drop_last();
        lemma_juntos(q, elegidos, servicios);
        let antes = juntos_hasta(q, elegidos, servicios);
        let c = cat.last();
        let lista = if servicios {
            c.servicios
        } else {
            c.paquetes
        };
        if elegido(c, elegidos) {
            lemma_agregados(antes, lista);
        }
        assert forall|p: Seq<char>| #[trigger] juntos_hasta(cat, elegidos, servicios).contains(p)
            <==> exists|i: int|
            0 <= i < cat.len() && elegido(cat[i], elegidos) && (if servicios {
                cat[i].servicios
            } else {
                cat[i].paquetes
            }).contains(p) by {
            if exists|i: int|
                0 <= i < cat.len() && elegido(cat[i], elegidos) && (if servicios {
                    cat[i].servicios
                } else {
                    cat[i].paquetes
                }).contains(p) {
                let i = choose|i: int|
                    0 <= i < cat.len() && elegido(cat[i], elegidos) && (if servicios {
                        cat[i].servicios
                    } else {
                        cat[i].paquetes
                    }).contains(p);
                if i < cat.len() - 1 {
                    assert(q[i] == cat[i]);
                }
            }
            if antes.contains(p) {
                let i = choose|i: int|
                    0 <= i < q.len() && elegido(q[i], elegidos) && (if servicios {
                        q[i].servicios
                    } else {
                        q[i].paquetes
                    }).contains(p);
                assert(cat[i] == q[i]);
            }
        }
    }
}

/// **Se instala lo que se eligió, todo y sólo eso**: un paquete (o servicio)
/// está en el aporte si y sólo si lo trae alguno de los complementos elegidos
/// que están en el catálogo; y el aporte sale en orden y sin repetidos, así
/// que la misma elección produce siempre el mismo archivo.
pub proof fn se_instala_lo_que_se_eligio(
    catalogo: Seq<VistaComplemento>,
    elegidos: Seq<Seq<char>>,
    servicios: bool,
)
    ensures
        creciente(juntos_hasta(catalogo, elegidos, servicios)),
        forall|p: Seq<char>| #[trigger]
            juntos_hasta(catalogo, elegidos, servicios).contains(p) <==> exists|i: int|
                0 <= i < catalogo.len() && elegidos.contains(catalogo[i].id) && (if servicios {
                    catalogo[i].servicios
                } else {
                    catalogo[i].paquetes
                }).contains(p),
{
    lemma_juntos(catalogo, elegidos, servicios);
}

// ── La preselección ─────────────────────────────────────────────────────────

/// Si un complemento viene propuesto: por defecto, o porque el hardware
/// detectado tiene la marca que nombra.
pub open spec fn propuesto(c: VistaComplemento, hardware: Seq<Seq<char>>) -> bool {
    c.por_defecto || (c.detectar is Some && hardware.contains(c.detectar->0))
}

/// El recorrido del catálogo: los ids marcados y las categorías exclusivas
/// ya tomadas.
pub open spec fn preseleccion_hasta(cat: Seq<VistaComplemento>, hardware: Seq<Seq<char>>) -> (
    Seq<Seq<char>>,
    Seq<Categoria>,
)
    decreases cat.len(),
{
    if cat.len() == 0 {
        (seq![], seq![])
    } else {
        let (marcados, tomadas) = preseleccion_hasta(cat.drop_last(), hardware);
        let c = cat.last();
        if !propuesto(c, hardware) {
            (marcados, tomadas)
        } else if c.exclusivo && tomadas.contains(c.categoria) {
            (marcados, tomadas)
        } else {
            (
                marcados.push(c.id),
                if c.exclusivo {
                    tomadas.push(c.categoria)
                } else {
                    tomadas
                },
            )
        }
    }
}

/// Qué complementos vienen marcados al abrir el paso: los `por_defecto` y los
/// que el hardware detectado propone, y nada más. Entre los exclusivos de una
/// categoría queda uno solo, el primero del catálogo que califique.
pub fn preseleccion(catalogo: &[Complemento], hardware: &Conjunto) -> (r: Vec<String>)
    ensures
        vistas_textos(r@) == preseleccion_hasta(vistas_catalogo(catalogo@), hardware@).0,
{
    let ghost cat = vistas_catalogo(catalogo@);
    let mut elegidos: Vec<String> = Vec::new();
    let mut tomadas: Vec<Categoria> = Vec::new();
    let mut i: usize = 0;
    while i < catalogo.len()
        invariant
            i <= catalogo.len(),
            cat == vistas_catalogo(catalogo@),
            (vistas_textos(elegidos@), tomadas@) == preseleccion_hasta(
                cat.take(i as int),
                hardware@,
            ),
        decreases catalogo.len() - i,
    {
        let c = &catalogo[i];
        proof {
            assert(cat.take(i as int + 1).drop_last() =~= cat.take(i as int));
            assert(cat.take(i as int + 1).last() == c@);
        }
        let propone = c.por_defecto || match &c.detectar {
            Some(marca) => hardware.contains(marca.as_str()),
            None => false,
        };
        if propone {
            let mut tomada = false;
            let mut k: usize = 0;
            while k < tomadas.len()
                invariant
                    k <= tomadas.len(),
                    tomada == tomadas@.take(k as int).contains(c.categoria),
                decreases tomadas.len() - k,
            {
                proof {
                    assert(tomadas@.take(k as int + 1) =~= tomadas@.take(k as int).push(
                        tomadas@[k as int],
                    ));
                }
                let iguala = tomadas[k] == c.categoria;
                proof {
                    let antes_k = tomadas@.take(k as int);
                    let despues = tomadas@.take(k as int + 1);
                    assert(despues[k as int] == tomadas@[k as int]);
                    if despues.contains(c.categoria) && !iguala {
                        let w = choose|w: int| 0 <= w < k + 1 && despues[w] == c.categoria;
                        assert(w < k);
                        assert(antes_k[w] == c.categoria);
                    }
                    if antes_k.contains(c.categoria) {
                        let w = choose|w: int| 0 <= w < k && antes_k[w] == c.categoria;
                        assert(despues[w] == c.categoria);
                    }
                }
                if iguala {
                    tomada = true;
                }
                k = k + 1;
            }
            assert(tomadas@.take(k as int) =~= tomadas@);
            if !(c.exclusivo && tomada) {
                let ghost antes = elegidos@;
                elegidos.push(c.id.clone());
                assert(vistas_textos(elegidos@) =~= vistas_textos(antes).push(c.id@));
                if c.exclusivo {
                    tomadas.push(c.categoria);
                }
            }
        }
        i = i + 1;
    }
    assert(cat.take(i as int) =~= cat);
    elegidos
}

pub open spec fn ids_distintos(cat: Seq<VistaComplemento>) -> bool {
    forall|a: int, b: int|
        0 <= a < cat.len() && 0 <= b < cat.len() && a != b ==> #[trigger] cat[a].id
            != #[trigger] cat[b].id
}

/// Dos exclusivos distintos de la misma categoría nunca quedan los dos
/// marcados.
pub open spec fn un_exclusivo_por_categoria(
    cat: Seq<VistaComplemento>,
    marcados: Seq<Seq<char>>,
) -> bool {
    forall|i: int, j: int|
        0 <= i < j < cat.len() && cat[i].exclusivo && cat[j].exclusivo && cat[i].categoria
            == cat[j].categoria ==> !(marcados.contains(#[trigger] cat[i].id) && marcados.contains(
            #[trigger] cat[j].id,
        ))
}

proof fn lemma_preseleccion(cat: Seq<VistaComplemento>, hardware: Seq<Seq<char>>)
    requires
        ids_distintos(cat),
    ensures
        ({
            let (marcados, tomadas) = preseleccion_hasta(cat, hardware);
            &&& forall|x: Seq<char>| #[trigger]
                marcados.contains(x) ==> exists|k: int|
                    0 <= k < cat.len() && cat[k].id == x && propuesto(cat[k], hardware)
            &&& forall|k: int|
                0 <= k < cat.len() && cat[k].exclusivo && marcados.contains(#[trigger] cat[k].id)
                    ==> tomadas.contains(cat[k].categoria)
            &&& un_exclusivo_por_categoria(cat, marcados)
        }),
    decreases cat.len(),
{
    if cat.len() > 0 {
        let q = cat.drop_last();
        let n = q.len() as int;
        assert(ids_distintos(q)) by {
            assert forall|a: int, b: int| 0 <= a < q.len() && 0 <= b < q.len() && a != b implies #[trigger] q[a].id
                != #[trigger] q[b].id by {
                assert(q[a] == cat[a] && q[b] == cat[b]);
            }
        }
        lemma_preseleccion(q, hardware);
        let (m, t) = preseleccion_hasta(q, hardware);
        let (m2, t2) = preseleccion_hasta(cat, hardware);
        let c = cat.last();
        assert(c == cat[n]);
        assert(!m.contains(c.id)) by {
            if m.contains(c.id) {
                let k = choose|k: int| 0 <= k < q.len() && q[k].id == c.id && propuesto(q[k], hardware);
                assert(cat[k].id == cat[n].id);
            }
        }
        assert forall|x: Seq<char>| #[trigger] m2.contains(x) implies exists|k: int|
            0 <= k < cat.len() && cat[k].id == x && propuesto(cat[k], hardware) by {
            if m.contains(x) {
                let k = choose|k: int| 0 <= k < q.len() && q[k].id == x && propuesto(q[k], hardware);
                assert(cat[k] == q[k]);
            } else {
                assert(x == c.id);
                assert(cat[n].id == x);
            }
        }
        assert forall|k: int|
            0 <= k < cat.len() && cat[k].exclusivo && m2.contains(#[trigger] cat[k].id) implies t2.contains(
            cat[k].categoria,
        ) by {
            if k < n {
                assert(cat[k] == q[k]);
                assert(cat[k].id != c.id);
                assert(m.contains(q[k].id));
                assert(t.contains(q[k].categoria));
                let w = choose|w: int| 0 <= w < t.len() && t[w] == q[k].categoria;
                assert(t2[w] == t[w]);
            } else {
                assert(k == n);
                assert(t2[t2.len() - 1] == c.categoria);
            }
        }
        assert forall|i: int, j: int|
            0 <= i < j < cat.len() && cat[i].exclusivo && cat[j].exclusivo && cat[i].categoria
                == cat[j].categoria implies !(m2.contains(#[trigger] cat[i].id) && m2.contains(
            #[trigger] cat[j].id,
        )) by {
            assert(cat[i] == q[i]);
            assert(cat[i].id != c.id);
            if j < n {
                assert(cat[j] == q[j]);
                assert(cat[j].id != c.id);
            } else if m2.contains(cat[i].id) && m2.contains(cat[j].id) {
                assert(m.contains(q[i].id));
                assert(t.contains(q[i].categoria));
            }
        }
    }
}

/// **Entre los exclusivos de una categoría queda uno solo**: en un catálogo
/// sin ids repetidos, dos complementos exclusivos de la misma categoría nunca
/// quedan marcados los dos, que es un estado que la interfaz —un grupo de
/// opciones del que se elige una— no puede representar. Y todo lo marcado es
/// un complemento del catálogo que venía propuesto.
pub proof fn entre_los_exclusivos_queda_uno_solo(cat: Seq<VistaComplemento>, hardware: Seq<Seq<char>>)
    requires
        ids_distintos(cat),
    ensures
        un_exclusivo_por_categoria(cat, preseleccion_hasta(cat, hardware).0),
        forall|x: Seq<char>| #[trigger]
            preseleccion_hasta(cat, hardware).0.contains(x) ==> exists|k: int|
                0 <= k < cat.len() && cat[k].id == x && propuesto(cat[k], hardware),
{
    lemma_preseleccion(cat, hardware);
}

/// Si entre los primeros `n` complementos hay un exclusivo propuesto de esa
/// categoría.
pub open spec fn tomada(cat: Seq<VistaComplemento>, hardware: Seq<Seq<char>>, n: int, g: Categoria) -> bool {
    exists|j: int|
        0 <= j < n && (#[trigger] cat[j]).exclusivo && cat[j].categoria == g && propuesto(cat[j], hardware)
}

/// Si el complemento `k` queda marcado: viene propuesto y, si es exclusivo, es
/// el primer exclusivo propuesto de su categoría.
pub open spec fn marcado(cat: Seq<VistaComplemento>, hardware: Seq<Seq<char>>, k: int) -> bool {
    propuesto(cat[k], hardware) && (!cat[k].exclusivo || !tomada(cat, hardware, k, cat[k].categoria))
}

/// Los ids de los elegidos entre los primeros `n`, en el orden del catálogo.
pub open spec fn elegidos_hasta(cat: Seq<VistaComplemento>, hardware: Seq<Seq<char>>, n: int) -> Seq<Seq<char>>
    decreases n,
{
    if n <= 0 {
        seq![]
    } else {
        elegidos_hasta(cat, hardware, n - 1) + if marcado(cat, hardware, n - 1) {
            seq![cat[n - 1].id]
        } else {
            seq![]
        }
    }
}

proof fn lemma_elegidos(cat: Seq<VistaComplemento>, hardware: Seq<Seq<char>>, n: int)
    requires
        0 <= n <= cat.len(),
    ensures
        preseleccion_hasta(cat.take(n), hardware).0 == elegidos_hasta(cat, hardware, n),
        forall|g: Categoria|
            #[trigger] preseleccion_hasta(cat.take(n), hardware).1.contains(g) == tomada(cat, hardware, n, g),
    decreases n,
{
    if n > 0 {
        let t = cat.take(n);
        assert(t.drop_last() =~= cat.take(n - 1));
        assert(t.last() == cat[n - 1]);
        lemma_elegidos(cat, hardware, n - 1);
        let (m0, t0) = preseleccion_hasta(cat.take(n - 1), hardware);
        let (m1, t1) = preseleccion_hasta(t, hardware);
        let c = cat[n - 1];
        assert forall|g: Categoria| #[trigger] t1.contains(g) == tomada(cat, hardware, n, g) by {
            if tomada(cat, hardware, n, g) && !tomada(cat, hardware, n - 1, g) {
                let j = choose|j: int|
                    0 <= j < n && (#[trigger] cat[j]).exclusivo && cat[j].categoria == g && propuesto(
                        cat[j],
                        hardware,
                    );
                assert(j == n - 1);
                assert(t1 == t0.push(g));
                assert(t1[t0.len() as int] == g);
            }
            if tomada(cat, hardware, n - 1, g) {
                let j = choose|j: int|
                    0 <= j < n - 1 && (#[trigger] cat[j]).exclusivo && cat[j].categoria == g && propuesto(
                        cat[j],
                        hardware,
                    );
                assert(0 <= j < n && cat[j].exclusivo);
                assert(t0.contains(g));
                let i = choose|i: int| 0 <= i < t0.len() && t0[i] == g;
                if t1 != t0 {
                    assert(t1 == t0.push(c.categoria));
                    assert(t1[i] == g);
                }
            }
            if t1.contains(g) && !t0.contains(g) {
                let i = choose|i: int| 0 <= i < t1.len() && t1[i] == g;
                assert(t1 == t0.push(c.categoria));
                if i < t0.len() {
                    assert(t0[i] == g);
                }
                assert(g == c.categoria);
                assert(cat[n - 1].exclusivo && propuesto(cat[n - 1], hardware));
            }
        }
    }
}

/// **La preselección, entera**: en cualquier catálogo, lo que viene marcado
/// son los ids de los complementos propuestos —por defecto o por el hardware
/// detectado— en el orden del catálogo, salvo los exclusivos que ya tienen un
/// exclusivo propuesto de su categoría más arriba: de esos queda sólo el
/// primero.
pub proof fn la_preseleccion_son_los_propuestos_en_orden(cat: Seq<VistaComplemento>, hardware: Seq<Seq<char>>)
    ensures
        preseleccion_hasta(cat, hardware).0 == elegidos_hasta(cat, hardware, cat.len() as int),
{
    lemma_elegidos(cat, hardware, cat.len() as int);
    assert(cat.take(cat.len() as int) =~= cat);
}

pub open spec fn candidatas_catalogo() -> Seq<Seq<char>> {
    seq![
        "src-tauri/complementos.toml"@,
        "complementos.toml"@,
        "/usr/share/vasak-installer/complementos.toml"@,
    ]
}

/// Las rutas donde se busca el catálogo de complementos, en el orden en que se prueban.
pub fn candidatas_de_catalogo() -> (r: [&'static str; 3])
    ensures
        crate::archconfig::vistas_fijas(r@) == candidatas_catalogo(),
{
    let r: [&'static str; 3] = [
        "src-tauri/complementos.toml",
        "complementos.toml",
        "/usr/share/vasak-installer/complementos.toml",
    ];
    proof {
        assert(crate::archconfig::vistas_fijas(r@) =~= candidatas_catalogo());
    }
    r
}

/// Dónde está el catálogo de complementos, con el mismo orden de búsqueda que
/// los paquetes: el árbol de desarrollo primero y la ruta del paquete después.
///
/// A `es_archivo` se le pregunta por cada una de las candidatas fijas, en su
/// orden y ninguna otra ruta. Si cada archivo existe lo dice el disco; lo que
/// vuelve es la primera candidata que existía, y por eso una de ellas.
pub fn ruta() -> (r: Option<String>)
    ensures
        exists|existe: Seq<bool>|
            existe.len() == 3 && crate::archconfig::vista_texto_opcional(r)
                == #[trigger] crate::archconfig::primera_que_existe(candidatas_catalogo(), existe),
        match crate::archconfig::vista_texto_opcional(r) {
            Some(x) => candidatas_catalogo().contains(x),
            None => true,
        },
{
    let candidatas = candidatas_de_catalogo();
    let existe: [bool; 3] = [
        crate::entorno::es_archivo(candidatas[0]),
        crate::entorno::es_archivo(candidatas[1]),
        crate::entorno::es_archivo(candidatas[2]),
    ];
    let r = crate::archconfig::elegir_ruta(&candidatas, &existe);
    proof {
        crate::archconfig::lemma_primera_que_existe_es_candidata(
            crate::archconfig::vistas_fijas(candidatas@),
            existe@,
        );
        assert(crate::archconfig::vistas_fijas(candidatas@) =~= candidatas_catalogo());
        assert(existe@.len() == 3 && crate::archconfig::vista_texto_opcional(r)
            == crate::archconfig::primera_que_existe(candidatas_catalogo(), existe@));
    }
    r
}

} // verus!
