//! Que los paquetes elegidos se puedan instalar juntos, comprobado antes de
//! formatear.
//!
//! Una instalación real murió así: Firefox arrastra `ffmpeg`, `ffmpeg` pide el
//! `jack` virtual, pacman eligió `jack2`, y `jack2` choca con el
//! `pipewire-jack` que el escritorio exige. `pacstrap` lo dijo después de
//! formatear. `pacman -Sp` no detecta conflictos, así que la resolución se le
//! pide a pacman y la comparación se hace acá, con lo que la base de datos
//! declara: dos paquetes no conviven si uno choca con el nombre del otro, o con
//! un nombre virtual que el otro ocupa.

use vstd::prelude::*;

use crate::conjunto::{con, lemma_menor_total, menor, menor_texto, Conjunto};
use crate::orden::{lemma_primera, primera};
use crate::texto::{
    agregar, cadena, cadena_de, caracteres, copia, es_blanco, lineas, lineas_de, palabras,
    palabras_de, recortado, recortar, todo_blanco,
};

verus! {

broadcast use vstd::string::group_string_axioms;

/// Lo que la base de datos dice de un paquete.
#[derive(Debug)]
pub struct Ficha {
    pub nombre: String,
    /// Los nombres que ocupa además del suyo, incluidos los virtuales.
    pub provee: Conjunto,
    /// Con qué declara no poder convivir.
    pub conflictos: Conjunto,
}

pub struct VistaFicha {
    pub nombre: Seq<char>,
    pub provee: Seq<Seq<char>>,
    pub conflictos: Seq<Seq<char>>,
}

impl View for Ficha {
    type V = VistaFicha;

    open spec fn view(&self) -> VistaFicha {
        VistaFicha { nombre: self.nombre@, provee: self.provee@, conflictos: self.conflictos@ }
    }
}

pub open spec fn vistas_fichas(s: Seq<Ficha>) -> Seq<VistaFicha> {
    s.map_values(|f: Ficha| f@)
}

/// Dos paquetes que no pueden instalarse juntos.
#[derive(Debug, Clone, PartialEq, Eq)]
pub struct Choque {
    pub uno: String,
    pub otro: String,
    /// El nombre por el que chocan: el de un paquete, o el virtual que ocupa.
    /// Es el dato que dice qué proveedor hay que fijar.
    pub por: String,
}

impl View for Choque {
    type V = (Seq<char>, Seq<char>, Seq<char>);

    open spec fn view(&self) -> (Seq<char>, Seq<char>, Seq<char>) {
        (self.uno@, self.otro@, self.por@)
    }
}

impl Choque {
    /// El choque como frase.
    pub fn describir(&self) -> (r: String)
        ensures
            r@ == self.uno@ + " y "@ + self.otro@ + " no pueden convivir (por «"@ + self.por@
                + "»)"@,
    {
        let mut v: Vec<char> = Vec::new();
        agregar(&mut v, self.uno.as_str());
        agregar(&mut v, " y ");
        agregar(&mut v, self.otro.as_str());
        agregar(&mut v, " no pueden convivir (por «");
        agregar(&mut v, self.por.as_str());
        agregar(&mut v, "»)");
        cadena_de(v)
    }
}

// ── Nombres y versiones ─────────────────────────────────────────────────────

pub open spec fn es_de_version(c: char) -> bool {
    c == '<' || c == '>' || c == '='
}

pub open spec fn de_version() -> spec_fn(char) -> bool {
    |c: char| es_de_version(c)
}

/// La entrada sin la restricción de versión: `foo>=1.2` es `foo`.
pub open spec fn nombre_solo_spec(e: Seq<char>) -> Seq<char> {
    let k = primera(e, de_version());
    if k >= 0 {
        e.take(k)
    } else {
        e
    }
}

/// Si la entrada lleva restricción de versión.
pub open spec fn versionada_spec(e: Seq<char>) -> bool {
    exists|i: int| 0 <= i < e.len() && es_de_version(#[trigger] e[i])
}

fn primer_de_version(c: &Vec<char>) -> (r: Option<usize>)
    ensures
        match r {
            Some(k) => k == primera(c@, de_version()) && k < c.len(),
            None => primera(c@, de_version()) == -1,
        },
{
    let mut i: usize = 0;
    while i < c.len()
        invariant
            i <= c.len(),
            forall|j: int| 0 <= j < i ==> !de_version()(#[trigger] c@[j]),
        decreases c.len() - i,
    {
        if c[i] == '<' || c[i] == '>' || c[i] == '=' {
            proof {
                lemma_primera(c@, de_version(), i as int);
            }
            return Some(i);
        }
        i = i + 1;
    }
    proof {
        lemma_primera(c@, de_version(), i as int);
    }
    None
}

/// Le saca la restricción de versión a una entrada de dependencia. Los
/// `libfoo.so=0-64` quedan con su nombre de biblioteca, que es lo que se
/// compara de ellos.
pub fn nombre_solo(entrada: &str) -> (r: String)
    ensures
        r@ == nombre_solo_spec(entrada@),
{
    let c = caracteres(entrada);
    match primer_de_version(&c) {
        None => cadena(entrada),
        Some(k) => {
            let mut v: Vec<char> = Vec::new();
            let mut i: usize = 0;
            while i < k
                invariant
                    i <= k < c.len(),
                    v@ == c@.take(i as int),
                decreases k - i,
            {
                v.push(c[i]);
                assert(v@ =~= c@.take(i as int + 1));
                i = i + 1;
            }
            cadena_de(v)
        },
    }
}

/// Si la entrada lleva restricción de versión.
///
/// Las versionadas se ignoran a propósito: un `conflicts=('foo<1.2')` suele
/// estar satisfecho en una instalación nueva. Este módulo puede pasar por alto
/// un conflicto; lo que no puede es inventar uno.
pub fn versionada(entrada: &str) -> (r: bool)
    ensures
        r == versionada_spec(entrada@),
{
    let c = caracteres(entrada);
    match primer_de_version(&c) {
        Some(k) => {
            proof {
                crate::orden::lemma_primera_encontro(c@, de_version());
                assert(de_version()(c@[k as int]));
            }
            true
        },
        None => {
            proof {
                crate::orden::lemma_primera_encontro(c@, de_version());
            }
            false
        },
    }
}

// ── Sumar nombres ───────────────────────────────────────────────────────────

/// Un conjunto con las palabras de una lista, salteando `None`.
pub open spec fn con_palabras(s: Seq<Seq<char>>, ws: Seq<Seq<char>>) -> Seq<Seq<char>>
    decreases ws.len(),
{
    if ws.len() == 0 {
        s
    } else {
        let antes = con_palabras(s, ws.drop_last());
        if ws.last() == "None"@ {
            antes
        } else {
            con(antes, ws.last())
        }
    }
}

/// Suma las entradas de una línea al conjunto, salteando `None`.
pub fn sumar(destino: &mut Conjunto, texto: &str)
    ensures
        final(destino)@ == con_palabras(old(destino)@, palabras(texto@)),
{
    let ws = palabras_de(texto);
    let ghost vw = ws@.map_values(|w: Vec<char>| w@);
    let mut i: usize = 0;
    while i < ws.len()
        invariant
            i <= ws.len(),
            vw == ws@.map_values(|w: Vec<char>| w@),
            vw == palabras(texto@),
            destino@ == con_palabras(old(destino)@, vw.take(i as int)),
        decreases ws.len() - i,
    {
        proof {
            assert(vw.take(i as int + 1).drop_last() =~= vw.take(i as int));
            assert(vw.take(i as int + 1).last() == ws@[i as int]@);
        }
        let entrada = cadena_de(copia(&ws[i]));
        if !crate::texto::iguales(entrada.as_str(), "None") {
            destino.insert(entrada);
        }
        i = i + 1;
    }
    assert(vw.take(i as int) =~= vw);
}

// ── Leer la salida de pacman ────────────────────────────────────────────────

/// Cuál de los campos que interesan viene continuando en la línea de abajo.
#[derive(Debug, Clone, Copy, PartialEq, Eq, Structural)]
pub enum Campo {
    Ninguno,
    Provee,
    Conflictos,
}

/// Lo que se lleva leído.
pub struct Lectura {
    pub fichas: Seq<VistaFicha>,
    pub nombre: Seq<char>,
    pub provee: Seq<Seq<char>>,
    pub conflictos: Seq<Seq<char>>,
    pub campo: Campo,
}

/// Cierra la ficha en curso, si tiene nombre. Sin nombre no se cierra nada,
/// y lo juntado sigue para la próxima.
pub open spec fn cerrar(l: Lectura) -> Lectura {
    if l.nombre.len() > 0 {
        Lectura {
            fichas: l.fichas.push(
                VistaFicha { nombre: l.nombre, provee: l.provee, conflictos: l.conflictos },
            ),
            nombre: seq![],
            provee: seq![],
            conflictos: seq![],
            campo: l.campo,
        }
    } else {
        l
    }
}

pub open spec fn es_dos_puntos() -> spec_fn(char) -> bool {
    |c: char| c == ':'
}

/// Una línea de `LC_ALL=C pacman -Si`.
pub open spec fn leer_linea(l: Lectura, linea: Seq<char>) -> Lectura {
    if todo_blanco(linea) {
        Lectura { campo: Campo::Ninguno, ..cerrar(l) }
    } else if es_blanco(linea[0]) {
        match l.campo {
            Campo::Ninguno => l,
            Campo::Provee => Lectura { provee: con_palabras(l.provee, palabras(linea)), ..l },
            Campo::Conflictos => Lectura {
                conflictos: con_palabras(l.conflictos, palabras(linea)),
                ..l
            },
        }
    } else {
        let k = primera(linea, es_dos_puntos());
        if k < 0 {
            Lectura { campo: Campo::Ninguno, ..l }
        } else {
            let clave = recortado(linea.take(k));
            let valor = recortado(linea.skip(k + 1));
            if clave == "Name"@ {
                Lectura { nombre: valor, campo: Campo::Ninguno, ..cerrar(l) }
            } else if clave == "Provides"@ {
                Lectura {
                    campo: Campo::Provee,
                    provee: con_palabras(l.provee, palabras(valor)),
                    ..l
                }
            } else if clave == "Conflicts With"@ {
                Lectura {
                    campo: Campo::Conflictos,
                    conflictos: con_palabras(l.conflictos, palabras(valor)),
                    ..l
                }
            } else {
                Lectura { campo: Campo::Ninguno, ..l }
            }
        }
    }
}

pub open spec fn lectura_inicial() -> Lectura {
    Lectura {
        fichas: seq![],
        nombre: seq![],
        provee: seq![],
        conflictos: seq![],
        campo: Campo::Ninguno,
    }
}

pub open spec fn leer_lineas(ls: Seq<Seq<char>>) -> Lectura
    decreases ls.len(),
{
    if ls.len() == 0 {
        lectura_inicial()
    } else {
        leer_linea(leer_lineas(ls.drop_last()), ls.last())
    }
}

/// Las fichas que describe la salida de `LC_ALL=C pacman -Si`.
pub open spec fn fichas_spec(salida: Seq<char>) -> Seq<VistaFicha> {
    cerrar(leer_lineas(lineas(salida))).fichas
}

/// La parte de la línea desde `desde` hasta antes de `hasta`.
fn tramo(c: &Vec<char>, desde: usize, hasta: usize) -> (r: Vec<char>)
    requires
        desde <= hasta <= c.len(),
    ensures
        r@ == c@.subrange(desde as int, hasta as int),
{
    let mut v: Vec<char> = Vec::new();
    let mut i: usize = desde;
    while i < hasta
        invariant
            desde <= i <= hasta <= c.len(),
            v@ == c@.subrange(desde as int, i as int),
        decreases hasta - i,
    {
        v.push(c[i]);
        assert(v@ =~= c@.subrange(desde as int, i as int + 1));
        i = i + 1;
    }
    v
}

fn solo_blancos(c: &Vec<char>) -> (r: bool)
    ensures
        r == todo_blanco(c@),
{
    let mut i: usize = 0;
    while i < c.len()
        invariant
            i <= c.len(),
            forall|j: int| 0 <= j < i ==> es_blanco(#[trigger] c@[j]),
        decreases c.len() - i,
    {
        if !crate::texto::blanco(c[i]) {
            return false;
        }
        i = i + 1;
    }
    true
}

fn primer_dos_puntos(c: &Vec<char>) -> (r: Option<usize>)
    ensures
        match r {
            Some(k) => k == primera(c@, es_dos_puntos()) && k < c.len(),
            None => primera(c@, es_dos_puntos()) == -1,
        },
{
    let mut i: usize = 0;
    while i < c.len()
        invariant
            i <= c.len(),
            forall|j: int| 0 <= j < i ==> !es_dos_puntos()(#[trigger] c@[j]),
        decreases c.len() - i,
    {
        if c[i] == ':' {
            proof {
                lemma_primera(c@, es_dos_puntos(), i as int);
            }
            return Some(i);
        }
        i = i + 1;
    }
    proof {
        lemma_primera(c@, es_dos_puntos(), i as int);
    }
    None
}

/// Lo que se lleva leído, como valores de ejecución.
struct EnCurso {
    fichas: Vec<Ficha>,
    nombre: String,
    provee: Conjunto,
    conflictos: Conjunto,
    campo: Campo,
}

impl View for EnCurso {
    type V = Lectura;

    closed spec fn view(&self) -> Lectura {
        Lectura {
            fichas: vistas_fichas(self.fichas@),
            nombre: self.nombre@,
            provee: self.provee@,
            conflictos: self.conflictos@,
            campo: self.campo,
        }
    }
}

impl EnCurso {
    fn cerrar(&mut self)
        ensures
            final(self)@ == cerrar(old(self)@),
    {
        if !self.nombre.as_str().is_empty() {
            let ghost antes = self@;
            let mut nombre = String::new();
            let mut provee = Conjunto::new();
            let mut conflictos = Conjunto::new();
            std::mem::swap(&mut nombre, &mut self.nombre);
            std::mem::swap(&mut provee, &mut self.provee);
            std::mem::swap(&mut conflictos, &mut self.conflictos);
            let ghost fa = self.fichas@;
            self.fichas.push(Ficha { nombre, provee, conflictos });
            assert(vistas_fichas(self.fichas@) =~= vistas_fichas(fa).push(
                VistaFicha { nombre: antes.nombre, provee: antes.provee, conflictos: antes.conflictos },
            ));
            assert(self@.nombre =~= Seq::<char>::empty());
        } else {
            assert(self.nombre@.len() == 0);
        }
    }

    fn leer_linea(&mut self, linea: &Vec<char>)
        ensures
            final(self)@ == leer_linea(old(self)@, linea@),
    {
        if solo_blancos(linea) {
            self.cerrar();
            self.campo = Campo::Ninguno;
            return;
        }
        if crate::texto::blanco(linea[0]) {
            let texto = cadena_de(copia(linea));
            match self.campo {
                Campo::Ninguno => {},
                Campo::Provee => sumar(&mut self.provee, texto.as_str()),
                Campo::Conflictos => sumar(&mut self.conflictos, texto.as_str()),
            }
            return;
        }
        let k = match primer_dos_puntos(linea) {
            None => {
                self.campo = Campo::Ninguno;
                return;
            },
            Some(k) => k,
        };
        let clave = cadena_de(recortar(&tramo(linea, 0, k)));
        let valor = cadena_de(recortar(&tramo(linea, k + 1, linea.len())));
        proof {
            assert(linea@.subrange(0, k as int) =~= linea@.take(k as int));
            assert(linea@.subrange(k + 1, linea.len() as int) =~= linea@.skip(k + 1));
        }
        if crate::texto::iguales(clave.as_str(), "Name") {
            self.cerrar();
            self.nombre = valor;
            self.campo = Campo::Ninguno;
        } else if crate::texto::iguales(clave.as_str(), "Provides") {
            self.campo = Campo::Provee;
            sumar(&mut self.provee, valor.as_str());
        } else if crate::texto::iguales(clave.as_str(), "Conflicts With") {
            self.campo = Campo::Conflictos;
            sumar(&mut self.conflictos, valor.as_str());
        } else {
            self.campo = Campo::Ninguno;
        }
    }
}

/// Lee la salida de `LC_ALL=C pacman -Si`.
///
/// Los nombres de los campos se leen en inglés, que son estables. Los valores
/// largos siguen en las líneas de abajo, indentados, y se pegan al campo que
/// venía; cualquier otro campo corta la continuación. Un `Name` nuevo cierra
/// la ficha anterior aunque no haya línea vacía en el medio: un paquete que
/// está en dos repositorios se imprime dos veces seguidas.
pub fn leer_fichas(salida: &str) -> (r: Vec<Ficha>)
    ensures
        vistas_fichas(r@) == fichas_spec(salida@),
{
    let ls = lineas_de(salida);
    let ghost vl = ls@.map_values(|t: Vec<char>| t@);
    let mut estado = EnCurso {
        fichas: Vec::new(),
        nombre: String::new(),
        provee: Conjunto::new(),
        conflictos: Conjunto::new(),
        campo: Campo::Ninguno,
    };
    proof {
        assert(estado@.fichas =~= Seq::<VistaFicha>::empty());
        assert(estado@ == lectura_inicial());
    }
    let mut i: usize = 0;
    while i < ls.len()
        invariant
            i <= ls.len(),
            vl == ls@.map_values(|t: Vec<char>| t@),
            vl == lineas(salida@),
            estado@ == leer_lineas(vl.take(i as int)),
        decreases ls.len() - i,
    {
        proof {
            assert(vl.take(i as int + 1).drop_last() =~= vl.take(i as int));
            assert(vl.take(i as int + 1).last() == ls@[i as int]@);
        }
        estado.leer_linea(&ls[i]);
        i = i + 1;
    }
    assert(vl.take(i as int) =~= vl);
    estado.cerrar();
    estado.fichas
}

// ── Los choques ─────────────────────────────────────────────────────────────

/// Las fichas sin repetir nombre, quedándose con la primera: es la que
/// pacman instalaría, porque elige por orden de repositorio.
pub open spec fn unicas(fs: Seq<VistaFicha>) -> Seq<VistaFicha>
    decreases fs.len(),
{
    if fs.len() == 0 {
        seq![]
    } else {
        let u = unicas(fs.drop_last());
        if exists|k: int| 0 <= k < u.len() && #[trigger] u[k].nombre == fs.last().nombre {
            u
        } else {
            u.push(fs.last())
        }
    }
}

/// Si un paquete ocupa un nombre: el suyo, o uno que provee.
pub open spec fn ocupa(g: VistaFicha, n: Seq<char>) -> bool {
    g.nombre == n || exists|i: int| 0 <= i < g.provee.len() && nombre_solo_spec(#[trigger] g.provee[i]) == n
}

/// Quiénes ocupan un nombre, en orden.
pub open spec fn duenos(u: Seq<VistaFicha>, n: Seq<char>) -> Seq<Seq<char>>
    decreases u.len(),
{
    if u.len() == 0 {
        seq![]
    } else {
        duenos(u.drop_last(), n) + if ocupa(u.last(), n) {
            seq![u.last().nombre]
        } else {
            seq![]
        }
    }
}

/// El par con los dos nombres en orden, para que «a choca con b» y «b choca
/// con a» sean el mismo hallazgo.
pub open spec fn par(a: Seq<char>, b: Seq<char>) -> (Seq<char>, Seq<char>) {
    if menor_texto(a, b) {
        (a, b)
    } else {
        (b, a)
    }
}

pub type Evento = ((Seq<char>, Seq<char>), Seq<char>);

/// Los hallazgos de un paquete contra los dueños de un nombre.
pub open spec fn contra_duenos(a: Seq<char>, n: Seq<char>, ds: Seq<Seq<char>>) -> Seq<Evento>
    decreases ds.len(),
{
    if ds.len() == 0 {
        seq![]
    } else {
        contra_duenos(a, n, ds.drop_last()) + if ds.last() == a {
            seq![]
        } else {
            seq![(par(a, ds.last()), n)]
        }
    }
}

/// Los hallazgos de un paquete por cada uno de sus conflictos, en orden; los
/// versionados no cuentan.
pub open spec fn por_conflictos(u: Seq<VistaFicha>, a: Seq<char>, cs: Seq<Seq<char>>) -> Seq<Evento>
    decreases cs.len(),
{
    if cs.len() == 0 {
        seq![]
    } else {
        let c = cs.last();
        por_conflictos(u, a, cs.drop_last()) + if versionada_spec(c) {
            seq![]
        } else {
            contra_duenos(a, nombre_solo_spec(c), duenos(u, nombre_solo_spec(c)))
        }
    }
}

/// Los hallazgos de los primeros `k` paquetes.
pub open spec fn hallazgos(u: Seq<VistaFicha>, k: int) -> Seq<Evento>
    decreases k,
{
    if k <= 0 {
        seq![]
    } else {
        hallazgos(u, k - 1) + por_conflictos(u, u[k - 1].nombre, u[k - 1].conflictos)
    }
}

/// Cada par una sola vez, con el primer nombre por el que se lo encontró.
pub open spec fn sin_repetir(es: Seq<Evento>) -> Seq<Evento>
    decreases es.len(),
{
    if es.len() == 0 {
        seq![]
    } else {
        let d = sin_repetir(es.drop_last());
        if exists|k: int| 0 <= k < d.len() && #[trigger] d[k].0 == es.last().0 {
            d
        } else {
            d.push(es.last())
        }
    }
}

/// Los choques de un conjunto de paquetes ya resuelto.
pub open spec fn choques_spec(fs: Seq<VistaFicha>) -> Seq<(Seq<char>, Seq<char>, Seq<char>)> {
    let u = unicas(fs);
    sin_repetir(hallazgos(u, u.len() as int)).map_values(|e: Evento| (e.0.0, e.0.1, e.1))
}

pub open spec fn vistas_choques(s: Seq<Choque>) -> Seq<(Seq<char>, Seq<char>, Seq<char>)> {
    s.map_values(|c: Choque| c@)
}

/// Si un paquete ocupa un nombre.
fn ocupa_exec(g: &Ficha, n: &str) -> (r: bool)
    ensures
        r == ocupa(g@, n@),
{
    if crate::texto::iguales(g.nombre.as_str(), n) {
        return true;
    }
    let mut i: usize = 0;
    let m = g.provee.len();
    while i < m
        invariant
            i <= m,
            m == g.provee@.len(),
            g.nombre@ != n@,
            forall|j: int| 0 <= j < i ==> nombre_solo_spec(#[trigger] g.provee@[j]) != n@,
        decreases m - i,
    {
        let p = g.provee.get(i);
        let solo = nombre_solo(p.as_str());
        if crate::texto::iguales(solo.as_str(), n) {
            assert(nombre_solo_spec(g@.provee[i as int]) == n@);
            return true;
        }
        i = i + 1;
    }
    false
}

/// El par ordenado, como valores.
fn par_exec(a: &str, b: &str) -> (r: (String, String))
    ensures
        (r.0@, r.1@) == par(a@, b@),
{
    if menor(a, b) {
        (cadena(a), cadena(b))
    } else {
        (cadena(b), cadena(a))
    }
}

/// Si el par ya se informó.
fn ya_informado(hechos: &Vec<Choque>, p: &(String, String)) -> (r: bool)
    ensures
        r == exists|k: int|
            0 <= k < hechos@.len() && (#[trigger] hechos@[k]).uno@ == p.0@ && hechos@[k].otro@
                == p.1@,
{
    let mut i: usize = 0;
    while i < hechos.len()
        invariant
            i <= hechos.len(),
            forall|k: int|
                0 <= k < i ==> !((#[trigger] hechos@[k]).uno@ == p.0@ && hechos@[k].otro@ == p.1@),
        decreases hechos.len() - i,
    {
        if crate::texto::iguales(hechos[i].uno.as_str(), p.0.as_str())
            && crate::texto::iguales(hechos[i].otro.as_str(), p.1.as_str()) {
            return true;
        }
        i = i + 1;
    }
    false
}

pub open spec fn choque_de(e: Evento) -> (Seq<char>, Seq<char>, Seq<char>) {
    (e.0.0, e.0.1, e.1)
}

/// Lo hallado hasta ahora, sin repetir, es lo que se lleva.
pub open spec fn lleva(hechos: Seq<Choque>, es: Seq<Evento>) -> bool {
    vistas_choques(hechos) == sin_repetir(es).map_values(|e: Evento| choque_de(e))
}

proof fn lemma_sumar_evento(hechos: Seq<Choque>, es: Seq<Evento>, e: Evento)
    requires
        lleva(hechos, es),
    ensures
        (exists|k: int|
            0 <= k < hechos.len() && (#[trigger] hechos[k]).uno@ == e.0.0 && hechos[k].otro@
                == e.0.1) ==> sin_repetir(es.push(e)) == sin_repetir(es),
        !(exists|k: int|
            0 <= k < hechos.len() && (#[trigger] hechos[k]).uno@ == e.0.0 && hechos[k].otro@
                == e.0.1) ==> sin_repetir(es.push(e)) == sin_repetir(es).push(e),
{
    let d = sin_repetir(es);
    assert(es.push(e).drop_last() =~= es);
    assert(vistas_choques(hechos).len() == hechos.len());
    assert(d.map_values(|e: Evento| choque_de(e)).len() == d.len());
    assert(hechos.len() == d.len());
    if exists|k: int|
        0 <= k < hechos.len() && (#[trigger] hechos[k]).uno@ == e.0.0 && hechos[k].otro@ == e.0.1 {
        let k = choose|k: int|
            0 <= k < hechos.len() && (#[trigger] hechos[k]).uno@ == e.0.0 && hechos[k].otro@
                == e.0.1;
        assert(vistas_choques(hechos)[k] == choque_de(d[k]));
        assert(d[k].0 == e.0);
    } else {
        if exists|k: int| 0 <= k < d.len() && #[trigger] d[k].0 == e.0 {
            let k = choose|k: int| 0 <= k < d.len() && #[trigger] d[k].0 == e.0;
            assert(vistas_choques(hechos)[k] == choque_de(d[k]));
            assert(hechos[k].uno@ == e.0.0);
        }
    }
}

/// Busca pares que no puedan convivir en un conjunto ya resuelto.
///
/// Un paquete choca con otro si lo nombra en sus conflictos, o si nombra un
/// virtual que el otro ocupa. Se mira en las dos direcciones porque sólo uno
/// de los dos suele declararlo, y cada par se informa una vez. De un nombre
/// repetido se conserva la primera ficha, que es la que pacman instalaría.
pub fn choques(fichas: &[Ficha]) -> (r: Vec<Choque>)
    ensures
        vistas_choques(r@) == choques_spec(vistas_fichas(fichas@)),
{
    let ghost fs = vistas_fichas(fichas@);
    // Las posiciones de la primera ficha de cada nombre.
    let mut unicas_idx: Vec<usize> = Vec::new();
    let mut i: usize = 0;
    while i < fichas.len()
        invariant
            i <= fichas.len(),
            fs == vistas_fichas(fichas@),
            forall|k: int| 0 <= k < unicas_idx@.len() ==> (#[trigger] unicas_idx@[k]) < fichas.len(),
            unicas_idx@.map_values(|x: usize| fs[x as int]) == unicas(fs.take(i as int)),
        decreases fichas.len() - i,
    {
        let ghost u = unicas_idx@.map_values(|x: usize| fs[x as int]);
        proof {
            assert(fs.take(i as int + 1).drop_last() =~= fs.take(i as int));
            assert(fs.take(i as int + 1).last() == fs[i as int]);
        }
        let mut visto = false;
        let mut k: usize = 0;
        while k < unicas_idx.len()
            invariant
                k <= unicas_idx.len(),
                i < fichas.len(),
                fs == vistas_fichas(fichas@),
                u == unicas_idx@.map_values(|x: usize| fs[x as int]),
                forall|j: int| 0 <= j < unicas_idx@.len() ==> (#[trigger] unicas_idx@[j]) < fichas.len(),
                visto == exists|j: int| 0 <= j < k && #[trigger] u[j].nombre == fs[i as int].nombre,
            decreases unicas_idx.len() - k,
        {
            let x = unicas_idx[k];
            assert(u[k as int] == fs[x as int]);
            assert(fs[x as int] == fichas@[x as int]@);
            assert(fs[i as int] == fichas@[i as int]@);
            if crate::texto::iguales(fichas[x].nombre.as_str(), fichas[i].nombre.as_str()) {
                assert(u[k as int].nombre == fs[i as int].nombre);
                visto = true;
            } else {
                assert(u[k as int].nombre != fs[i as int].nombre);
            }
            k = k + 1;
        }
        if !visto {
            let ghost antes = unicas_idx@;
            unicas_idx.push(i);
            assert(unicas_idx@.map_values(|x: usize| fs[x as int]) =~= antes.map_values(
                |x: usize| fs[x as int],
            ).push(fs[i as int]));
        }
        i = i + 1;
    }
    assert(fs.take(i as int) =~= fs);
    let ghost u = unicas_idx@.map_values(|x: usize| fs[x as int]);
    assert(u == unicas(fs));

    let mut hechos: Vec<Choque> = Vec::new();
    let mut a: usize = 0;
    proof {
        assert(vistas_choques(hechos@) =~= Seq::<(Seq<char>, Seq<char>, Seq<char>)>::empty());
        assert(sin_repetir(hallazgos(u, 0)).map_values(|e: Evento| choque_de(e)) =~= Seq::<
            (Seq<char>, Seq<char>, Seq<char>),
        >::empty());
    }
    while a < unicas_idx.len()
        invariant
            a <= unicas_idx.len(),
            fs == vistas_fichas(fichas@),
            u == unicas_idx@.map_values(|x: usize| fs[x as int]),
            forall|k: int| 0 <= k < unicas_idx@.len() ==> (#[trigger] unicas_idx@[k]) < fichas.len(),
            lleva(hechos@, hallazgos(u, a as int)),
        decreases unicas_idx.len() - a,
    {
        let f = &fichas[unicas_idx[a]];
        assert(u[a as int] == f@);
        let ghost base = hallazgos(u, a as int);
        let nc = f.conflictos.len();
        let mut c: usize = 0;
        proof {
            assert(f@.conflictos.take(0) =~= Seq::<Seq<char>>::empty());
            assert(base + por_conflictos(u, f@.nombre, f@.conflictos.take(0)) =~= base);
        }
        while c < nc
            invariant
                c <= nc,
                nc == f@.conflictos.len(),
                fs == vistas_fichas(fichas@),
                u == unicas_idx@.map_values(|x: usize| fs[x as int]),
                forall|k: int| 0 <= k < unicas_idx@.len() ==> (#[trigger] unicas_idx@[k]) < fichas.len(),
                lleva(hechos@, base + por_conflictos(u, f@.nombre, f@.conflictos.take(c as int))),
            decreases nc - c,
        {
            let conflicto = f.conflictos.get(c);
            let ghost antes_c = base + por_conflictos(u, f@.nombre, f@.conflictos.take(c as int));
            proof {
                assert(f@.conflictos.take(c as int + 1).drop_last() =~= f@.conflictos.take(c as int));
                assert(f@.conflictos.take(c as int + 1).last() == conflicto@);
            }
            if versionada(conflicto.as_str()) {
                assert(base + por_conflictos(u, f@.nombre, f@.conflictos.take(c as int + 1)) =~= antes_c);
            } else {
                let nombre = nombre_solo(conflicto.as_str());
                let ghost ds = duenos(u, nombre@);
                // Los dueños del nombre, recorridos en orden.
                let mut d: usize = 0;
                let mut vistos_duenos: usize = 0;
                proof {
                    assert(duenos(u, nombre@) == duenos(u.take(u.len() as int), nombre@)) by {
                        assert(u.take(u.len() as int) =~= u);
                    }
                    assert(antes_c + contra_duenos(f@.nombre, nombre@, duenos(u.take(0), nombre@)) =~= antes_c);
                }
                while d < unicas_idx.len()
                    invariant
                        d <= unicas_idx.len(),
                        fs == vistas_fichas(fichas@),
                        u == unicas_idx@.map_values(|x: usize| fs[x as int]),
                        forall|k: int| 0 <= k < unicas_idx@.len() ==> (#[trigger] unicas_idx@[k]) < fichas.len(),
                        lleva(hechos@, antes_c + contra_duenos(f@.nombre, nombre@, duenos(u.take(d as int), nombre@))),
                    decreases unicas_idx.len() - d,
                {
                    let g = &fichas[unicas_idx[d]];
                    assert(u[d as int] == g@);
                    let ghost previo = antes_c + contra_duenos(f@.nombre, nombre@, duenos(u.take(d as int), nombre@));
                    proof {
                        assert(u.take(d as int + 1).drop_last() =~= u.take(d as int));
                        assert(u.take(d as int + 1).last() == g@);
                    }
                    if ocupa_exec(g, nombre.as_str()) {
                        let ghost dd = duenos(u.take(d as int), nombre@);
                        assert(duenos(u.take(d as int + 1), nombre@) =~= dd.push(g@.nombre));
                        assert(dd.push(g@.nombre).drop_last() =~= dd);
                        if crate::texto::iguales(g.nombre.as_str(), f.nombre.as_str()) {
                            assert(contra_duenos(f@.nombre, nombre@, dd.push(g@.nombre)) =~= contra_duenos(f@.nombre, nombre@, dd));
                        } else {
                            let p = par_exec(f.nombre.as_str(), g.nombre.as_str());
                            let ghost e: Evento = (par(f@.nombre, g@.nombre), nombre@);
                            assert(contra_duenos(f@.nombre, nombre@, dd.push(g@.nombre)) =~= contra_duenos(f@.nombre, nombre@, dd).push(e));
                            assert(antes_c + contra_duenos(f@.nombre, nombre@, dd.push(g@.nombre)) =~= previo.push(e));
                            proof {
                                lemma_sumar_evento(hechos@, previo, e);
                            }
                            if !ya_informado(&hechos, &p) {
                                let ghost hv = hechos@;
                                let (uno, otro) = p;
                                hechos.push(Choque { uno, otro, por: cadena(nombre.as_str()) });
                                assert(vistas_choques(hechos@) =~= vistas_choques(hv).push(choque_de(e)));
                                assert(sin_repetir(previo.push(e)).map_values(|e: Evento| choque_de(e)) =~= sin_repetir(previo).map_values(|e: Evento| choque_de(e)).push(choque_de(e)));
                            }
                        }
                    } else {
                        assert(duenos(u.take(d as int + 1), nombre@) =~= duenos(u.take(d as int), nombre@));
                    }
                    d = d + 1;
                }
                proof {
                    assert(u.take(d as int) =~= u);
                    assert(base + por_conflictos(u, f@.nombre, f@.conflictos.take(c as int + 1)) =~= antes_c + contra_duenos(f@.nombre, nombre@, ds));
                }
            }
            c = c + 1;
        }
        proof {
            assert(f@.conflictos.take(c as int) =~= f@.conflictos);
            assert(hallazgos(u, a as int + 1) == base + por_conflictos(u, u[a as int].nombre, u[a as int].conflictos));
        }
        a = a + 1;
    }
    hechos
}

// ── Lo que se promete de los choques ────────────────────────────────────────

/// Si la ficha declara, sin versión, un conflicto con ese nombre.
pub open spec fn declara(f: VistaFicha, n: Seq<char>) -> bool {
    exists|m: int|
        0 <= m < f.conflictos.len() && !versionada_spec(#[trigger] f.conflictos[m])
            && nombre_solo_spec(f.conflictos[m]) == n
}

/// Que un choque esté respaldado por lo que declaran las fichas: uno de los
/// dos paquetes declara, sin versión, un conflicto con `por`, y el otro —que
/// es otro paquete— ocupa ese nombre.
pub open spec fn justificado(s: Seq<VistaFicha>, uno: Seq<char>, otro: Seq<char>, por: Seq<char>) -> bool {
    exists|a: int, b: int|
        #![trigger s[a], s[b]]
        0 <= a < s.len() && 0 <= b < s.len() && s[a].nombre != s[b].nombre && (uno, otro) == par(
            s[a].nombre,
            s[b].nombre,
        ) && declara(s[a], por) && ocupa(s[b], por)
}

pub open spec fn evento_justificado(s: Seq<VistaFicha>, e: Evento) -> bool {
    justificado(s, e.0.0, e.0.1, e.1)
}

/// Que un nombre sea el de alguna ficha que ocupa `n`.
spec fn dueno_valido(u: Seq<VistaFicha>, n: Seq<char>, x: Seq<char>) -> bool {
    exists|j: int| 0 <= j < u.len() && x == (#[trigger] u[j]).nombre && ocupa(u[j], n)
}

proof fn lemma_duenos(u: Seq<VistaFicha>, n: Seq<char>)
    ensures
        forall|m: int| 0 <= m < duenos(u, n).len() ==> dueno_valido(u, n, #[trigger] duenos(u, n)[m]),
    decreases u.len(),
{
    if u.len() > 0 {
        let v = u.drop_last();
        lemma_duenos(v, n);
        let d = duenos(u, n);
        let dv = duenos(v, n);
        assert forall|m: int| 0 <= m < d.len() implies dueno_valido(u, n, #[trigger] d[m]) by {
            if m < dv.len() {
                assert(d[m] == dv[m]);
                assert(dueno_valido(v, n, dv[m]));
                let j = choose|j: int| 0 <= j < v.len() && dv[m] == (#[trigger] v[j]).nombre && ocupa(v[j], n);
                assert(u[j] == v[j]);
            } else {
                let j = u.len() - 1;
                assert(ocupa(u.last(), n));
                assert(d[m] == u.last().nombre);
                assert(u[j] == u.last());
            }
        }
    }
}

proof fn lemma_contra_duenos(u: Seq<VistaFicha>, i: int, n: Seq<char>, ds: Seq<Seq<char>>)
    requires
        0 <= i < u.len(),
        declara(u[i], n),
        forall|m: int| 0 <= m < ds.len() ==> dueno_valido(u, n, #[trigger] ds[m]),
    ensures
        forall|k: int|
            0 <= k < contra_duenos(u[i].nombre, n, ds).len() ==> evento_justificado(
                u,
                #[trigger] contra_duenos(u[i].nombre, n, ds)[k],
            ),
    decreases ds.len(),
{
    if ds.len() > 0 {
        let ds0 = ds.drop_last();
        assert forall|m: int| 0 <= m < ds0.len() implies dueno_valido(u, n, #[trigger] ds0[m]) by {
            assert(ds0[m] == ds[m]);
        }
        lemma_contra_duenos(u, i, n, ds0);
        let a = u[i].nombre;
        let antes = contra_duenos(a, n, ds0);
        let todo = contra_duenos(a, n, ds);
        assert forall|k: int| 0 <= k < todo.len() implies evento_justificado(u, #[trigger] todo[k]) by {
            if k < antes.len() {
                assert(todo[k] == antes[k]);
            } else {
                let d = ds.last();
                assert(ds[ds.len() - 1] == d);
                assert(dueno_valido(u, n, ds[ds.len() - 1]));
                let j = choose|j: int| 0 <= j < u.len() && d == (#[trigger] u[j]).nombre && ocupa(u[j], n);
                assert(d != a);
                assert(todo[k] == (par(a, d), n));
                assert(u[i].nombre != u[j].nombre);
            }
        }
    }
}

proof fn lemma_por_conflictos(u: Seq<VistaFicha>, i: int, c: int)
    requires
        0 <= i < u.len(),
        0 <= c <= u[i].conflictos.len(),
    ensures
        forall|k: int|
            0 <= k < por_conflictos(u, u[i].nombre, u[i].conflictos.take(c)).len()
                ==> evento_justificado(
                u,
                #[trigger] por_conflictos(u, u[i].nombre, u[i].conflictos.take(c))[k],
            ),
    decreases c,
{
    if c > 0 {
        let cs = u[i].conflictos.take(c);
        assert(cs.drop_last() =~= u[i].conflictos.take(c - 1));
        lemma_por_conflictos(u, i, c - 1);
        let x = cs.last();
        assert(x == u[i].conflictos[c - 1]);
        let antes = por_conflictos(u, u[i].nombre, u[i].conflictos.take(c - 1));
        let todo = por_conflictos(u, u[i].nombre, cs);
        if !versionada_spec(x) {
            let n = nombre_solo_spec(x);
            assert(declara(u[i], n));
            lemma_duenos(u, n);
            lemma_contra_duenos(u, i, n, duenos(u, n));
        }
        assert forall|k: int| 0 <= k < todo.len() implies evento_justificado(u, #[trigger] todo[k]) by {
            if k < antes.len() {
                assert(todo[k] == antes[k]);
            } else {
                let n = nombre_solo_spec(x);
                assert(todo[k] == contra_duenos(u[i].nombre, n, duenos(u, n))[k - antes.len()]);
            }
        }
    }
}

proof fn lemma_hallazgos(u: Seq<VistaFicha>, k: int)
    requires
        0 <= k <= u.len(),
    ensures
        forall|m: int|
            0 <= m < hallazgos(u, k).len() ==> evento_justificado(u, #[trigger] hallazgos(u, k)[m]),
    decreases k,
{
    if k > 0 {
        lemma_hallazgos(u, k - 1);
        let f = u[k - 1];
        assert(f.conflictos.take(f.conflictos.len() as int) =~= f.conflictos);
        lemma_por_conflictos(u, k - 1, f.conflictos.len() as int);
        let antes = hallazgos(u, k - 1);
        let todo = hallazgos(u, k);
        assert forall|m: int| 0 <= m < todo.len() implies evento_justificado(u, #[trigger] todo[m]) by {
            if m < antes.len() {
                assert(todo[m] == antes[m]);
            } else {
                assert(todo[m] == por_conflictos(u, f.nombre, f.conflictos)[m - antes.len()]);
            }
        }
    }
}

proof fn lemma_sin_repetir(es: Seq<Evento>)
    ensures
        forall|k: int| 0 <= k < sin_repetir(es).len() ==> es.contains(#[trigger] sin_repetir(es)[k]),
        forall|i: int, j: int|
            0 <= i < j < sin_repetir(es).len() ==> (#[trigger] sin_repetir(es)[i]).0 != (
            #[trigger] sin_repetir(es)[j]).0,
    decreases es.len(),
{
    if es.len() > 0 {
        let e0 = es.drop_last();
        lemma_sin_repetir(e0);
        let d = sin_repetir(e0);
        let r = sin_repetir(es);
        assert forall|k: int| 0 <= k < r.len() implies es.contains(#[trigger] r[k]) by {
            if k < d.len() {
                assert(r[k] == d[k]);
                let j = choose|j: int| 0 <= j < e0.len() && e0[j] == d[k];
                assert(es[j] == e0[j]);
            } else {
                assert(r[k] == es.last());
                assert(es[es.len() - 1] == es.last());
            }
        }
        assert forall|i: int, j: int| 0 <= i < j < r.len() implies (#[trigger] r[i]).0 != (
        #[trigger] r[j]).0 by {
            if j < d.len() {
                assert(r[i] == d[i] && r[j] == d[j]);
            } else {
                assert(r[i] == d[i]);
                assert(r[j] == es.last());
                if d[i].0 == es.last().0 {
                    assert(exists|k: int| 0 <= k < d.len() && #[trigger] d[k].0 == es.last().0);
                }
            }
        }
    }
}

proof fn lemma_unicas(fs: Seq<VistaFicha>)
    ensures
        forall|k: int| 0 <= k < unicas(fs).len() ==> fs.contains(#[trigger] unicas(fs)[k]),
    decreases fs.len(),
{
    if fs.len() > 0 {
        let f0 = fs.drop_last();
        lemma_unicas(f0);
        let u0 = unicas(f0);
        let u = unicas(fs);
        assert forall|k: int| 0 <= k < u.len() implies fs.contains(#[trigger] u[k]) by {
            if k < u0.len() {
                assert(u[k] == u0[k]);
                let j = choose|j: int| 0 <= j < f0.len() && f0[j] == u0[k];
                assert(fs[j] == f0[j]);
            } else {
                assert(u[k] == fs.last());
                assert(fs[fs.len() - 1] == fs.last());
            }
        }
    }
}

/// **Ningún choque es inventado, cada par se informa una vez, y nadie choca
/// consigo mismo.** Cada choque informado es entre dos paquetes distintos de
/// los que se instalan —el primero de cada nombre—, en orden, y uno de los
/// dos declara sin versión un conflicto con el nombre que el otro ocupa; por
/// eso también vale entre las fichas descritas. Este módulo puede pasar por alto
/// un conflicto; lo que no puede es inventar uno, porque de eso depende que se
/// pueda instalar.
pub proof fn ningun_choque_es_inventado(fs: Seq<VistaFicha>)
    ensures
        forall|k: int|
            0 <= k < choques_spec(fs).len() ==> justificado(
                unicas(fs),
                (#[trigger] choques_spec(fs)[k]).0,
                choques_spec(fs)[k].1,
                choques_spec(fs)[k].2,
            ),
        forall|k: int|
            0 <= k < choques_spec(fs).len() ==> justificado(
                fs,
                (#[trigger] choques_spec(fs)[k]).0,
                choques_spec(fs)[k].1,
                choques_spec(fs)[k].2,
            ),
        forall|i: int, j: int|
            0 <= i < j < choques_spec(fs).len() ==> ((#[trigger] choques_spec(fs)[i]).0, choques_spec(
                fs,
            )[i].1) != ((#[trigger] choques_spec(fs)[j]).0, choques_spec(fs)[j].1),
        forall|k: int|
            0 <= k < choques_spec(fs).len() ==> menor_texto(
                (#[trigger] choques_spec(fs)[k]).0,
                choques_spec(fs)[k].1,
            ),
{
    let u = unicas(fs);
    let h = hallazgos(u, u.len() as int);
    let d = sin_repetir(h);
    let r = choques_spec(fs);
    lemma_hallazgos(u, u.len() as int);
    lemma_sin_repetir(h);
    lemma_unicas(fs);
    assert(r.len() == d.len());
    assert forall|k: int| 0 <= k < r.len() implies justificado(
        fs,
        (#[trigger] r[k]).0,
        r[k].1,
        r[k].2,
    ) && menor_texto(r[k].0, r[k].1) && justificado(u, r[k].0, r[k].1, r[k].2) by {
        assert(r[k] == choque_de(d[k]));
        assert(h.contains(d[k]));
        let m = choose|m: int| 0 <= m < h.len() && h[m] == d[k];
        assert(evento_justificado(u, h[m]));
        let e = d[k];
        let (a, b) = choose|a: int, b: int|
            #![trigger u[a], u[b]]
            0 <= a < u.len() && 0 <= b < u.len() && u[a].nombre != u[b].nombre && (e.0.0, e.0.1)
                == par(u[a].nombre, u[b].nombre) && declara(u[a], e.1) && ocupa(u[b], e.1);
        assert(fs.contains(u[a]));
        assert(fs.contains(u[b]));
        let x = choose|x: int| 0 <= x < fs.len() && fs[x] == u[a];
        let y = choose|y: int| 0 <= y < fs.len() && fs[y] == u[b];
        assert(fs[x].nombre != fs[y].nombre);
        lemma_menor_total(u[a].nombre, u[b].nombre);
    }
    assert forall|i: int, j: int| 0 <= i < j < r.len() implies ((#[trigger] r[i]).0, r[i].1) != (
    (#[trigger] r[j]).0, r[j].1) by {
        assert(r[i] == choque_de(d[i]));
        assert(r[j] == choque_de(d[j]));
        assert(d[i].0 != d[j].0);
    }
}

// ── Que no se pase por alto ningún choque declarado ─────────────────────────

proof fn lemma_en_duenos(u: Seq<VistaFicha>, n: Seq<char>, y: int)
    requires
        0 <= y < u.len(),
        ocupa(u[y], n),
    ensures
        duenos(u, n).contains(u[y].nombre),
    decreases u.len(),
{
    let d = duenos(u, n);
    let v = u.drop_last();
    if y == u.len() - 1 {
        assert(u.last() == u[y]);
        assert(d[d.len() - 1] == u[y].nombre);
    } else {
        assert(v[y] == u[y]);
        lemma_en_duenos(v, n, y);
        let i = choose|i: int| 0 <= i < duenos(v, n).len() && duenos(v, n)[i] == u[y].nombre;
        assert(d[i] == duenos(v, n)[i]);
    }
}

proof fn lemma_en_contra(a: Seq<char>, n: Seq<char>, ds: Seq<Seq<char>>, b: Seq<char>)
    requires
        ds.contains(b),
        b != a,
    ensures
        contra_duenos(a, n, ds).contains((par(a, b), n)),
    decreases ds.len(),
{
    let c = contra_duenos(a, n, ds);
    if ds.last() == b {
        assert(c[c.len() - 1] == (par(a, b), n));
    } else {
        let i = choose|i: int| 0 <= i < ds.len() && ds[i] == b;
        assert(i != ds.len() - 1);
        assert(ds.drop_last()[i] == b);
        lemma_en_contra(a, n, ds.drop_last(), b);
        let antes = contra_duenos(a, n, ds.drop_last());
        let j = choose|j: int| 0 <= j < antes.len() && antes[j] == (par(a, b), n);
        assert(c[j] == antes[j]);
    }
}

proof fn lemma_en_por_conflictos(u: Seq<VistaFicha>, a: Seq<char>, cs: Seq<Seq<char>>, m: int, e: Evento)
    requires
        0 <= m < cs.len(),
        !versionada_spec(cs[m]),
        contra_duenos(a, nombre_solo_spec(cs[m]), duenos(u, nombre_solo_spec(cs[m]))).contains(e),
    ensures
        por_conflictos(u, a, cs).contains(e),
    decreases cs.len(),
{
    let p = por_conflictos(u, a, cs);
    let antes = por_conflictos(u, a, cs.drop_last());
    if m == cs.len() - 1 {
        let c = contra_duenos(a, nombre_solo_spec(cs[m]), duenos(u, nombre_solo_spec(cs[m])));
        assert(cs.last() == cs[m]);
        let j = choose|j: int| 0 <= j < c.len() && c[j] == e;
        assert(p[antes.len() + j] == c[j]);
    } else {
        assert(cs.drop_last()[m] == cs[m]);
        lemma_en_por_conflictos(u, a, cs.drop_last(), m, e);
        let j = choose|j: int| 0 <= j < antes.len() && antes[j] == e;
        assert(p[j] == antes[j]);
    }
}

proof fn lemma_en_hallazgos(u: Seq<VistaFicha>, k: int, x: int, e: Evento)
    requires
        0 <= x < k <= u.len(),
        por_conflictos(u, u[x].nombre, u[x].conflictos).contains(e),
    ensures
        hallazgos(u, k).contains(e),
    decreases k,
{
    let h = hallazgos(u, k);
    let antes = hallazgos(u, k - 1);
    if x == k - 1 {
        let c = por_conflictos(u, u[x].nombre, u[x].conflictos);
        let j = choose|j: int| 0 <= j < c.len() && c[j] == e;
        assert(h[antes.len() + j] == c[j]);
    } else {
        lemma_en_hallazgos(u, k - 1, x, e);
        let j = choose|j: int| 0 <= j < antes.len() && antes[j] == e;
        assert(h[j] == antes[j]);
    }
}

proof fn lemma_sin_repetir_cubre(es: Seq<Evento>, e: Evento)
    requires
        es.contains(e),
    ensures
        exists|k: int| 0 <= k < sin_repetir(es).len() && (#[trigger] sin_repetir(es)[k]).0 == e.0,
    decreases es.len(),
{
    let d = sin_repetir(es.drop_last());
    let r = sin_repetir(es);
    if es.last() == e {
        if exists|k: int| 0 <= k < d.len() && #[trigger] d[k].0 == es.last().0 {
            let k = choose|k: int| 0 <= k < d.len() && #[trigger] d[k].0 == es.last().0;
            assert(r[k] == d[k]);
        } else {
            assert(r[r.len() - 1] == e);
        }
    } else {
        let i = choose|i: int| 0 <= i < es.len() && es[i] == e;
        assert(es.drop_last()[i] == e);
        lemma_sin_repetir_cubre(es.drop_last(), e);
        let k = choose|k: int| 0 <= k < d.len() && (#[trigger] d[k]).0 == e.0;
        assert(r[k] == d[k]);
    }
}

/// **Ningún choque declarado se pasa por alto.** Entre los paquetes que se
/// instalan (el primero de cada nombre), si uno declara sin versión un
/// conflicto con un nombre que otro paquete ocupa —con el suyo o con algo
/// que provee—, ese par está entre los choques informados.
pub proof fn todo_choque_declarado_se_informa(fs: Seq<VistaFicha>, x: int, y: int, n: Seq<char>)
    requires
        0 <= x < unicas(fs).len(),
        0 <= y < unicas(fs).len(),
        unicas(fs)[x].nombre != unicas(fs)[y].nombre,
        declara(unicas(fs)[x], n),
        ocupa(unicas(fs)[y], n),
    ensures
        exists|k: int|
            0 <= k < choques_spec(fs).len() && ((#[trigger] choques_spec(fs)[k]).0, choques_spec(fs)[k].1)
                == par(unicas(fs)[x].nombre, unicas(fs)[y].nombre),
{
    let u = unicas(fs);
    let a = u[x].nombre;
    let b = u[y].nombre;
    let cs = u[x].conflictos;
    let m = choose|m: int| 0 <= m < cs.len() && !versionada_spec(#[trigger] cs[m]) && nombre_solo_spec(cs[m]) == n;
    lemma_en_duenos(u, n, y);
    lemma_en_contra(a, n, duenos(u, n), b);
    lemma_en_por_conflictos(u, a, cs, m, (par(a, b), n));
    lemma_en_hallazgos(u, u.len() as int, x, (par(a, b), n));
    let h = hallazgos(u, u.len() as int);
    lemma_sin_repetir_cubre(h, (par(a, b), n));
    let d = sin_repetir(h);
    let k = choose|k: int| 0 <= k < d.len() && (#[trigger] d[k]).0 == par(a, b);
    let r = choques_spec(fs);
    assert(r[k] == (d[k].0.0, d[k].0.1, d[k].1));
}

} // verus!
