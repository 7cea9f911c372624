//! Conjuntos de nombres, en orden.
//!
//! Los nombres de paquetes, de servicios y de marcas de hardware se juntan sin
//! repetir y se recorren en orden alfabético: dos instalaciones con la misma
//! elección tienen que producir el mismo archivo para poder compararlos cuando
//! algo falla. El orden es el de los puntos de código, que es el de los bytes
//! en UTF-8.

use vstd::prelude::*;

use crate::orden::{
    insertar_antes, lemma_insertar_contiene, lemma_insertar_en, lemma_insertar_ordenada,
    lemma_insertar_sin_repetidos, lemma_insertar_vista, ordenada,
};
use crate::texto::{cadena, caracteres};

verus! {

broadcast use vstd::string::group_string_axioms;

/// El orden alfabético por puntos de código: el primer carácter distinto
/// decide, y un prefijo va antes.
pub open spec fn menor_texto(a: Seq<char>, b: Seq<char>) -> bool
    decreases a.len(),
{
    if a.len() == 0 {
        b.len() > 0
    } else if b.len() == 0 {
        false
    } else if a[0] != b[0] {
        a[0] < b[0]
    } else {
        menor_texto(a.drop_first(), b.drop_first())
    }
}

pub open spec fn antes_texto() -> spec_fn(Seq<char>, Seq<char>) -> bool {
    |a: Seq<char>, b: Seq<char>| menor_texto(a, b)
}

pub open spec fn hasta_texto() -> spec_fn(Seq<char>, Seq<char>) -> bool {
    |a: Seq<char>, b: Seq<char>| menor_texto(a, b) || a == b
}

/// Sin repetidos y en orden estricto.
pub open spec fn creciente(s: Seq<Seq<char>>) -> bool {
    forall|i: int, j: int| 0 <= i < j < s.len() ==> menor_texto(#[trigger] s[i], #[trigger] s[j])
}

/// Agregar un nombre: si ya estaba, nada cambia; si no, va en su lugar.
pub open spec fn con(s: Seq<Seq<char>>, x: Seq<char>) -> Seq<Seq<char>> {
    if s.contains(x) {
        s
    } else {
        insertar_antes(x, s, antes_texto())
    }
}

pub proof fn lemma_menor_irreflexivo(a: Seq<char>)
    ensures
        !menor_texto(a, a),
    decreases a.len(),
{
    if a.len() > 0 {
        lemma_menor_irreflexivo(a.drop_first());
    }
}

pub proof fn lemma_menor_asimetrico(a: Seq<char>, b: Seq<char>)
    ensures
        menor_texto(a, b) ==> !menor_texto(b, a),
    decreases a.len(),
{
    if a.len() > 0 && b.len() > 0 && a[0] == b[0] {
        lemma_menor_asimetrico(a.drop_first(), b.drop_first());
    }
}

pub proof fn lemma_menor_transitivo(a: Seq<char>, b: Seq<char>, c: Seq<char>)
    ensures
        menor_texto(a, b) && menor_texto(b, c) ==> menor_texto(a, c),
    decreases a.len(),
{
    if a.len() > 0 && b.len() > 0 && c.len() > 0 {
        lemma_menor_transitivo(a.drop_first(), b.drop_first(), c.drop_first());
    }
}

pub proof fn lemma_menor_total(a: Seq<char>, b: Seq<char>)
    ensures
        a != b ==> menor_texto(a, b) || menor_texto(b, a),
    decreases a.len(),
{
    if a.len() == 0 && b.len() == 0 {
        assert(a =~= b);
    } else if a.len() == 0 || b.len() == 0 {
    } else if a[0] != b[0] {
    } else {
        lemma_menor_total(a.drop_first(), b.drop_first());
        if a.drop_first() == b.drop_first() {
            assert(a =~= seq![a[0]] + a.drop_first());
            assert(b =~= seq![b[0]] + b.drop_first());
        }
    }
}

/// Agregar mantiene el orden estricto, y el resultado tiene exactamente lo
/// que había más el nombre nuevo.
pub proof fn lemma_con(s: Seq<Seq<char>>, x: Seq<char>)
    requires
        creciente(s),
    ensures
        creciente(con(s, x)),
        forall|y: Seq<char>| #[trigger] con(s, x).contains(y) <==> (y == x || s.contains(y)),
{
    if !s.contains(x) {
        assert forall|a: Seq<char>, b: Seq<char>| #[trigger] antes_texto()(a, b) <==> !hasta_texto()(
            b,
            a,
        ) by {
            lemma_menor_asimetrico(a, b);
            lemma_menor_total(a, b);
            lemma_menor_irreflexivo(a);
        }
        assert forall|a: Seq<char>, b: Seq<char>| #[trigger] hasta_texto()(a, b) || hasta_texto()(
            b,
            a,
        ) by {
            lemma_menor_total(a, b);
        }
        assert forall|a: Seq<char>, b: Seq<char>, c: Seq<char>|
            #[trigger] hasta_texto()(a, b) && #[trigger] hasta_texto()(b, c) implies hasta_texto()(
            a,
            c,
        ) by {
            lemma_menor_transitivo(a, b, c);
        }
        assert(ordenada(s, hasta_texto()));
        lemma_insertar_ordenada(x, s, antes_texto(), hasta_texto());
        lemma_insertar_contiene(x, s, antes_texto());
        assert(s.no_duplicates()) by {
            assert forall|i: int, j: int| 0 <= i < s.len() && 0 <= j < s.len() && i != j implies s[i]
                != s[j] by {
                if i < j {
                    assert(menor_texto(s[i], s[j]));
                    lemma_menor_irreflexivo(s[i]);
                } else {
                    assert(menor_texto(s[j], s[i]));
                    lemma_menor_irreflexivo(s[j]);
                }
            }
        }
        lemma_insertar_sin_repetidos(x, s, antes_texto());
        let r = insertar_antes(x, s, antes_texto());
        assert forall|i: int, j: int| 0 <= i < j < r.len() implies menor_texto(
            #[trigger] r[i],
            #[trigger] r[j],
        ) by {
            assert(hasta_texto()(r[i], r[j]));
        }
    }
}

/// Compara dos nombres en el orden alfabético por puntos de código.
pub fn menor(a: &str, b: &str) -> (r: bool)
    ensures
        r == menor_texto(a@, b@),
{
    let x = caracteres(a);
    let y = caracteres(b);
    let mut i: usize = 0;
    proof {
        assert(x@.skip(0) =~= x@);
        assert(y@.skip(0) =~= y@);
    }
    while i < x.len() && i < y.len() && x[i] == y[i]
        invariant
            i <= x.len(),
            i <= y.len(),
            x@ == a@,
            y@ == b@,
            menor_texto(a@, b@) == menor_texto(x@.skip(i as int), y@.skip(i as int)),
        decreases x.len() - i,
    {
        proof {
            assert(x@.skip(i as int).drop_first() =~= x@.skip(i as int + 1));
            assert(y@.skip(i as int).drop_first() =~= y@.skip(i as int + 1));
        }
        i = i + 1;
    }
    proof {
        if i < x.len() {
            assert(x@.skip(i as int)[0] == x@[i as int]);
        }
        if i < y.len() {
            assert(y@.skip(i as int)[0] == y@[i as int]);
        }
    }
    if i == x.len() {
        i < y.len()
    } else if i == y.len() {
        false
    } else {
        x[i] < y[i]
    }
}

/// Un conjunto de nombres, en orden alfabético y sin repetidos.
#[derive(Debug)]
pub struct Conjunto {
    elementos: Vec<String>,
}

impl View for Conjunto {
    type V = Seq<Seq<char>>;

    closed spec fn view(&self) -> Seq<Seq<char>> {
        self.elementos@.map_values(|s: String| s@)
    }
}

impl Conjunto {
    /// Lo que vale de todo conjunto: sus nombres están en orden estricto.
    #[verifier::type_invariant]
    pub open spec fn en_orden(&self) -> bool {
        creciente(self@)
    }

    /// Un conjunto vacío.
    pub fn new() -> (c: Conjunto)
        ensures
            c@ == Seq::<Seq<char>>::empty(),
    {
        let c = Conjunto { elementos: Vec::new() };
        assert(c@ =~= Seq::<Seq<char>>::empty());
        c
    }

    /// Cuántos nombres tiene.
    pub fn len(&self) -> (r: usize)
        ensures
            r == self@.len(),
    {
        self.elementos.len()
    }

    /// Si no tiene ninguno.
    pub fn is_empty(&self) -> (r: bool)
        ensures
            r == (self@.len() == 0),
    {
        self.elementos.len() == 0
    }

    /// Si tiene ese nombre.
    pub fn contains(&self, s: &str) -> (r: bool)
        ensures
            r == self@.contains(s@),
    {
        let ghost v = self@;
        let mut i: usize = 0;
        while i < self.elementos.len()
            invariant
                i <= self.elementos.len(),
                v == self@,
                v == self.elementos@.map_values(|s: String| s@),
                forall|j: int| 0 <= j < i ==> v[j] != s@,
            decreases self.elementos.len() - i,
        {
            if crate::texto::iguales(self.elementos[i].as_str(), s) {
                assert(v[i as int] == s@);
                return true;
            }
            i = i + 1;
        }
        false
    }

    /// El nombre en la posición `i`, en orden.
    pub fn get(&self, i: usize) -> (r: &String)
        requires
            i < self@.len(),
        ensures
            r@ == self@[i as int],
    {
        &self.elementos[i]
    }

    /// Agrega un nombre. Devuelve si no estaba.
    pub fn insert(&mut self, s: String) -> (nuevo: bool)
        ensures
            final(self)@ == con(old(self)@, s@),
            nuevo == !old(self)@.contains(s@),
    {
        proof {
            use_type_invariant(&*self);
        }
        if self.contains(s.as_str()) {
            return false;
        }
        let ghost w = self@;
        let mut j: usize = 0;
        let mut hallado = false;
        while j < self.elementos.len() && !hallado
            invariant
                j <= self.elementos.len(),
                w == self.elementos@.map_values(|s: String| s@),
                hallado ==> j < self.elementos.len() && antes_texto()(s@, w[j as int]),
                forall|i: int| 0 <= i < j ==> !antes_texto()(s@, #[trigger] w[i]),
            decreases (self.elementos.len() - j) as int + (if hallado {
                0int
            } else {
                1int
            }),
        {
            if menor(s.as_str(), self.elementos[j].as_str()) {
                hallado = true;
            } else {
                j = j + 1;
            }
        }
        proof {
            lemma_insertar_en(s@, w, antes_texto(), j as int);
            lemma_insertar_vista(self.elementos@, j as int, s, |x: String| x@);
            lemma_con(w, s@);
        }
        let mut elementos = Vec::new();
        std::mem::swap(&mut elementos, &mut self.elementos);
        elementos.insert(j, s);
        *self = Conjunto { elementos };
        true
    }

    /// Los nombres, en orden.
    pub fn como_lista(&self) -> (r: Vec<String>)
        ensures
            r@.map_values(|s: String| s@) == self@,
    {
        let mut r: Vec<String> = Vec::new();
        let mut i: usize = 0;
        while i < self.elementos.len()
            invariant
                i <= self.elementos.len(),
                r@.map_values(|s: String| s@) == self@.take(i as int),
                self@ == self.elementos@.map_values(|s: String| s@),
            decreases self.elementos.len() - i,
        {
            let copia = self.elementos[i].clone();
            assert(self@[i as int] == self.elementos@[i as int]@);
            let ghost antes = r@;
            r.push(copia);
            assert(r@.map_values(|s: String| s@) =~= antes.map_values(|s: String| s@).push(
                copia@,
            ));
            assert(r@.map_values(|s: String| s@) =~= self@.take(i as int + 1));
            i = i + 1;
        }
        assert(self@.take(i as int) =~= self@);
        r
    }

    /// Agrega todos los de la lista.
    pub fn extender(&mut self, otros: &[String])
        ensures
            final(self)@ == agregados(old(self)@, otros@.map_values(|s: String| s@)),
    {
        let ghost nuevos = otros@.map_values(|s: String| s@);
        let mut i: usize = 0;
        while i < otros.len()
            invariant
                i <= otros.len(),
                nuevos == otros@.map_values(|s: String| s@),
                self@ == agregados(old(self)@, nuevos.take(i as int)),
            decreases otros.len() - i,
        {
            proof {
                assert(nuevos.take(i as int + 1).drop_last() =~= nuevos.take(i as int));
            }
            self.insert(otros[i].clone());
            i = i + 1;
        }
        assert(nuevos.take(i as int) =~= nuevos);
    }
}

/// Un conjunto después de agregarle una lista de nombres, de a uno.
pub open spec fn agregados(s: Seq<Seq<char>>, nuevos: Seq<Seq<char>>) -> Seq<Seq<char>>
    decreases nuevos.len(),
{
    if nuevos.len() == 0 {
        s
    } else {
        con(agregados(s, nuevos.drop_last()), nuevos.last())
    }
}

/// Agregar una lista conserva el orden y tiene lo que había más la lista.
pub proof fn lemma_agregados(s: Seq<Seq<char>>, nuevos: Seq<Seq<char>>)
    requires
        creciente(s),
    ensures
        creciente(agregados(s, nuevos)),
        forall|y: Seq<char>| #[trigger]
            agregados(s, nuevos).contains(y) <==> (s.contains(y) || nuevos.contains(y)),
    decreases nuevos.len(),
{
    if nuevos.len() > 0 {
        let p = nuevos.drop_last();
        lemma_agregados(s, p);
        lemma_con(agregados(s, p), nuevos.last());
        assert forall|y: Seq<char>| #[trigger] agregados(s, nuevos).contains(y) <==> (s.contains(y)
            || nuevos.contains(y)) by {
            if p.contains(y) {
                let k = choose|k: int| 0 <= k < p.len() && p[k] == y;
                assert(nuevos[k] == y);
            }
            if nuevos.contains(y) {
                let k = choose|k: int| 0 <= k < nuevos.len() && nuevos[k] == y;
                if k < nuevos.len() - 1 {
                    assert(p[k] == y);
                }
            }
        }
    }
}

/// Dos sucesiones en orden estricto con los mismos nombres son la misma.
pub proof fn lemma_crecientes_iguales(a: Seq<Seq<char>>, b: Seq<Seq<char>>)
    requires
        creciente(a),
        creciente(b),
        forall|y: Seq<char>| #[trigger] a.contains(y) <==> b.contains(y),
    ensures
        a == b,
    decreases a.len(),
{
    if a.len() == 0 {
        if b.len() > 0 {
            assert(b.contains(b[0]));
            assert(a.contains(b[0]));
        }
        assert(a =~= b);
    } else if b.len() == 0 {
        assert(a.contains(a[0]));
        assert(b.contains(a[0]));
    } else {
        assert(b.contains(b[0]));
        assert(a.contains(b[0]));
        assert(a.contains(a[0]));
        assert(b.contains(a[0]));
        let i = choose|i: int| 0 <= i < b.len() && b[i] == a[0];
        let j = choose|j: int| 0 <= j < a.len() && a[j] == b[0];
        if a[0] != b[0] {
            assert(i != 0 && j != 0);
            assert(menor_texto(b[0], b[i]));
            assert(menor_texto(a[0], a[j]));
            lemma_menor_asimetrico(a[0], b[0]);
        }
        let ta = a.drop_first();
        let tb = b.drop_first();
        assert(creciente(ta)) by {
            assert forall|p: int, q: int| 0 <= p < q < ta.len() implies menor_texto(
                #[trigger] ta[p],
                #[trigger] ta[q],
            ) by {
                assert(ta[p] == a[p + 1] && ta[q] == a[q + 1]);
            }
        }
        assert(creciente(tb)) by {
            assert forall|p: int, q: int| 0 <= p < q < tb.len() implies menor_texto(
                #[trigger] tb[p],
                #[trigger] tb[q],
            ) by {
                assert(tb[p] == b[p + 1] && tb[q] == b[q + 1]);
            }
        }
        assert forall|y: Seq<char>| #[trigger] ta.contains(y) <==> tb.contains(y) by {
            if ta.contains(y) {
                let k = choose|k: int| 0 <= k < ta.len() && ta[k] == y;
                assert(a[k + 1] == y);
                assert(menor_texto(a[0], a[k + 1]));
                lemma_menor_irreflexivo(y);
                assert(a.contains(y));
                assert(b.contains(y));
                let m = choose|m: int| 0 <= m < b.len() && b[m] == y;
                assert(m != 0);
                assert(tb[m - 1] == y);
            }
            if tb.contains(y) {
                let k = choose|k: int| 0 <= k < tb.len() && tb[k] == y;
                assert(b[k + 1] == y);
                assert(menor_texto(b[0], b[k + 1]));
                lemma_menor_irreflexivo(y);
                assert(b.contains(y));
                assert(a.contains(y));
                let m = choose|m: int| 0 <= m < a.len() && a[m] == y;
                assert(m != 0);
                assert(ta[m - 1] == y);
            }
        }
        lemma_crecientes_iguales(ta, tb);
        assert(a =~= seq![a[0]] + ta);
        assert(b =~= seq![b[0]] + tb);
    }
}

} // verus!
