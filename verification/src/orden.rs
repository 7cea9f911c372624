//! Ordenar por inserción, como especificación.
//!
//! Los ordenamientos de la biblioteca son todos estables y por inserción: cada
//! elemento nuevo va antes del primero que tenga que ir después de él. Acá está
//! esa definición y lo que se sabe de ella; las versiones ejecutables viven
//! junto a los tipos que ordenan y se prueban iguales a ésta.

use vstd::prelude::*;

verus! {

/// Pone `x` antes del primer elemento `y` de `s` con `va_antes(x, y)`, o al
/// final si no hay ninguno.
pub open spec fn insertar_antes<T>(x: T, s: Seq<T>, va_antes: spec_fn(T, T) -> bool) -> Seq<T>
    decreases s.len(),
{
    if s.len() == 0 {
        seq![x]
    } else if va_antes(x, s[0]) {
        seq![x] + s
    } else {
        seq![s[0]] + insertar_antes(x, s.drop_first(), va_antes)
    }
}

/// El ordenamiento por inserción de `s`, recorriéndola de principio a fin.
pub open spec fn ordenar<T>(s: Seq<T>, va_antes: spec_fn(T, T) -> bool) -> Seq<T>
    decreases s.len(),
{
    if s.len() == 0 {
        s
    } else {
        insertar_antes(s.last(), ordenar(s.drop_last(), va_antes), va_antes)
    }
}

/// Insertar es `Seq::insert` en la primera posición donde el nuevo va antes.
pub proof fn lemma_insertar_en<T>(x: T, s: Seq<T>, va_antes: spec_fn(T, T) -> bool, j: int)
    requires
        0 <= j <= s.len(),
        forall|i: int| 0 <= i < j ==> !va_antes(x, #[trigger] s[i]),
        j == s.len() || va_antes(x, s[j]),
    ensures
        insertar_antes(x, s, va_antes) == s.insert(j, x),
    decreases s.len(),
{
    if s.len() == 0 {
        assert(s.insert(j, x) =~= seq![x]);
    } else if va_antes(x, s[0]) {
        assert(j == 0);
        assert(s.insert(j, x) =~= seq![x] + s);
    } else {
        assert(j > 0);
        let r = s.drop_first();
        assert forall|i: int| 0 <= i < j - 1 implies !va_antes(x, #[trigger] r[i]) by {
            assert(r[i] == s[i + 1]);
        }
        lemma_insertar_en(x, r, va_antes, j - 1);
        assert(s.insert(j, x) =~= seq![s[0]] + r.insert(j - 1, x));
    }
}

/// Insertar agrega exactamente un elemento y no pierde ninguno.
pub proof fn lemma_insertar_contiene<T>(x: T, s: Seq<T>, va_antes: spec_fn(T, T) -> bool)
    ensures
        insertar_antes(x, s, va_antes).len() == s.len() + 1,
        forall|y: T| #[trigger] insertar_antes(x, s, va_antes).contains(y) <==> (y == x || s.contains(y)),
    decreases s.len(),
{
    if s.len() == 0 {
        assert forall|y: T| #[trigger] insertar_antes(x, s, va_antes).contains(y) <==> (y == x || s.contains(y)) by {
            let r = insertar_antes(x, s, va_antes);
            assert(r == seq![x]);
            if y == x {
                assert(r[0] == y);
            }
        }
    } else if va_antes(x, s[0]) {
        assert forall|y: T| #[trigger] insertar_antes(x, s, va_antes).contains(y) <==> (y == x || s.contains(y)) by {
            let r = insertar_antes(x, s, va_antes);
            if r.contains(y) {
                let k = choose|k: int| 0 <= k < r.len() && r[k] == y;
                if k > 0 {
                    assert(s[k - 1] == y);
                }
            }
            if s.contains(y) {
                let k = choose|k: int| 0 <= k < s.len() && s[k] == y;
                assert(r[k + 1] == y);
            }
            if y == x {
                assert(r[0] == y);
            }
        }
    } else {
        let t = s.drop_first();
        lemma_insertar_contiene(x, t, va_antes);
        assert forall|y: T| #[trigger] insertar_antes(x, s, va_antes).contains(y) <==> (y == x || s.contains(y)) by {
            let r = insertar_antes(x, s, va_antes);
            let q = insertar_antes(x, t, va_antes);
            assert(r == seq![s[0]] + q);
            if r.contains(y) {
                let k = choose|k: int| 0 <= k < r.len() && r[k] == y;
                if k > 0 {
                    assert(q[k - 1] == y);
                    assert(q.contains(y));
                    if t.contains(y) {
                        let m = choose|m: int| 0 <= m < t.len() && t[m] == y;
                        assert(s[m + 1] == y);
                    }
                } else {
                    assert(s[0] == y);
                }
            }
            if s.contains(y) {
                let k = choose|k: int| 0 <= k < s.len() && s[k] == y;
                if k > 0 {
                    assert(t[k - 1] == y);
                    assert(q.contains(y));
                    let m = choose|m: int| 0 <= m < q.len() && q[m] == y;
                    assert(r[m + 1] == y);
                } else {
                    assert(r[0] == y);
                }
            }
            if y == x {
                assert(q.contains(y));
                let m = choose|m: int| 0 <= m < q.len() && q[m] == y;
                assert(r[m + 1] == y);
            }
        }
    }
}

/// Ordenar no agrega ni pierde elementos.
pub proof fn lemma_ordenar_contiene<T>(s: Seq<T>, va_antes: spec_fn(T, T) -> bool)
    ensures
        ordenar(s, va_antes).len() == s.len(),
        forall|y: T| #[trigger] ordenar(s, va_antes).contains(y) <==> s.contains(y),
    decreases s.len(),
{
    if s.len() > 0 {
        let p = s.drop_last();
        lemma_ordenar_contiene(p, va_antes);
        lemma_insertar_contiene(s.last(), ordenar(p, va_antes), va_antes);
        assert forall|y: T| #[trigger] ordenar(s, va_antes).contains(y) <==> s.contains(y) by {
            if p.contains(y) {
                let k = choose|k: int| 0 <= k < p.len() && p[k] == y;
                assert(s[k] == y);
            }
            if s.contains(y) {
                let k = choose|k: int| 0 <= k < s.len() && s[k] == y;
                if k < s.len() - 1 {
                    assert(p[k] == y);
                }
            }
        }
    }
}

/// Una sucesión ordenada respecto de un preorden `menor_o_igual`.
pub open spec fn ordenada<T>(s: Seq<T>, menor_o_igual: spec_fn(T, T) -> bool) -> bool {
    forall|i: int, j: int| 0 <= i < j < s.len() ==> menor_o_igual(#[trigger] s[i], #[trigger] s[j])
}

/// Insertar en una sucesión ordenada la deja ordenada, cuando «va antes» es
/// lo contrario de «menor o igual» y éste es un preorden total.
pub proof fn lemma_insertar_ordenada<T>(
    x: T,
    s: Seq<T>,
    va_antes: spec_fn(T, T) -> bool,
    menor_o_igual: spec_fn(T, T) -> bool,
)
    requires
        ordenada(s, menor_o_igual),
        forall|a: T, b: T| #[trigger] va_antes(a, b) <==> !menor_o_igual(b, a),
        forall|a: T, b: T| #[trigger] menor_o_igual(a, b) || menor_o_igual(b, a),
        forall|a: T, b: T, c: T|
            #[trigger] menor_o_igual(a, b) && #[trigger] menor_o_igual(b, c) ==> menor_o_igual(a, c),
    ensures
        ordenada(insertar_antes(x, s, va_antes), menor_o_igual),
    decreases s.len(),
{
    if s.len() == 0 {
    } else if va_antes(x, s[0]) {
        let r = insertar_antes(x, s, va_antes);
        assert(r == seq![x] + s);
        assert(menor_o_igual(x, s[0]));
        assert forall|i: int, j: int| 0 <= i < j < r.len() implies menor_o_igual(
            #[trigger] r[i],
            #[trigger] r[j],
        ) by {
            if i == 0 {
                if j > 1 {
                    assert(menor_o_igual(s[0], s[j - 1]));
                }
            } else {
                assert(menor_o_igual(s[i - 1], s[j - 1]));
            }
        }
    } else {
        let t = s.drop_first();
        assert(ordenada(t, menor_o_igual)) by {
            assert forall|i: int, j: int| 0 <= i < j < t.len() implies menor_o_igual(
                #[trigger] t[i],
                #[trigger] t[j],
            ) by {
                assert(menor_o_igual(s[i + 1], s[j + 1]));
            }
        }
        lemma_insertar_ordenada(x, t, va_antes, menor_o_igual);
        lemma_insertar_contiene(x, t, va_antes);
        let q = insertar_antes(x, t, va_antes);
        let r = insertar_antes(x, s, va_antes);
        assert(r == seq![s[0]] + q);
        assert(menor_o_igual(s[0], x));
        assert forall|i: int, j: int| 0 <= i < j < r.len() implies menor_o_igual(
            #[trigger] r[i],
            #[trigger] r[j],
        ) by {
            if i == 0 {
                let y = q[j - 1];
                assert(q.contains(y));
                if y != x {
                    let m = choose|m: int| 0 <= m < t.len() && t[m] == y;
                    assert(menor_o_igual(s[0], s[m + 1]));
                }
            } else {
                assert(menor_o_igual(q[i - 1], q[j - 1]));
            }
        }
    }
}

/// Ordenar deja la sucesión ordenada.
pub proof fn lemma_ordenar_ordenada<T>(
    s: Seq<T>,
    va_antes: spec_fn(T, T) -> bool,
    menor_o_igual: spec_fn(T, T) -> bool,
)
    requires
        forall|a: T, b: T| #[trigger] va_antes(a, b) <==> !menor_o_igual(b, a),
        forall|a: T, b: T| #[trigger] menor_o_igual(a, b) || menor_o_igual(b, a),
        forall|a: T, b: T, c: T|
            #[trigger] menor_o_igual(a, b) && #[trigger] menor_o_igual(b, c) ==> menor_o_igual(a, c),
    ensures
        ordenada(ordenar(s, va_antes), menor_o_igual),
    decreases s.len(),
{
    if s.len() > 0 {
        lemma_ordenar_ordenada(s.drop_last(), va_antes, menor_o_igual);
        lemma_insertar_ordenada(s.last(), ordenar(s.drop_last(), va_antes), va_antes, menor_o_igual);
    }
}


/// Ordenar un prefijo un elemento más largo es insertar ese elemento en el
/// prefijo ya ordenado.
pub proof fn lemma_ordenar_paso<T>(s: Seq<T>, i: int, va_antes: spec_fn(T, T) -> bool)
    requires
        0 <= i < s.len(),
    ensures
        ordenar(s.take(i + 1), va_antes) == insertar_antes(s[i], ordenar(s.take(i), va_antes), va_antes),
{
    assert(s.take(i + 1).drop_last() =~= s.take(i));
    assert(s.take(i + 1).last() == s[i]);
}

/// Insertar en una vista es insertar la vista.
pub proof fn lemma_insertar_vista<T, V>(s: Seq<T>, j: int, x: T, f: spec_fn(T) -> V)
    requires
        0 <= j <= s.len(),
    ensures
        s.insert(j, x).map_values(f) == s.map_values(f).insert(j, f(x)),
{
    assert(s.insert(j, x).map_values(f) =~= s.map_values(f).insert(j, f(x)));
}


/// Filtrar cuando el predicado no vale en ningún elemento.
pub proof fn lemma_filtrar_ninguno<T>(s: Seq<T>, pred: spec_fn(T) -> bool)
    requires
        forall|i: int| 0 <= i < s.len() ==> !pred(#[trigger] s[i]),
    ensures
        s.filter(pred) == Seq::<T>::empty(),
    decreases s.len(),
{
    reveal(Seq::filter);
    if s.len() > 0 {
        let t = s.drop_last();
        assert forall|i: int| 0 <= i < t.len() implies !pred(#[trigger] t[i]) by {
            assert(t[i] == s[i]);
        }
        lemma_filtrar_ninguno(t, pred);
    }
}

/// Filtrar cuando el predicado vale en todos.
pub proof fn lemma_filtrar_todos<T>(s: Seq<T>, pred: spec_fn(T) -> bool)
    requires
        forall|i: int| 0 <= i < s.len() ==> pred(#[trigger] s[i]),
    ensures
        s.filter(pred) == s,
    decreases s.len(),
{
    reveal(Seq::filter);
    if s.len() > 0 {
        let t = s.drop_last();
        assert forall|i: int| 0 <= i < t.len() implies pred(#[trigger] t[i]) by {
            assert(t[i] == s[i]);
        }
        lemma_filtrar_todos(t, pred);
        assert(t.push(s.last()) =~= s);
    }
}

/// Filtrar cuando el predicado vale exactamente en la posición `k`.
pub proof fn lemma_filtrar_uno<T>(s: Seq<T>, pred: spec_fn(T) -> bool, k: int)
    requires
        0 <= k < s.len(),
        forall|i: int| 0 <= i < s.len() ==> (pred(#[trigger] s[i]) <==> i == k),
    ensures
        s.filter(pred) == seq![s[k]],
    decreases s.len(),
{
    reveal(Seq::filter);
    let t = s.drop_last();
    if k == s.len() - 1 {
        assert forall|i: int| 0 <= i < t.len() implies !pred(#[trigger] t[i]) by {
            assert(t[i] == s[i]);
        }
        lemma_filtrar_ninguno(t, pred);
        assert(Seq::<T>::empty().push(s[k]) =~= seq![s[k]]);
    } else {
        assert forall|i: int| 0 <= i < t.len() implies (pred(#[trigger] t[i]) <==> i == k) by {
            assert(t[i] == s[i]);
        }
        lemma_filtrar_uno(t, pred, k);
        assert(t[k] == s[k]);
    }
}


/// Insertar algo que no estaba en una sucesión sin repetidos no repite nada.
pub proof fn lemma_insertar_sin_repetidos<T>(x: T, s: Seq<T>, va_antes: spec_fn(T, T) -> bool)
    requires
        s.no_duplicates(),
        !s.contains(x),
    ensures
        insertar_antes(x, s, va_antes).no_duplicates(),
    decreases s.len(),
{
    if s.len() > 0 && !va_antes(x, s[0]) {
        let t = s.drop_first();
        assert(!t.contains(x)) by {
            if t.contains(x) {
                let k = choose|k: int| 0 <= k < t.len() && t[k] == x;
                assert(s[k + 1] == x);
            }
        }
        lemma_insertar_sin_repetidos(x, t, va_antes);
        lemma_insertar_contiene(x, t, va_antes);
        let q = insertar_antes(x, t, va_antes);
        let r = insertar_antes(x, s, va_antes);
        assert(r == seq![s[0]] + q);
        assert(!q.contains(s[0])) by {
            if t.contains(s[0]) {
                let k = choose|k: int| 0 <= k < t.len() && t[k] == s[0];
                assert(s[k + 1] == s[0]);
            }
        }
        assert forall|i: int, j: int| 0 <= i < r.len() && 0 <= j < r.len() && i != j implies r[i]
            != r[j] by {
            if i == 0 {
                assert(q[j - 1] == r[j]);
            } else if j == 0 {
                assert(q[i - 1] == r[i]);
            } else {
                assert(q[i - 1] != q[j - 1]);
            }
        }
    } else if s.len() > 0 {
        let r = insertar_antes(x, s, va_antes);
        assert(r == seq![x] + s);
        assert forall|i: int, j: int| 0 <= i < r.len() && 0 <= j < r.len() && i != j implies r[i]
            != r[j] by {
            if i == 0 {
                assert(s[j - 1] == r[j]);
            } else if j == 0 {
                assert(s[i - 1] == r[i]);
            }
        }
    }
}

/// Ordenar una sucesión sin repetidos la deja sin repetidos.
pub proof fn lemma_ordenar_sin_repetidos<T>(s: Seq<T>, va_antes: spec_fn(T, T) -> bool)
    requires
        s.no_duplicates(),
    ensures
        ordenar(s, va_antes).no_duplicates(),
    decreases s.len(),
{
    if s.len() > 0 {
        let p = s.drop_last();
        assert(p.no_duplicates()) by {
            assert forall|i: int, j: int| 0 <= i < p.len() && 0 <= j < p.len() && i != j implies p[i]
                != p[j] by {
                assert(p[i] == s[i] && p[j] == s[j]);
            }
        }
        lemma_ordenar_sin_repetidos(p, va_antes);
        lemma_ordenar_contiene(p, va_antes);
        assert(!ordenar(p, va_antes).contains(s.last())) by {
            if p.contains(s.last()) {
                let k = choose|k: int| 0 <= k < p.len() && p[k] == s.last();
                assert(s[k] == s[s.len() - 1]);
            }
        }
        lemma_insertar_sin_repetidos(s.last(), ordenar(p, va_antes), va_antes);
    }
}


/// La posición del primer elemento que cumple `pred`, o `-1` si ninguno.
pub open spec fn primera<T>(s: Seq<T>, pred: spec_fn(T) -> bool) -> int
    decreases s.len(),
{
    if s.len() == 0 {
        -1
    } else if pred(s[0]) {
        0
    } else {
        let r = primera(s.drop_first(), pred);
        if r < 0 {
            -1
        } else {
            r + 1
        }
    }
}

/// Lo que dice `primera` de una búsqueda de principio a fin que se detuvo en
/// `i`.
pub proof fn lemma_primera<T>(s: Seq<T>, pred: spec_fn(T) -> bool, i: int)
    requires
        0 <= i <= s.len(),
        forall|j: int| 0 <= j < i ==> !pred(#[trigger] s[j]),
        i == s.len() || pred(s[i]),
    ensures
        primera(s, pred) == if i == s.len() {
            -1
        } else {
            i
        },
    decreases s.len(),
{
    if s.len() > 0 && i > 0 {
        let t = s.drop_first();
        assert forall|j: int| 0 <= j < i - 1 implies !pred(#[trigger] t[j]) by {
            assert(t[j] == s[j + 1]);
        }
        lemma_primera(t, pred, i - 1);
    }
}

/// Lo que se sabe de `primera`.
pub proof fn lemma_primera_encontro<T>(s: Seq<T>, pred: spec_fn(T) -> bool)
    ensures
        -1 <= primera(s, pred) < s.len(),
        primera(s, pred) >= 0 ==> pred(s[primera(s, pred)]),
        primera(s, pred) >= 0 ==> forall|j: int| 0 <= j < primera(s, pred) ==> !pred(#[trigger] s[j]),
        primera(s, pred) < 0 ==> forall|j: int| 0 <= j < s.len() ==> !pred(#[trigger] s[j]),
    decreases s.len(),
{
    if s.len() > 0 {
        let t = s.drop_first();
        lemma_primera_encontro(t, pred);
        if !pred(s[0]) {
            assert forall|j: int| 0 <= j < s.len() && (primera(s, pred) < 0 || j < primera(s, pred)) implies !pred(#[trigger] s[j]) by {
                if j > 0 {
                    assert(s[j] == t[j - 1]);
                }
            }
        }
    }
}

} // verus!
