//! Texto: lo que el resto de la biblioteca necesita saber de `str` y `String`.
//!
//! Todo se razona sobre la vista de una cadena, que es su sucesión de
//! caracteres (`Seq<char>`). Las funciones de acá son las piezas con las que
//! los módulos de arriba leen archivos de texto y comparan nombres.

use vstd::prelude::*;
use vstd::std_specs::iter::IteratorSpec;
use vstd::utf8::encode_utf8;

verus! {

broadcast use vstd::string::group_string_axioms;

// ── Caracteres ──────────────────────────────────────────────────────────────

/// Los espacios en blanco de Unicode: la propiedad `White_Space`, que es la
/// que consulta `char::is_whitespace`.
pub open spec fn es_blanco(c: char) -> bool {
    ||| c == ' '
    ||| ('\t' <= c && c <= '\r')
    ||| c == '\u{85}'
    ||| c == '\u{a0}'
    ||| c == '\u{1680}'
    ||| ('\u{2000}' <= c && c <= '\u{200a}')
    ||| c == '\u{2028}'
    ||| c == '\u{2029}'
    ||| c == '\u{202f}'
    ||| c == '\u{205f}'
    ||| c == '\u{3000}'
}

pub fn blanco(c: char) -> (r: bool)
    ensures
        r == es_blanco(c),
{
    c == ' ' || ('\t' <= c && c <= '\r') || c == '\u{85}' || c == '\u{a0}' || c == '\u{1680}'
        || ('\u{2000}' <= c && c <= '\u{200a}') || c == '\u{2028}' || c == '\u{2029}' || c
        == '\u{202f}' || c == '\u{205f}' || c == '\u{3000}'
}

pub open spec fn es_minuscula_ascii(c: char) -> bool {
    'a' <= c && c <= 'z'
}

pub open spec fn es_mayuscula_ascii(c: char) -> bool {
    'A' <= c && c <= 'Z'
}

pub open spec fn es_digito_ascii(c: char) -> bool {
    '0' <= c && c <= '9'
}

pub open spec fn es_alfanumerico_ascii(c: char) -> bool {
    es_minuscula_ascii(c) || es_mayuscula_ascii(c) || es_digito_ascii(c)
}

/// Los caracteres de control: la categoría general `Cc` de Unicode, que es la
/// que consulta `char::is_control`.
pub open spec fn es_control(c: char) -> bool {
    c <= '\u{1f}' || ('\u{7f}' <= c && c <= '\u{9f}')
}

pub fn minuscula_ascii(c: char) -> (r: bool)
    ensures
        r == es_minuscula_ascii(c),
{
    'a' <= c && c <= 'z'
}

pub fn digito_ascii(c: char) -> (r: bool)
    ensures
        r == es_digito_ascii(c),
{
    '0' <= c && c <= '9'
}

pub fn alfanumerico_ascii(c: char) -> (r: bool)
    ensures
        r == es_alfanumerico_ascii(c),
{
    ('a' <= c && c <= 'z') || ('A' <= c && c <= 'Z') || ('0' <= c && c <= '9')
}

pub fn control(c: char) -> (r: bool)
    ensures
        r == es_control(c),
{
    c <= '\u{1f}' || ('\u{7f}' <= c && c <= '\u{9f}')
}

/// La minúscula ASCII de un carácter: la letra correspondiente si es una
/// mayúscula ASCII, el mismo carácter en cualquier otro caso.
pub open spec fn bajar_ascii(c: char) -> char {
    if es_mayuscula_ascii(c) {
        ((c as u32) + 32) as char
    } else {
        c
    }
}

pub fn a_minuscula_ascii(c: char) -> (r: char)
    ensures
        r == bajar_ascii(c),
{
    if 'A' <= c && c <= 'Z' {
        let n: u32 = (c as u32) + 32;
        assert(n <= 0x7f);
        char_desde_ascii(n)
    } else {
        c
    }
}

/// Un carácter ASCII a partir de su código.
pub fn char_desde_ascii(n: u32) -> (c: char)
    requires
        n <= 0x7f,
    ensures
        c as u32 == n,
        c == n as char,
{
    let b: u8 = n as u8;
    b as char
}

// ── Cadenas ─────────────────────────────────────────────────────────────────

/// Los caracteres de una cadena, en orden.
pub fn caracteres(s: &str) -> (v: Vec<char>)
    ensures
        v@ == s@,
{
    let mut v: Vec<char> = Vec::new();
    for c in it: s.chars()
        invariant
            v@ == it.seq().take(it.index() as int),
            it.seq() == s@,
    {
        v.push(c);
    }
    v
}

/// Arma una cadena con estos caracteres.
///
/// Envuelve `String::from_iter`, que según su documentación concatena los
/// caracteres en el orden en que los recibe.
#[verifier::external_body]
pub fn cadena_de(v: Vec<char>) -> (s: String)
    ensures
        s@ == v@,
{
    String::from_iter(v)
}

/// Una cadena nueva con el contenido de un `str`.
pub fn cadena(s: &str) -> (r: String)
    ensures
        r@ == s@,
{
    s.to_owned()
}

/// Si dos cadenas son iguales carácter por carácter.
pub fn iguales(a: &str, b: &str) -> (r: bool)
    ensures
        r == (a@ == b@),
{
    let x = caracteres(a);
    let y = caracteres(b);
    if x.len() != y.len() {
        return false;
    }
    let mut i: usize = 0;
    while i < x.len()
        invariant
            x@ == a@,
            y@ == b@,
            x.len() == y.len(),
            i <= x.len(),
            forall|j: int| 0 <= j < i ==> x@[j] == y@[j],
        decreases x.len() - i,
    {
        if x[i] != y[i] {
            return false;
        }
        i = i + 1;
    }
    assert(x@ =~= y@);
    true
}

/// Si dos sucesiones son iguales al pasar sus letras ASCII a minúscula.
pub open spec fn iguales_sin_caso(a: Seq<char>, b: Seq<char>) -> bool {
    &&& a.len() == b.len()
    &&& forall|i: int| 0 <= i < a.len() ==> bajar_ascii(#[trigger] a[i]) == bajar_ascii(b[i])
}

/// Compara sin distinguir mayúsculas de minúsculas ASCII, como
/// `str::eq_ignore_ascii_case`.
pub fn iguales_ignorando_caso(a: &str, b: &str) -> (r: bool)
    ensures
        r == iguales_sin_caso(a@, b@),
{
    let x = caracteres(a);
    let y = caracteres(b);
    if x.len() != y.len() {
        return false;
    }
    let mut i: usize = 0;
    while i < x.len()
        invariant
            x@ == a@,
            y@ == b@,
            x.len() == y.len(),
            i <= x.len(),
            forall|j: int| 0 <= j < i ==> bajar_ascii(#[trigger] x@[j]) == bajar_ascii(y@[j]),
        decreases x.len() - i,
    {
        if a_minuscula_ascii(x[i]) != a_minuscula_ascii(y[i]) {
            return false;
        }
        i = i + 1;
    }
    true
}

/// Si `c` aparece en `s`.
pub fn contiene_caracter(s: &Vec<char>, c: char) -> (r: bool)
    ensures
        r == s@.contains(c),
{
    let mut i: usize = 0;
    while i < s.len()
        invariant
            i <= s.len(),
            forall|j: int| 0 <= j < i ==> s@[j] != c,
        decreases s.len() - i,
    {
        if s[i] == c {
            assert(s@[i as int] == c);
            return true;
        }
        i = i + 1;
    }
    false
}


// ── Números ─────────────────────────────────────────────────────────────────

/// La cifra decimal `n`, para `n < 10`.
pub open spec fn cifra(n: nat) -> char {
    ((n + 48) as u32) as char
}

/// La escritura decimal de `n`, sin ceros a la izquierda.
pub open spec fn decimal(n: nat) -> Seq<char>
    decreases n,
{
    if n < 10 {
        seq![cifra(n)]
    } else {
        decimal(n / 10).push(cifra(n % 10))
    }
}

/// Agrega la escritura decimal de `n`.
pub fn escribir_decimal(v: &mut Vec<char>, n: u64)
    ensures
        final(v)@ == old(v)@ + decimal(n as nat),
    decreases n,
{
    if n >= 10 {
        escribir_decimal(v, n / 10);
    }
    let d: u64 = n % 10;
    let c = char_desde_ascii((d + 48) as u32);
    v.push(c);
    proof {
        if n >= 10 {
            assert(old(v)@ + decimal(n as nat) =~= old(v)@ + decimal((n / 10) as nat) + seq![
                cifra((n % 10) as nat),
            ]);
        } else {
            assert(old(v)@ + decimal(n as nat) =~= old(v)@ + seq![cifra(n as nat)]);
        }
    }
}

/// Agrega los caracteres de `s`.
pub fn agregar(v: &mut Vec<char>, s: &str)
    ensures
        final(v)@ == old(v)@ + s@,
{
    let c = caracteres(s);
    let mut i: usize = 0;
    while i < c.len()
        invariant
            i <= c.len(),
            c@ == s@,
            v@ == old(v)@ + s@.take(i as int),
        decreases c.len() - i,
    {
        v.push(c[i]);
        assert(s@.take(i as int + 1) =~= s@.take(i as int).push(c@[i as int]));
        i = i + 1;
    }
    assert(s@.take(i as int) =~= s@);
}

/// La escritura decimal de `n`, como cadena.
pub fn numero(n: u64) -> (s: String)
    ensures
        s@ == decimal(n as nat),
{
    let mut v: Vec<char> = Vec::new();
    escribir_decimal(&mut v, n);
    assert(v@ =~= decimal(n as nat));
    cadena_de(v)
}


// ── Partir ──────────────────────────────────────────────────────────────────

/// Los tramos de `s` entre apariciones de `sep`, como `str::split`: siempre
/// al menos uno, y vacíos donde hay dos separadores seguidos o uno en un
/// borde.
pub open spec fn partes(s: Seq<char>, sep: char) -> Seq<Seq<char>>
    decreases s.len(),
{
    if s.len() == 0 {
        seq![seq![]]
    } else {
        let r = partes(s.drop_last(), sep);
        if s.last() == sep {
            r.push(seq![])
        } else {
            r.update(r.len() - 1, r.last().push(s.last()))
        }
    }
}

pub proof fn lemma_partes_no_vacias(s: Seq<char>, sep: char)
    ensures
        partes(s, sep).len() >= 1,
    decreases s.len(),
{
    if s.len() > 0 {
        lemma_partes_no_vacias(s.drop_last(), sep);
    }
}

/// Parte `s` en los tramos entre separadores.
pub fn dividir(s: &str, sep: char) -> (r: Vec<Vec<char>>)
    ensures
        r@.map_values(|t: Vec<char>| t@) == partes(s@, sep),
{
    let c = caracteres(s);
    let mut hechas: Vec<Vec<char>> = Vec::new();
    let mut actual: Vec<char> = Vec::new();
    let mut i: usize = 0;
    proof {
        assert(s@.take(0) =~= seq![]);
        assert(hechas@.map_values(|t: Vec<char>| t@).push(actual@) =~= partes(s@.take(0), sep));
    }
    while i < c.len()
        invariant
            i <= c.len(),
            c@ == s@,
            hechas@.map_values(|t: Vec<char>| t@).push(actual@) == partes(s@.take(i as int), sep),
        decreases c.len() - i,
    {
        let ghost antes = hechas@.map_values(|t: Vec<char>| t@);
        let ghost viejo = actual@;
        proof {
            lemma_partes_no_vacias(s@.take(i as int), sep);
            assert(s@.take(i as int + 1).drop_last() =~= s@.take(i as int));
            assert(s@.take(i as int + 1).last() == c@[i as int]);
        }
        if c[i] == sep {
            let terminado = actual;
            hechas.push(terminado);
            actual = Vec::new();
            assert(hechas@.map_values(|t: Vec<char>| t@) =~= antes.push(viejo));
            assert(hechas@.map_values(|t: Vec<char>| t@).push(actual@) =~= antes.push(viejo).push(
                seq![],
            ));
        } else {
            actual.push(c[i]);
            assert(hechas@.map_values(|t: Vec<char>| t@).push(actual@) =~= antes.push(viejo).update(
                antes.len() as int,
                viejo.push(c@[i as int]),
            ));
        }
        i = i + 1;
    }
    assert(s@.take(i as int) =~= s@);
    let ghost antes = hechas@.map_values(|t: Vec<char>| t@);
    hechas.push(actual);
    assert(hechas@.map_values(|t: Vec<char>| t@) =~= antes.push(actual@));
    hechas
}

/// Si `s` tiene dos `c` seguidas.
pub open spec fn tiene_doble(s: Seq<char>, c: char) -> bool {
    exists|i: int| 0 <= i < s.len() - 1 && s[i] == c && #[trigger] s[i + 1] == c
}

pub fn doble(s: &Vec<char>, c: char) -> (r: bool)
    ensures
        r == tiene_doble(s@, c),
{
    let mut i: usize = 0;
    while i < s.len() && i + 1 < s.len()
        invariant
            i <= s.len(),
            forall|j: int| 0 <= j < i && j < s.len() - 1 ==> !(s@[j] == c && #[trigger] s@[j + 1] == c),
        decreases s.len() - i,
    {
        if s[i] == c && s[i + 1] == c {
            return true;
        }
        i = i + 1;
    }
    false
}


// ── Bytes ───────────────────────────────────────────────────────────────────

/// Cuántos bytes ocupa un carácter en UTF-8.
pub open spec fn ancho_utf8(c: char) -> nat {
    vstd::utf8::encode_scalar(c as u32).len()
}

proof fn lemma_ancho_utf8(s: Seq<char>)
    requires
        s.len() > 0,
    ensures
        encode_utf8(s).len() == ancho_utf8(s[0]) + encode_utf8(s.drop_first()).len(),
{
}

/// Si los caracteres ocupan en UTF-8 más de `limite` bytes.
pub fn excede_bytes(c: &Vec<char>, limite: usize) -> (r: bool)
    ensures
        r == (encode_utf8(c@).len() > limite),
{
    let mut acc: usize = 0;
    let mut i: usize = 0;
    proof {
        assert(c@.skip(0) =~= c@);
    }
    while i < c.len()
        invariant
            i <= c.len(),
            acc <= limite,
            acc + encode_utf8(c@.skip(i as int)).len() == encode_utf8(c@).len(),
        decreases c.len() - i,
    {
        proof {
            lemma_ancho_utf8(c@.skip(i as int));
            assert(c@.skip(i as int)[0] == c@[i as int]);
            assert(c@.skip(i as int).drop_first() =~= c@.skip(i as int + 1));
        }
        let x = c[i] as u32;
        let ancho: usize = if x < 0x80 {
            1
        } else if x < 0x800 {
            2
        } else if x < 0x10000 && !(0xD800 <= x && x <= 0xDFFF) {
            3
        } else {
            4
        };
        if ancho > limite - acc {
            return true;
        }
        acc = acc + ancho;
        i = i + 1;
    }
    proof {
        assert(c@.skip(i as int) =~= seq![]);
    }
    false
}


// ── Líneas ──────────────────────────────────────────────────────────────────

/// Una línea sin el `\r` de un fin de línea `\r\n`.
pub open spec fn sin_cr(t: Seq<char>) -> Seq<char> {
    if t.len() > 0 && t.last() == '\r' {
        t.drop_last()
    } else {
        t
    }
}

/// Las líneas de un texto, como `str::lines`: se corta en cada `\n`, se saca
/// el `\r` de un `\r\n`, y un fin de línea al final no agrega una línea vacía.
pub open spec fn lineas(s: Seq<char>) -> Seq<Seq<char>> {
    let ps = partes(s, '\n');
    let n = ps.len() as int;
    Seq::new(
        if ps[n - 1].len() == 0 {
            (n - 1) as nat
        } else {
            n as nat
        },
        |i: int|
            if i < n - 1 {
                sin_cr(ps[i])
            } else {
                ps[i]
            },
    )
}

/// Las líneas de un texto.
pub fn lineas_de(s: &str) -> (r: Vec<Vec<char>>)
    ensures
        r@.map_values(|t: Vec<char>| t@) == lineas(s@),
{
    let ps = dividir(s, '\n');
    let ghost vp = ps@.map_values(|t: Vec<char>| t@);
    proof {
        lemma_partes_no_vacias(s@, '\n');
    }
    let n = ps.len();
    let ultima_vacia = ps[n - 1].len() == 0;
    let cuantas = if ultima_vacia {
        n - 1
    } else {
        n
    };
    let mut r: Vec<Vec<char>> = Vec::new();
    let mut i: usize = 0;
    while i < cuantas
        invariant
            i <= cuantas <= n,
            n == ps.len(),
            n >= 1,
            vp == ps@.map_values(|t: Vec<char>| t@),
            vp == partes(s@, '\n'),
            r@.len() == i,
            forall|j: int|
                0 <= j < i ==> (#[trigger] r@[j])@ == (if j < n - 1 {
                    sin_cr(vp[j])
                } else {
                    vp[j]
                }),
        decreases cuantas - i,
    {
        let t = &ps[i];
        let mut linea: Vec<char> = Vec::new();
        let mut largo = t.len();
        if i < n - 1 && largo > 0 && t[largo - 1] == '\r' {
            largo = largo - 1;
        }
        let mut k: usize = 0;
        while k < largo
            invariant
                k <= largo <= t.len(),
                linea@ == t@.take(k as int),
            decreases largo - k,
        {
            linea.push(t[k]);
            assert(linea@ =~= t@.take(k as int + 1));
            k = k + 1;
        }
        proof {
            assert(vp[i as int] == t@);
            if i < n - 1 && t.len() > 0 && t@.last() == '\r' {
                assert(linea@ =~= t@.drop_last());
            } else {
                assert(linea@ =~= t@);
            }
        }
        r.push(linea);
        i = i + 1;
    }
    assert(r@.map_values(|t: Vec<char>| t@) =~= lineas(s@));
    r
}

/// Si `t` termina en `suf`.
pub open spec fn termina_en(t: Seq<char>, suf: Seq<char>) -> bool {
    t.len() >= suf.len() && t.subrange(t.len() - suf.len(), t.len() as int) == suf
}

/// `t` sin todas las repeticiones de `suf` al final, como
/// `str::trim_end_matches`.
pub open spec fn sin_sufijos(t: Seq<char>, suf: Seq<char>) -> Seq<char>
    decreases t.len(),
{
    if suf.len() > 0 && termina_en(t, suf) {
        sin_sufijos(t.take(t.len() - suf.len()), suf)
    } else {
        t
    }
}

pub fn termina_con(t: &Vec<char>, suf: &Vec<char>) -> (r: bool)
    ensures
        r == termina_en(t@, suf@),
{
    if t.len() < suf.len() {
        return false;
    }
    let base = t.len() - suf.len();
    let mut i: usize = 0;
    while i < suf.len()
        invariant
            i <= suf.len(),
            base + suf.len() == t.len(),
            forall|j: int| 0 <= j < i ==> t@[base + j] == suf@[j],
        decreases suf.len() - i,
    {
        if t[base + i] != suf[i] {
            assert(t@.subrange(base as int, t.len() as int)[i as int] != suf@[i as int]);
            return false;
        }
        i = i + 1;
    }
    assert(t@.subrange(base as int, t.len() as int) =~= suf@);
    true
}

/// Saca todas las repeticiones de `suf` del final.
pub fn recortar_sufijos(t: &Vec<char>, suf: &str) -> (r: Vec<char>)
    ensures
        r@ == sin_sufijos(t@, suf@),
{
    let s = caracteres(suf);
    let mut largo = t.len();
    proof {
        assert(t@.take(largo as int) =~= t@);
    }
    if s.len() > 0 {
        loop
            invariant
                largo <= t.len(),
                s@ == suf@,
                s.len() > 0,
                sin_sufijos(t@, suf@) == sin_sufijos(t@.take(largo as int), suf@),
            ensures
                sin_sufijos(t@, suf@) == t@.take(largo as int),
            decreases largo,
        {
            let mut prefijo: Vec<char> = Vec::new();
            let mut k: usize = 0;
            while k < largo
                invariant
                    k <= largo <= t.len(),
                    prefijo@ == t@.take(k as int),
                decreases largo - k,
            {
                prefijo.push(t[k]);
                assert(prefijo@ =~= t@.take(k as int + 1));
                k = k + 1;
            }
            if termina_con(&prefijo, &s) {
                proof {
                    assert(t@.take(largo as int).take(largo - s.len()) =~= t@.take(
                        largo - s.len(),
                    ));
                }
                largo = largo - s.len();
            } else {
                assert(prefijo@ =~= t@.take(largo as int));
                break;
            }
        }
    }
    assert(sin_sufijos(t@, suf@) == t@.take(largo as int));
    let mut r: Vec<char> = Vec::new();
    let mut k: usize = 0;
    while k < largo
        invariant
            k <= largo <= t.len(),
            r@ == t@.take(k as int),
        decreases largo - k,
    {
        r.push(t[k]);
        assert(r@ =~= t@.take(k as int + 1));
        k = k + 1;
    }
    r
}


// ── Blancos en los bordes ───────────────────────────────────────────────────

/// Sin los blancos del principio.
pub open spec fn sin_blancos_al_frente(s: Seq<char>) -> Seq<char>
    decreases s.len(),
{
    if s.len() > 0 && es_blanco(s[0]) {
        sin_blancos_al_frente(s.drop_first())
    } else {
        s
    }
}

/// Sin los blancos del final.
pub open spec fn sin_blancos_al_final(s: Seq<char>) -> Seq<char>
    decreases s.len(),
{
    if s.len() > 0 && es_blanco(s.last()) {
        sin_blancos_al_final(s.drop_last())
    } else {
        s
    }
}

/// Sin blancos en los bordes, como `str::trim`.
pub open spec fn recortado(s: Seq<char>) -> Seq<char> {
    sin_blancos_al_final(sin_blancos_al_frente(s))
}

/// Si no tiene más que blancos.
pub open spec fn todo_blanco(s: Seq<char>) -> bool {
    forall|i: int| 0 <= i < s.len() ==> es_blanco(#[trigger] s[i])
}

proof fn lemma_sin_blancos_al_frente_es_sufijo(s: Seq<char>)
    ensures
        exists|k: int| 0 <= k <= s.len() && sin_blancos_al_frente(s) == s.skip(k) && (forall|j: int|
            0 <= j < k ==> es_blanco(#[trigger] s[j])),
    decreases s.len(),
{
    if s.len() > 0 && es_blanco(s[0]) {
        let t = s.drop_first();
        lemma_sin_blancos_al_frente_es_sufijo(t);
        let k = choose|k: int|
            0 <= k <= t.len() && sin_blancos_al_frente(t) == t.skip(k) && (forall|j: int|
                0 <= j < k ==> es_blanco(#[trigger] t[j]));
        assert(t.skip(k) =~= s.skip(k + 1));
        assert forall|j: int| 0 <= j < k + 1 implies es_blanco(#[trigger] s[j]) by {
            if j > 0 {
                assert(s[j] == t[j - 1]);
            }
        }
    } else {
        assert(s.skip(0) =~= s);
    }
}

proof fn lemma_sin_blancos_al_final_es_prefijo(s: Seq<char>)
    ensures
        exists|k: int| 0 <= k <= s.len() && sin_blancos_al_final(s) == s.take(k),
    decreases s.len(),
{
    if s.len() > 0 && es_blanco(s.last()) {
        let t = s.drop_last();
        lemma_sin_blancos_al_final_es_prefijo(t);
        let k = choose|k: int| 0 <= k <= t.len() && sin_blancos_al_final(t) == t.take(k);
        assert(t.take(k) =~= s.take(k));
    } else {
        assert(s.take(s.len() as int) =~= s);
    }
}

/// Lo recortado es un tramo del texto, y si no quedó vacío no empieza ni
/// termina con un blanco.
pub proof fn lemma_recortado_es_tramo(s: Seq<char>)
    ensures
        exists|i: int, j: int| 0 <= i <= j <= s.len() && recortado(s) == s.subrange(i, j),
        recortado(s).len() > 0 ==> !es_blanco(recortado(s)[0]) && !es_blanco(
            recortado(s).last(),
        ),
{
    lemma_sin_blancos_al_frente_es_sufijo(s);
    let f = sin_blancos_al_frente(s);
    let i = choose|k: int|
        0 <= k <= s.len() && sin_blancos_al_frente(s) == s.skip(k) && (forall|j: int|
            0 <= j < k ==> es_blanco(#[trigger] s[j]));
    lemma_sin_blancos_al_final_es_prefijo(f);
    let k = choose|k: int| 0 <= k <= f.len() && sin_blancos_al_final(f) == f.take(k);
    assert(f.take(k) =~= s.subrange(i, i + k));
    lemma_frente_sin_blanco(s);
    lemma_final_sin_blanco(f);
    if recortado(s).len() > 0 {
        assert(recortado(s)[0] == f[0]);
    }
}

proof fn lemma_frente_sin_blanco(s: Seq<char>)
    ensures
        sin_blancos_al_frente(s).len() > 0 ==> !es_blanco(sin_blancos_al_frente(s)[0]),
    decreases s.len(),
{
    if s.len() > 0 && es_blanco(s[0]) {
        lemma_frente_sin_blanco(s.drop_first());
    }
}

proof fn lemma_final_sin_blanco(s: Seq<char>)
    ensures
        sin_blancos_al_final(s).len() > 0 ==> !es_blanco(sin_blancos_al_final(s).last()),
    decreases s.len(),
{
    if s.len() > 0 && es_blanco(s.last()) {
        lemma_final_sin_blanco(s.drop_last());
    }
}

/// Recorta los blancos de los dos bordes.
pub fn recortar(c: &Vec<char>) -> (r: Vec<char>)
    ensures
        r@ == recortado(c@),
{
    let mut i: usize = 0;
    proof {
        assert(c@.skip(0) =~= c@);
    }
    while i < c.len() && blanco(c[i])
        invariant
            i <= c.len(),
            sin_blancos_al_frente(c@) == sin_blancos_al_frente(c@.skip(i as int)),
        decreases c.len() - i,
    {
        proof {
            assert(c@.skip(i as int)[0] == c@[i as int]);
            assert(c@.skip(i as int).drop_first() =~= c@.skip(i as int + 1));
        }
        i = i + 1;
    }
    proof {
        if i < c.len() {
            assert(c@.skip(i as int)[0] == c@[i as int]);
        }
    }
    let ghost frente = c@.skip(i as int);
    assert(sin_blancos_al_frente(c@) == frente);
    let mut j: usize = c.len();
    proof {
        assert(frente.take(frente.len() as int) =~= frente);
    }
    while j > i && blanco(c[j - 1])
        invariant
            i <= j <= c.len(),
            frente == c@.skip(i as int),
            sin_blancos_al_final(frente) == sin_blancos_al_final(frente.take(j - i)),
        decreases j,
    {
        proof {
            let t = frente.take(j - i);
            assert(t.last() == c@[j - 1]);
            assert(t.drop_last() =~= frente.take(j - 1 - i));
        }
        j = j - 1;
    }
    proof {
        let t = frente.take(j - i);
        if j > i {
            assert(t.last() == c@[j - 1]);
        }
        assert(sin_blancos_al_final(t) == t);
    }
    let mut r: Vec<char> = Vec::new();
    let mut k: usize = i;
    while k < j
        invariant
            i <= k <= j <= c.len(),
            r@ == c@.subrange(i as int, k as int),
        decreases j - k,
    {
        r.push(c[k]);
        assert(r@ =~= c@.subrange(i as int, k as int + 1));
        k = k + 1;
    }
    assert(r@ =~= frente.take(j - i));
    r
}


/// Una copia de los caracteres.
pub fn copia(v: &Vec<char>) -> (r: Vec<char>)
    ensures
        r@ == v@,
{
    let mut r: Vec<char> = Vec::new();
    let mut i: usize = 0;
    while i < v.len()
        invariant
            i <= v.len(),
            r@ == v@.take(i as int),
        decreases v.len() - i,
    {
        r.push(v[i]);
        assert(r@ =~= v@.take(i as int + 1));
        i = i + 1;
    }
    assert(v@.take(i as int) =~= v@);
    r
}


// ── Palabras ────────────────────────────────────────────────────────────────

/// El recorrido de un texto de a un carácter: las palabras terminadas y la
/// que se está armando.
pub open spec fn palabras_hasta(s: Seq<char>) -> (Seq<Seq<char>>, Seq<char>)
    decreases s.len(),
{
    if s.len() == 0 {
        (seq![], seq![])
    } else {
        let (ws, actual) = palabras_hasta(s.drop_last());
        let c = s.last();
        if es_blanco(c) {
            if actual.len() > 0 {
                (ws.push(actual), seq![])
            } else {
                (ws, seq![])
            }
        } else {
            (ws, actual.push(c))
        }
    }
}

/// Las palabras de un texto, como `str::split_whitespace`: los tramos entre
/// blancos, sin los vacíos.
pub open spec fn palabras(s: Seq<char>) -> Seq<Seq<char>> {
    let (ws, actual) = palabras_hasta(s);
    if actual.len() > 0 {
        ws.push(actual)
    } else {
        ws
    }
}

/// Las palabras de un texto.
pub fn palabras_de(s: &str) -> (r: Vec<Vec<char>>)
    ensures
        r@.map_values(|w: Vec<char>| w@) == palabras(s@),
{
    let c = caracteres(s);
    let mut ws: Vec<Vec<char>> = Vec::new();
    let mut actual: Vec<char> = Vec::new();
    let mut i: usize = 0;
    while i < c.len()
        invariant
            i <= c.len(),
            c@ == s@,
            palabras_hasta(s@.take(i as int)) == (ws@.map_values(|w: Vec<char>| w@), actual@),
        decreases c.len() - i,
    {
        proof {
            assert(s@.take(i as int + 1).drop_last() =~= s@.take(i as int));
            assert(s@.take(i as int + 1).last() == c@[i as int]);
        }
        let ghost antes = ws@.map_values(|w: Vec<char>| w@);
        if blanco(c[i]) {
            if actual.len() > 0 {
                let terminada = actual;
                let ghost t = terminada@;
                ws.push(terminada);
                actual = Vec::new();
                assert(ws@.map_values(|w: Vec<char>| w@) =~= antes.push(t));
                assert(actual@ =~= seq![]);
            } else {
                actual = Vec::new();
                assert(actual@ =~= seq![]);
            }
        } else {
            actual.push(c[i]);
        }
        i = i + 1;
    }
    assert(s@.take(i as int) =~= s@);
    if actual.len() > 0 {
        let ghost antes = ws@.map_values(|w: Vec<char>| w@);
        let ghost t = actual@;
        ws.push(actual);
        assert(ws@.map_values(|w: Vec<char>| w@) =~= antes.push(t));
    }
    ws
}

} // verus!
