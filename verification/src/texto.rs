//! Verified text utilities over the character view of strings: ASCII
//! trimming, equality, case-insensitive substring search and decimal
//! rendering of integer amounts.

use vstd::prelude::*;
use vstd::string::StrSliceExecFns;
use vstd::string::StringExecFns;

verus! {

// ---------------------------------------------------------------------------
// ASCII whitespace trimming.
// ---------------------------------------------------------------------------

pub open spec fn es_espacio(c: char) -> bool {
    c == ' ' || c == '\t' || c == '\n' || c == '\r'
}

pub open spec fn recorte_izq(s: Seq<char>) -> Seq<char>
    decreases s.len(),
{
    if s.len() > 0 && es_espacio(s.first()) {
        recorte_izq(s.drop_first())
    } else {
        s
    }
}

pub open spec fn recorte_der(s: Seq<char>) -> Seq<char>
    decreases s.len(),
{
    if s.len() > 0 && es_espacio(s.last()) {
        recorte_der(s.drop_last())
    } else {
        s
    }
}

/// The string with its leading and trailing ASCII whitespace removed.
pub open spec fn recortado(s: Seq<char>) -> Seq<char> {
    recorte_der(recorte_izq(s))
}

proof fn lema_recorte_izq_salta(s: Seq<char>, i: int)
    requires
        0 <= i <= s.len(),
        forall|j: int| 0 <= j < i ==> es_espacio(#[trigger] s[j]),
    ensures
        recorte_izq(s) == recorte_izq(s.skip(i)),
    decreases i,
{
    if i == 0 {
        assert(s.skip(0) =~= s);
    } else {
        assert(es_espacio(s.first()));
        assert(s.drop_first() =~= s.skip(1));
        assert forall|j: int| 0 <= j < i - 1 implies es_espacio(#[trigger] s.skip(1)[j]) by {
            assert(s.skip(1)[j] == s[j + 1]);
        }
        lema_recorte_izq_salta(s.skip(1), i - 1);
        assert(s.skip(1).skip(i - 1) =~= s.skip(i));
    }
}

proof fn lema_recorte_der_corta(s: Seq<char>, k: int)
    requires
        0 <= k <= s.len(),
        forall|j: int| k <= j < s.len() ==> es_espacio(#[trigger] s[j]),
    ensures
        recorte_der(s) == recorte_der(s.take(k)),
    decreases s.len() - k,
{
    if k == s.len() {
        assert(s.take(k) =~= s);
    } else {
        assert(es_espacio(s.last()));
        assert forall|j: int| k <= j < s.drop_last().len() implies es_espacio(
            #[trigger] s.drop_last()[j],
        ) by {
            assert(s.drop_last()[j] == s[j]);
        }
        lema_recorte_der_corta(s.drop_last(), k);
        assert(s.drop_last().take(k) =~= s.take(k));
    }
}

fn es_espacio_exec(c: char) -> (r: bool)
    ensures
        r == es_espacio(c),
{
    c == ' ' || c == '\t' || c == '\n' || c == '\r'
}

/// Trim ASCII whitespace from both ends.
#[verifier::loop_isolation(false)]
pub fn recortar(s: &str) -> (r: &str)
    ensures
        r@ == recortado(s@),
{
    let n = s.unicode_len();
    let mut a: usize = 0;
    while a < n && es_espacio_exec(s.get_char(a))
        invariant
            a <= n,
            forall|j: int| 0 <= j < a ==> es_espacio(#[trigger] s@[j]),
        decreases n - a,
    {
        a += 1;
    }
    proof {
        lema_recorte_izq_salta(s@, a as int);
        if a < n {
            assert(s@.skip(a as int).first() == s@[a as int]);
        }
        assert(recorte_izq(s@) == s@.skip(a as int));
    }
    let mut b: usize = n;
    while b > a && es_espacio_exec(s.get_char(b - 1))
        invariant
            a <= b <= n,
            forall|j: int| b <= j < n ==> es_espacio(#[trigger] s@[j]),
        decreases b,
    {
        b -= 1;
    }
    let t = s.substring_char(a, b);
    proof {
        let u = s@.skip(a as int);
        assert forall|j: int| b - a <= j < u.len() implies es_espacio(#[trigger] u[j]) by {
            assert(u[j] == s@[j + a]);
        }
        lema_recorte_der_corta(u, b - a);
        if b > a {
            assert(u.take(b - a).last() == s@[b - 1]);
        }
        assert(recorte_der(u) == u.take(b - a));
        assert(t@ =~= u.take(b - a));
    }
    t
}

// ---------------------------------------------------------------------------
// Equality.
// ---------------------------------------------------------------------------

/// Exact (case-sensitive) equality of two strings.
pub fn textos_iguales(a: &str, b: &str) -> (r: bool)
    ensures
        r == (a@ == b@),
{
    let x = a.to_owned();
    let y = b.to_owned();
    x == y
}

// ---------------------------------------------------------------------------
// Case-insensitive substring search.
// ---------------------------------------------------------------------------

/// ASCII lower-casing of one character.
pub open spec fn minuscula(c: char) -> char {
    if 65 <= c as u32 && c as u32 <= 90 {
        (((c as u32) + 32) as u8) as char
    } else {
        c
    }
}

/// ASCII lower-casing of a whole string.
pub open spec fn en_minusculas(s: Seq<char>) -> Seq<char> {
    s.map_values(|c: char| minuscula(c))
}

/// Does `p` occur contiguously inside `t`?
pub open spec fn contiene_en(t: Seq<char>, p: Seq<char>) -> bool {
    exists|k: int| 0 <= k <= t.len() - p.len() && #[trigger] t.subrange(k, k + p.len()) == p
}

/// Case-insensitive containment, the library's reading of a substring match
/// on names.
pub open spec fn contiene_sin_caso(t: Seq<char>, p: Seq<char>) -> bool {
    contiene_en(en_minusculas(t), en_minusculas(p))
}

fn char_minuscula(c: char) -> (r: char)
    ensures
        r == minuscula(c),
{
    let u = c as u32;
    if 65 <= u && u <= 90 {
        ((u + 32) as u8) as char
    } else {
        c
    }
}

/// The string as a vector of lower-cased characters.
#[verifier::loop_isolation(false)]
fn minusculas_de(s: &str) -> (r: Vec<char>)
    ensures
        r@ == en_minusculas(s@),
{
    let n = s.unicode_len();
    let mut r: Vec<char> = Vec::new();
    let mut i: usize = 0;
    while i < n
        invariant
            i <= n,
            r@.len() == i,
            forall|j: int| 0 <= j < i ==> r@[j] == minuscula(#[trigger] s@[j]),
        decreases n - i,
    {
        r.push(char_minuscula(s.get_char(i)));
        i += 1;
    }
    proof {
        assert(r@ =~= en_minusculas(s@));
    }
    r
}

/// Whether `patron` occurs inside `texto`, ignoring ASCII case.
#[verifier::loop_isolation(false)]
pub fn contiene_sub(texto: &str, patron: &str) -> (r: bool)
    ensures
        r == contiene_sin_caso(texto@, patron@),
{
    let t = minusculas_de(texto);
    let p = minusculas_de(patron);
    let nt = t.len();
    let np = p.len();
    if np > nt {
        proof {
            assert(!contiene_en(t@, p@));
        }
        return false;
    }
    if np == 0 {
        proof {
            assert(t@.subrange(0, 0 + p@.len() as int) =~= p@);
            assert(contiene_en(t@, p@));
        }
        return true;
    }
    let mut k: usize = 0;
    while k <= nt - np
        invariant
            k <= nt - np + 1,
            1 <= np <= nt,
            forall|x: int| 0 <= x < k ==> #[trigger] t@.subrange(x, x + p@.len()) != p@,
        decreases nt - np - k + 1,
    {
        let mut i: usize = 0;
        let mut difiere = false;
        while i < np
            invariant
                i <= np,
                k + np <= nt,
                !difiere ==> forall|y: int| 0 <= y < i ==> t@[k + y] == p@[y],
                difiere ==> t@.subrange(k as int, k as int + p@.len()) != p@,
            decreases np - i,
        {
            if t[k + i] != p[i] {
                proof {
                    assert(t@.subrange(k as int, k as int + p@.len())[i as int] != p@[i as int]);
                }
                difiere = true;
            }
            i += 1;
        }
        if !difiere {
            proof {
                assert(t@.subrange(k as int, k as int + p@.len()) =~= p@);
            }
            return true;
        }
        k += 1;
    }
    proof {
        assert forall|x: int| 0 <= x <= t@.len() - p@.len() implies #[trigger] t@.subrange(
            x,
            x + p@.len(),
        ) != p@ by {}
    }
    false
}

// ---------------------------------------------------------------------------
// Lexicographic order, for name-ordered listings.
// ---------------------------------------------------------------------------

/// Lexicographic order on character sequences, by code point; the empty
/// sequence comes first.
pub open spec fn lex_menor_igual(a: Seq<char>, b: Seq<char>) -> bool
    decreases a.len(),
{
    if a.len() == 0 {
        true
    } else if b.len() == 0 {
        false
    } else if a.first() as u32 != b.first() as u32 {
        (a.first() as u32) < (b.first() as u32)
    } else {
        lex_menor_igual(a.drop_first(), b.drop_first())
    }
}

/// The order is total: one of the two directions always holds.
pub proof fn lema_lex_total(a: Seq<char>, b: Seq<char>)
    ensures
        lex_menor_igual(a, b) || lex_menor_igual(b, a),
    decreases a.len(),
{
    if a.len() > 0 && b.len() > 0 && a.first() as u32 == b.first() as u32 {
        lema_lex_total(a.drop_first(), b.drop_first());
    }
}

/// The order is transitive.
pub proof fn lema_lex_transitiva(a: Seq<char>, b: Seq<char>, c: Seq<char>)
    requires
        lex_menor_igual(a, b),
        lex_menor_igual(b, c),
    ensures
        lex_menor_igual(a, c),
    decreases a.len(),
{
    if a.len() > 0 && b.len() > 0 && c.len() > 0 && a.first() as u32 == b.first() as u32
        && b.first() as u32 == c.first() as u32 {
        lema_lex_transitiva(a.drop_first(), b.drop_first(), c.drop_first());
    }
}

proof fn lema_lex_salta(a: Seq<char>, b: Seq<char>, i: int)
    requires
        0 <= i <= a.len(),
        i <= b.len(),
        forall|j: int| 0 <= j < i ==> a[j] == b[j],
    ensures
        lex_menor_igual(a, b) == lex_menor_igual(a.skip(i), b.skip(i)),
    decreases i,
{
    if i == 0 {
        assert(a.skip(0) =~= a);
        assert(b.skip(0) =~= b);
    } else {
        assert(a.first() == b.first());
        assert(a.drop_first() =~= a.skip(1));
        assert(b.drop_first() =~= b.skip(1));
        assert forall|j: int| 0 <= j < i - 1 implies a.skip(1)[j] == b.skip(1)[j] by {
            assert(a.skip(1)[j] == a[j + 1]);
            assert(b.skip(1)[j] == b[j + 1]);
        }
        lema_lex_salta(a.skip(1), b.skip(1), i - 1);
        assert(a.skip(1).skip(i - 1) =~= a.skip(i));
        assert(b.skip(1).skip(i - 1) =~= b.skip(i));
    }
}

/// Decide the lexicographic order of two strings.
#[verifier::loop_isolation(false)]
pub fn texto_menor_igual(a: &str, b: &str) -> (r: bool)
    ensures
        r == lex_menor_igual(a@, b@),
{
    let la = a.unicode_len();
    let lb = b.unicode_len();
    let mut i: usize = 0;
    while i < la && i < lb && a.get_char(i) == b.get_char(i)
        invariant
            i <= la,
            i <= lb,
            forall|j: int| 0 <= j < i ==> a@[j] == b@[j],
        decreases la - i,
    {
        i += 1;
    }
    proof {
        lema_lex_salta(a@, b@, i as int);
    }
    if i == la {
        proof {
            assert(a@.skip(i as int) =~= Seq::<char>::empty());
        }
        true
    } else if i == lb {
        proof {
            assert(b@.skip(i as int) =~= Seq::<char>::empty());
            assert(a@.skip(i as int).len() > 0);
        }
        false
    } else {
        proof {
            assert(a@.skip(i as int).first() == a@[i as int]);
            assert(b@.skip(i as int).first() == b@[i as int]);
        }
        let ca = a.get_char(i) as u32;
        let cb = b.get_char(i) as u32;
        ca < cb
    }
}

// ---------------------------------------------------------------------------
// Decimal rendering.
// ---------------------------------------------------------------------------

/// Is this character an ASCII decimal digit?
pub open spec fn es_digito_char(c: char) -> bool {
    48 <= c as u32 && c as u32 <= 57
}

/// The decimal digit character for `d`.
pub open spec fn digito(d: int) -> char {
    ((48 + d) as u8) as char
}

/// The decimal rendering of a non-negative integer, most significant digit
/// first, with no leading zeroes (zero itself renders as one digit).
pub open spec fn decimal_de(n: nat) -> Seq<char>
    decreases n,
{
    if n < 10 {
        seq![digito(n as int)]
    } else {
        decimal_de(n / 10) + seq![digito((n % 10) as int)]
    }
}

/// The rendering of an amount of cents as units, a dot, and exactly two
/// fraction digits.
pub open spec fn monto_de(centavos: nat) -> Seq<char> {
    decimal_de(centavos / 100) + seq!['.', digito(((centavos / 10) % 10) as int), digito(
        (centavos % 10) as int,
    )]
}

pub fn digito_texto(d: u8) -> (r: &'static str)
    requires
        d < 10,
    ensures
        r@ =~= seq![digito(d as int)],
{
    proof {
        reveal_strlit("0");
        reveal_strlit("1");
        reveal_strlit("2");
        reveal_strlit("3");
        reveal_strlit("4");
        reveal_strlit("5");
        reveal_strlit("6");
        reveal_strlit("7");
        reveal_strlit("8");
        reveal_strlit("9");
    }
    if d == 0 {
        "0"
    } else if d == 1 {
        "1"
    } else if d == 2 {
        "2"
    } else if d == 3 {
        "3"
    } else if d == 4 {
        "4"
    } else if d == 5 {
        "5"
    } else if d == 6 {
        "6"
    } else if d == 7 {
        "7"
    } else if d == 8 {
        "8"
    } else {
        "9"
    }
}

/// Digits of `v`, least significant first, read back most significant first.
spec fn digitos_invertidos(v: Seq<u8>) -> Seq<char> {
    Seq::new(v.len(), |i: int| digito(v[v.len() - 1 - i] as int))
}

/// Render an integer in decimal.
#[verifier::loop_isolation(false)]
pub fn texto_decimal(n: u64) -> (r: String)
    ensures
        r@ == decimal_de(n as nat),
{
    let mut digitos: Vec<u8> = Vec::new();
    let mut m: u64 = n;
    digitos.push((m % 10) as u8);
    m = m / 10;
    proof {
        assert(digitos_invertidos(digitos@) =~= seq![digito((n as nat % 10) as int)]);
    }
    while m > 0
        invariant
            digitos@.len() >= 1,
            forall|i: int| 0 <= i < digitos@.len() ==> (#[trigger] digitos@[i]) < 10,
            m == 0 ==> decimal_de(n as nat) == digitos_invertidos(digitos@),
            m > 0 ==> decimal_de(n as nat) == decimal_de(m as nat) + digitos_invertidos(digitos@),
        decreases m,
    {
        let d = (m % 10) as u8;
        let ghost antes = digitos@;
        digitos.push(d);
        m = m / 10;
        proof {
            assert(digitos_invertidos(antes.push(d)) =~= seq![digito(d as int)]
                + digitos_invertidos(antes));
        }
    }
    let mut r = String::new();
    let total = digitos.len();
    let mut k: usize = 0;
    while k < total
        invariant
            k <= total,
            total == digitos@.len(),
            r@ =~= digitos_invertidos(digitos@).take(k as int),
        decreases total - k,
    {
        let trozo = digito_texto(digitos[total - 1 - k]);
        r.append(trozo);
        proof {
            assert(digitos_invertidos(digitos@).take(k as int + 1) =~= digitos_invertidos(
                digitos@,
            ).take(k as int) + seq![digito(digitos@[digitos@.len() - 1 - k] as int)]);
        }
        k += 1;
    }
    proof {
        assert(digitos_invertidos(digitos@).take(total as int) =~= digitos_invertidos(digitos@));
    }
    r
}

/// Render an amount of cents with two decimals, as a price is displayed.
pub fn texto_monto(centavos: u64) -> (r: String)
    ensures
        r@ == monto_de(centavos as nat),
{
    let mut r = texto_decimal(centavos / 100);
    proof {
        reveal_strlit(".");
    }
    r.append(".");
    let d1 = ((centavos / 10) % 10) as u8;
    let d2 = (centavos % 10) as u8;
    r.append(digito_texto(d1));
    r.append(digito_texto(d2));
    proof {
        assert(r@ =~= monto_de(centavos as nat));
    }
    r
}

} // verus!
