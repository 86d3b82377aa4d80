//! Expression text: turning what the user typed into display text, and
//! handing it to the `meval` parser.

use vstd::prelude::*;

use crate::text::{chars_of, digit_char, string_of, trim, trimmed};

verus! {

/// The superscript form of an exponent character, if it has one.
pub open spec fn superscript_of(c: char) -> Option<char> {
    if c == '0' {
        Some('\u{2070}')
    } else if c == '1' {
        Some('\u{b9}')
    } else if c == '2' {
        Some('\u{b2}')
    } else if c == '3' {
        Some('\u{b3}')
    } else if c == '4' {
        Some('\u{2074}')
    } else if c == '5' {
        Some('\u{2075}')
    } else if c == '6' {
        Some('\u{2076}')
    } else if c == '7' {
        Some('\u{2077}')
    } else if c == '8' {
        Some('\u{2078}')
    } else if c == '9' {
        Some('\u{2079}')
    } else if c == '-' {
        Some('\u{207b}')
    } else if c == '+' {
        Some('\u{207a}')
    } else {
        None
    }
}

/// The superscript character for a digit or sign, `None` for any other.
pub fn superscript_for(ch: char) -> (r: Option<char>)
    ensures
        r == superscript_of(ch),
{
    match ch {
        '0' => Some('\u{2070}'),
        '1' => Some('\u{b9}'),
        '2' => Some('\u{b2}'),
        '3' => Some('\u{b3}'),
        '4' => Some('\u{2074}'),
        '5' => Some('\u{2075}'),
        '6' => Some('\u{2076}'),
        '7' => Some('\u{2077}'),
        '8' => Some('\u{2078}'),
        '9' => Some('\u{2079}'),
        '-' => Some('\u{207b}'),
        '+' => Some('\u{207a}'),
        _ => None,
    }
}

/// `s` with every `^` that is followed by a digit or sign replaced, together
/// with that character, by the character's superscript form. Scanning goes
/// left to right, and the character after a raised exponent is read afresh.
pub open spec fn raise_exponents(s: Seq<char>) -> Seq<char>
    decreases s.len(),
{
    if s.len() == 0 {
        Seq::empty()
    } else if s[0] == '^' && s.len() >= 2 && superscript_of(s[1]) is Some {
        seq![superscript_of(s[1])->0] + raise_exponents(s.skip(2))
    } else {
        seq![s[0]] + raise_exponents(s.skip(1))
    }
}

/// `s` with every occurrence of the non-empty `pat` replaced by `rep`,
/// occurrences taken left to right without overlap, as `str::replace` does.
pub open spec fn replace_all(s: Seq<char>, pat: Seq<char>, rep: Seq<char>) -> Seq<char>
    decreases s.len(),
{
    if pat.len() == 0 || s.len() < pat.len() {
        s
    } else if s.take(pat.len() as int) == pat {
        rep + replace_all(s.skip(pat.len() as int), pat, rep)
    } else {
        seq![s[0]] + replace_all(s.skip(1), pat, rep)
    }
}

/// The display form of an expression: exponents raised, then the names
/// `sqrt`, `pi`, `tau`, `theta`, `phi` and `lambda` replaced, in that order,
/// by the symbols √, π, τ, θ, φ and λ.
pub open spec fn prettified(s: Seq<char>) -> Seq<char> {
    prettified_names(raise_exponents(s))
}

/// `t` with the names `sqrt`, `pi`, `tau`, `theta`, `phi` and `lambda`
/// replaced, in that order, by their symbols.
pub open spec fn prettified_names(t0: Seq<char>) -> Seq<char> {
    let t1 = replace_all(t0, seq!['s', 'q', 'r', 't'], seq!['\u{221a}']);
    let t2 = replace_all(t1, seq!['p', 'i'], seq!['\u{3c0}']);
    let t3 = replace_all(t2, seq!['t', 'a', 'u'], seq!['\u{3c4}']);
    let t4 = replace_all(t3, seq!['t', 'h', 'e', 't', 'a'], seq!['\u{3b8}']);
    let t5 = replace_all(t4, seq!['p', 'h', 'i'], seq!['\u{3c6}']);
    replace_all(t5, seq!['l', 'a', 'm', 'b', 'd', 'a'], seq!['\u{3bb}'])
}

/// `v` with exponents raised.
fn raise_exponent_chars(v: &Vec<char>) -> (r: Vec<char>)
    ensures
        r@ == raise_exponents(v@),
{
    let n = v.len();
    let mut out: Vec<char> = Vec::new();
    let mut i: usize = 0;
    assert(v@.skip(0) == v@);
    while i < n
        invariant
            n == v.len(),
            i <= n,
            raise_exponents(v@) == out@ + raise_exponents(v@.skip(i as int)),
        decreases n - i,
    {
        let ch = v[i];
        let ghost rest = v@.skip(i as int);
        assert(rest[0] == ch);
        if ch == '^' && i + 1 < n {
            let next = v[i + 1];
            assert(rest[1] == next);
            match superscript_for(next) {
                Some(sup) => {
                    assert(rest.skip(2) == v@.skip(i + 2));
                    out.push(sup);
                    i = i + 2;
                    assert(raise_exponents(v@) == out@ + raise_exponents(v@.skip(i as int)));
                    continue;
                },
                None => {},
            }
        }
        assert(rest.skip(1) == v@.skip(i + 1));
        out.push(ch);
        i = i + 1;
    }
    assert(v@.skip(n as int) =~= Seq::<char>::empty());
    assert(out@ + Seq::<char>::empty() == out@);
    out
}

/// Whether `pat` occurs in `v` starting at index `i`.
fn occurs_at(v: &Vec<char>, i: usize, pat: &Vec<char>) -> (r: bool)
    requires
        i <= v.len(),
    ensures
        r == (i + pat.len() <= v.len() && v@.subrange(i as int, i + pat.len()) == pat@),
{
    let n = v.len();
    let m = pat.len();
    if m > n - i {
        return false;
    }
    let mut k: usize = 0;
    while k < m
        invariant
            n == v.len(),
            m == pat.len(),
            i + m <= n,
            k <= m,
            forall|j: int| 0 <= j < k ==> v@[i + j] == pat@[j],
        decreases m - k,
    {
        if v[i + k] != pat[k] {
            assert(v@.subrange(i as int, i + m)[k as int] != pat@[k as int]);
            return false;
        }
        k = k + 1;
    }
    assert(v@.subrange(i as int, i + m) =~= pat@);
    true
}

/// Appends every character of `src` to `out`.
fn push_all(out: &mut Vec<char>, src: &Vec<char>)
    ensures
        final(out)@ == old(out)@ + src@,
{
    let m = src.len();
    let ghost start = out@;
    for k in 0..m
        invariant
            m == src.len(),
            out@ == start + src@.take(k as int),
    {
        out.push(src[k]);
        assert(src@.take(k + 1) == src@.take(k as int).push(src@[k as int]));
    }
    assert(src@.take(m as int) == src@);
}

/// `v` with every occurrence of `pat` replaced by `rep`.
fn replace_chars(v: &Vec<char>, pat: &Vec<char>, rep: &Vec<char>) -> (r: Vec<char>)
    requires
        pat.len() > 0,
    ensures
        r@ == replace_all(v@, pat@, rep@),
{
    let n = v.len();
    let m = pat.len();
    let mut out: Vec<char> = Vec::new();
    let mut i: usize = 0;
    assert(v@.skip(0) == v@);
    while i < n
        invariant
            n == v.len(),
            m == pat.len(),
            m > 0,
            i <= n,
            replace_all(v@, pat@, rep@) == out@ + replace_all(v@.skip(i as int), pat@, rep@),
        decreases n - i,
    {
        let ghost rest = v@.skip(i as int);
        if occurs_at(v, i, pat) {
            assert(rest.take(m as int) == v@.subrange(i as int, i + m));
            assert(rest.skip(m as int) == v@.skip(i + m));
            push_all(&mut out, rep);
            i = i + m;
        } else {
            assert(rest[0] == v@[i as int]);
            assert(rest.skip(1) == v@.skip(i + 1));
            if m > n - i {
                assert(replace_all(rest, pat@, rep@) == rest);
                assert(replace_all(rest.skip(1), pat@, rep@) == rest.skip(1));
                assert(rest == seq![rest[0]] + rest.skip(1));
            } else {
                assert(rest.take(m as int) == v@.subrange(i as int, i + m));
            }
            out.push(v[i]);
            i = i + 1;
        }
    }
    assert(v@.skip(n as int) =~= Seq::<char>::empty());
    assert(out@ + Seq::<char>::empty() == out@);
    out
}

/// The display form of an expression (see `prettified`).
pub fn prettify_expression(expr: &str) -> (r: String)
    ensures
        r@ == prettified(expr@),
{
    let chars = chars_of(expr);
    let t0 = raise_exponent_chars(&chars);
    let pat = vec!['s', 'q', 'r', 't'];
    let rep = vec!['\u{221a}'];
    assert(pat@ == seq!['s', 'q', 'r', 't'] && rep@ == seq!['\u{221a}']);
    let t1 = replace_chars(&t0, &pat, &rep);
    let pat = vec!['p', 'i'];
    let rep = vec!['\u{3c0}'];
    assert(pat@ == seq!['p', 'i'] && rep@ == seq!['\u{3c0}']);
    let t2 = replace_chars(&t1, &pat, &rep);
    let pat = vec!['t', 'a', 'u'];
    let rep = vec!['\u{3c4}'];
    assert(pat@ == seq!['t', 'a', 'u'] && rep@ == seq!['\u{3c4}']);
    let t3 = replace_chars(&t2, &pat, &rep);
    let pat = vec!['t', 'h', 'e', 't', 'a'];
    let rep = vec!['\u{3b8}'];
    assert(pat@ == seq!['t', 'h', 'e', 't', 'a'] && rep@ == seq!['\u{3b8}']);
    let t4 = replace_chars(&t3, &pat, &rep);
    let pat = vec!['p', 'h', 'i'];
    let rep = vec!['\u{3c6}'];
    assert(pat@ == seq!['p', 'h', 'i'] && rep@ == seq!['\u{3c6}']);
    let t5 = replace_chars(&t4, &pat, &rep);
    let pat = vec!['l', 'a', 'm', 'b', 'd', 'a'];
    let rep = vec!['\u{3bb}'];
    assert(pat@ == seq!['l', 'a', 'm', 'b', 'd', 'a'] && rep@ == seq!['\u{3bb}']);
    let t6 = replace_chars(&t5, &pat, &rep);
    string_of(&t6)
}


/// Whether no `^` in `s` is directly followed by a character that has a
/// superscript form.
pub open spec fn exponents_raised(s: Seq<char>) -> bool
    decreases s.len(),
{
    if s.len() < 2 {
        true
    } else {
        (s[0] != '^' || superscript_of(s[1]) is None) && exponents_raised(s.drop_first())
    }
}

/// A text without `^` has no exponent left to raise.
proof fn lemma_caretless_raised(s: Seq<char>)
    requires
        forall|k: int| 0 <= k < s.len() ==> #[trigger] s[k] != '^',
    ensures
        exponents_raised(s),
    decreases s.len(),
{
    if s.len() >= 2 {
        assert forall|k: int| 0 <= k < s.drop_first().len() implies #[trigger] s.drop_first()[k]
            != '^' by {
            assert(s.drop_first()[k] == s[k + 1]);
        }
        lemma_caretless_raised(s.drop_first());
    }
}

/// Every suffix of a text with its exponents raised has them raised.
proof fn lemma_raised_suffix(s: Seq<char>, k: int)
    requires
        exponents_raised(s),
        0 <= k <= s.len(),
    ensures
        exponents_raised(s.skip(k)),
    decreases k,
{
    if k > 0 {
        assert(s.len() >= 1);
        if s.len() >= 2 {
            lemma_raised_suffix(s.drop_first(), k - 1);
            assert(s.drop_first().skip(k - 1) =~= s.skip(k));
        } else {
            assert(s.skip(k).len() == 0);
        }
    } else {
        assert(s.skip(0) =~= s);
    }
}

/// Joining two texts with their exponents raised keeps them raised unless
/// the first ends in `^` and the second starts with a digit or sign.
proof fn lemma_raised_concat(a: Seq<char>, b: Seq<char>)
    requires
        exponents_raised(a),
        exponents_raised(b),
        a.len() == 0 || b.len() == 0 || a.last() != '^' || superscript_of(b[0]) is None,
    ensures
        exponents_raised(a + b),
    decreases a.len(),
{
    if a.len() == 0 {
        assert(a + b =~= b);
    } else {
        let ab = a + b;
        if ab.len() >= 2 {
            assert(ab.drop_first() =~= a.drop_first() + b);
            if a.len() >= 2 {
                lemma_raised_concat(a.drop_first(), b);
            } else {
                assert(a.drop_first() + b =~= b);
            }
        }
    }
}

/// The first character of raised text is raised itself or is the first
/// character of the text.
proof fn lemma_raise_first(t: Seq<char>)
    ensures
        raise_exponents(t).len() == 0 <==> t.len() == 0,
        raise_exponents(t).len() > 0 ==> (superscript_of(raise_exponents(t)[0]) is None
            || raise_exponents(t)[0] == t[0]),
{
}

/// Raising exponents leaves none to raise.
proof fn lemma_raise_clean(s: Seq<char>)
    ensures
        exponents_raised(raise_exponents(s)),
    decreases s.len(),
{
    if s.len() > 0 {
        if s[0] == '^' && s.len() >= 2 && superscript_of(s[1]) is Some {
            let r = raise_exponents(s.skip(2));
            lemma_raise_clean(s.skip(2));
            lemma_raised_concat(seq![superscript_of(s[1])->0], r);
        } else {
            let r = raise_exponents(s.skip(1));
            lemma_raise_clean(s.skip(1));
            lemma_raise_first(s.skip(1));
            lemma_raised_concat(seq![s[0]], r);
        }
    }
}

/// The first character of a replaced text is the first character of the
/// text or of the replacement.
proof fn lemma_replace_first(t: Seq<char>, pat: Seq<char>, rep: Seq<char>)
    requires
        pat.len() > 0,
        rep.len() > 0,
    ensures
        replace_all(t, pat, rep).len() > 0 ==> t.len() > 0 && (replace_all(t, pat, rep)[0] == t[0]
            || replace_all(t, pat, rep)[0] == rep[0]),
{
}

/// Replacing a name by symbols that are neither `^` nor raisable keeps the
/// exponents raised.
proof fn lemma_replace_clean(t: Seq<char>, pat: Seq<char>, rep: Seq<char>)
    requires
        exponents_raised(t),
        pat.len() > 0,
        rep.len() > 0,
        forall|k: int|
            0 <= k < rep.len() ==> #[trigger] rep[k] != '^' && superscript_of(rep[k]) is None,
    ensures
        exponents_raised(replace_all(t, pat, rep)),
    decreases t.len(),
{
    if t.len() >= pat.len() {
        if t.take(pat.len() as int) == pat {
            lemma_raised_suffix(t, pat.len() as int);
            lemma_replace_clean(t.skip(pat.len() as int), pat, rep);
            lemma_caretless_raised(rep);
            assert(rep.last() == rep[rep.len() - 1]);
            lemma_raised_concat(rep, replace_all(t.skip(pat.len() as int), pat, rep));
        } else {
            lemma_raised_suffix(t, 1);
            lemma_replace_clean(t.skip(1), pat, rep);
            lemma_replace_first(t.skip(1), pat, rep);
            if t.len() >= 2 {
                assert(t.drop_first() =~= t.skip(1));
            }
            lemma_raised_concat(seq![t[0]], replace_all(t.skip(1), pat, rep));
        }
    }
}

/// Replacing a name that does not occur changes nothing.
proof fn lemma_replace_absent_name(t: Seq<char>, pat: Seq<char>, rep: Seq<char>)
    requires
        pat.len() > 0,
        !occurs(t, pat),
    ensures
        replace_all(t, pat, rep) == t,
    decreases t.len(),
{
    if t.len() >= pat.len() {
        lemma_replace_absent_name(t.drop_first(), pat, rep);
        assert(t.skip(1) =~= t.drop_first());
        assert(seq![t[0]] + t.drop_first() =~= t);
    }
}

/// A two-character text starting with `x` holds none of the names.
proof fn lemma_no_name_after_x(c: char)
    requires
        c != 's' && c != 'p' && c != 't' && c != 'l',
    ensures
        prettified_names(seq!['x', c]) == seq!['x', c],
{
    let t = seq!['x', c];
    assert(t.drop_first() =~= seq![c]);
    assert(t.take(2) != seq!['p', 'i']);
    assert(!occurs(t, seq!['s', 'q', 'r', 't']));
    assert(!occurs(seq![c], seq!['p', 'i']));
    assert(!occurs(t, seq!['p', 'i']));
    assert(!occurs(t, seq!['t', 'a', 'u']));
    assert(!occurs(t, seq!['t', 'h', 'e', 't', 'a']));
    assert(!occurs(t, seq!['p', 'h', 'i']));
    assert(!occurs(t, seq!['l', 'a', 'm', 'b', 'd', 'a']));
    lemma_replace_absent_name(t, seq!['s', 'q', 'r', 't'], seq!['\u{221a}']);
    lemma_replace_absent_name(t, seq!['p', 'i'], seq!['\u{3c0}']);
    lemma_replace_absent_name(t, seq!['t', 'a', 'u'], seq!['\u{3c4}']);
    lemma_replace_absent_name(t, seq!['t', 'h', 'e', 't', 'a'], seq!['\u{3b8}']);
    lemma_replace_absent_name(t, seq!['p', 'h', 'i'], seq!['\u{3c6}']);
    lemma_replace_absent_name(t, seq!['l', 'a', 'm', 'b', 'd', 'a'], seq!['\u{3bb}']);
}

/// The Unicode superscript form of the decimal digit `d`: superscript one,
/// two and three sit in the Latin-1 block, the others at U+2070 + `d`.
pub open spec fn unicode_superscript_digit(d: nat) -> char {
    if d == 1 {
        '\u{b9}'
    } else if d == 2 {
        '\u{b2}'
    } else if d == 3 {
        '\u{b3}'
    } else {
        (0x2070 + d) as char
    }
}

/// A digit after `^` is raised to the Unicode superscript of that digit.
proof fn lemma_superscript_of_digit(d: nat)
    requires
        d < 10,
    ensures
        superscript_of(digit_char(d)) == Some(unicode_superscript_digit(d)),
{
    if d == 0 {
        assert(digit_char(0) == '0');
    } else if d == 1 {
        assert(digit_char(1) == '1');
    } else if d == 2 {
        assert(digit_char(2) == '2');
    } else if d == 3 {
        assert(digit_char(3) == '3');
    } else if d == 4 {
        assert(digit_char(4) == '4');
    } else if d == 5 {
        assert(digit_char(5) == '5');
    } else if d == 6 {
        assert(digit_char(6) == '6');
    } else if d == 7 {
        assert(digit_char(7) == '7');
    } else if d == 8 {
        assert(digit_char(8) == '8');
    } else {
        assert(digit_char(9) == '9');
    }
}

/// Raising exponents in `a + ['^', c] + b`, where `a` holds no `^` and `c`
/// has the superscript form `sup`, gives `a`, then `sup`, then `b` raised.
proof fn lemma_raise_after_plain(a: Seq<char>, c: char, sup: char, b: Seq<char>)
    requires
        forall|k: int| 0 <= k < a.len() ==> #[trigger] a[k] != '^',
        superscript_of(c) == Some(sup),
    ensures
        raise_exponents(a + seq!['^', c] + b) == a + seq![sup] + raise_exponents(b),
    decreases a.len(),
{
    let s = a + seq!['^', c] + b;
    if a.len() == 0 {
        assert(s =~= seq!['^', c] + b);
        assert(s.skip(2) =~= b);
        assert(a + seq![sup] + raise_exponents(b) =~= seq![sup] + raise_exponents(b));
    } else {
        let a1 = a.drop_first();
        assert forall|k: int| 0 <= k < a1.len() implies #[trigger] a1[k] != '^' by {
            assert(a1[k] == a[k + 1]);
        }
        lemma_raise_after_plain(a1, c, sup, b);
        assert(s[0] == a[0]);
        assert(s.skip(1) =~= a1 + seq!['^', c] + b);
        assert(a + seq![sup] + raise_exponents(b) =~= seq![a[0]] + (a1 + seq![sup]
            + raise_exponents(b)));
    }
}

/// An exponent written as `^` and a digit `d` is shown as the Unicode
/// superscript of `d` (⁰ ¹ ² ³ ⁴ ⁵ ⁶ ⁷ ⁸ ⁹), whatever text stands after
/// it and whatever `^`-free text stands before it.
pub proof fn law_digit_exponents_become_superscripts(a: Seq<char>, d: nat, b: Seq<char>)
    requires
        d < 10,
        forall|k: int| 0 <= k < a.len() ==> #[trigger] a[k] != '^',
    ensures
        raise_exponents(a + seq!['^', digit_char(d)] + b) == a + seq![unicode_superscript_digit(d)]
            + raise_exponents(b),
{
    lemma_superscript_of_digit(d);
    lemma_raise_after_plain(a, digit_char(d), unicode_superscript_digit(d), b);
}

/// `x^d` for a digit `d` is displayed as `x` and the Unicode superscript
/// of `d`: `x^4` as `x⁴`.
pub proof fn law_digit_power_display(d: nat)
    requires
        d < 10,
    ensures
        prettified(seq!['x', '^', digit_char(d)]) == seq!['x', unicode_superscript_digit(d)],
{
    law_digit_exponents_become_superscripts(seq!['x'], d, Seq::empty());
    assert(seq!['x'] + seq!['^', digit_char(d)] + Seq::<char>::empty() =~= seq!['x', '^', digit_char(d)]);
    assert(seq!['x'] + seq![unicode_superscript_digit(d)] + raise_exponents(Seq::<char>::empty())
        =~= seq!['x', unicode_superscript_digit(d)]);
    assert(unicode_superscript_digit(d) != 's' && unicode_superscript_digit(d) != 'p'
        && unicode_superscript_digit(d) != 't' && unicode_superscript_digit(d) != 'l');
    lemma_no_name_after_x(unicode_superscript_digit(d));
}

/// An exponent sign is shown as the superscript minus (U+207B) or plus
/// (U+207A), whatever text stands after it and whatever `^`-free text
/// stands before it.
pub proof fn law_sign_exponents_become_superscripts(a: Seq<char>, b: Seq<char>)
    requires
        forall|k: int| 0 <= k < a.len() ==> #[trigger] a[k] != '^',
    ensures
        raise_exponents(a + seq!['^', '-'] + b) == a + seq!['\u{207b}'] + raise_exponents(b),
        raise_exponents(a + seq!['^', '+'] + b) == a + seq!['\u{207a}'] + raise_exponents(b),
{
    lemma_raise_after_plain(a, '-', '\u{207b}', b);
    lemma_raise_after_plain(a, '+', '\u{207a}', b);
}

/// In the display form of any expression every exponent that can be
/// raised is shown as a superscript: no `^` is left directly before a
/// digit or sign.
pub proof fn law_prettify_raises_exponents(s: Seq<char>)
    ensures
        exponents_raised(prettified(s)),
{
    let t0 = raise_exponents(s);
    lemma_raise_clean(s);
    let t1 = replace_all(t0, seq!['s', 'q', 'r', 't'], seq!['\u{221a}']);
    lemma_replace_clean(t0, seq!['s', 'q', 'r', 't'], seq!['\u{221a}']);
    let t2 = replace_all(t1, seq!['p', 'i'], seq!['\u{3c0}']);
    lemma_replace_clean(t1, seq!['p', 'i'], seq!['\u{3c0}']);
    let t3 = replace_all(t2, seq!['t', 'a', 'u'], seq!['\u{3c4}']);
    lemma_replace_clean(t2, seq!['t', 'a', 'u'], seq!['\u{3c4}']);
    let t4 = replace_all(t3, seq!['t', 'h', 'e', 't', 'a'], seq!['\u{3b8}']);
    lemma_replace_clean(t3, seq!['t', 'h', 'e', 't', 'a'], seq!['\u{3b8}']);
    let t5 = replace_all(t4, seq!['p', 'h', 'i'], seq!['\u{3c6}']);
    lemma_replace_clean(t4, seq!['p', 'h', 'i'], seq!['\u{3c6}']);
    lemma_replace_clean(t5, seq!['l', 'a', 'm', 'b', 'd', 'a'], seq!['\u{3bb}']);
}

/// Whether `pat` occurs somewhere in `s`.
pub open spec fn occurs(s: Seq<char>, pat: Seq<char>) -> bool
    decreases s.len(),
{
    if s.len() < pat.len() {
        false
    } else if s.take(pat.len() as int) == pat {
        true
    } else if s.len() == 0 {
        false
    } else {
        occurs(s.drop_first(), pat)
    }
}

/// Whether the character `c` is absent from `pat`.
pub open spec fn lacks(pat: Seq<char>, c: char) -> bool {
    forall|j: int| 0 <= j < pat.len() ==> #[trigger] pat[j] != c
}

/// A prefix of a replaced text that holds no replacement character is the
/// same prefix of the text before replacing.
proof fn lemma_replace_prefix_kept(t: Seq<char>, pat: Seq<char>, c: char, k: int)
    requires
        pat.len() > 0,
        0 <= k <= replace_all(t, pat, seq![c]).len(),
        forall|j: int| 0 <= j < k ==> #[trigger] replace_all(t, pat, seq![c])[j] != c,
    ensures
        k <= t.len(),
        replace_all(t, pat, seq![c]).take(k) == t.take(k),
    decreases t.len(),
{
    let r = replace_all(t, pat, seq![c]);
    if t.len() < pat.len() {
    } else if t.take(pat.len() as int) == pat {
        if k > 0 {
            assert(r[0] == c);
        }
    } else if k > 0 {
        let rest = replace_all(t.skip(1), pat, seq![c]);
        assert(r == seq![t[0]] + rest);
        assert forall|j: int| 0 <= j < k - 1 implies #[trigger] rest[j] != c by {
            assert(r[j + 1] == rest[j]);
        }
        lemma_replace_prefix_kept(t.skip(1), pat, c, k - 1);
        assert forall|j: int| 0 <= j < k implies #[trigger] r.take(k)[j] == t.take(k)[j] by {
            if j > 0 {
                assert(rest.take(k - 1)[j - 1] == t.skip(1).take(k - 1)[j - 1]);
            }
        }
        assert(r.take(k) =~= t.take(k));
    }
}

/// A suffix of a text in which `pat` does not occur has no occurrence
/// either.
proof fn lemma_absent_in_suffix(t: Seq<char>, pat: Seq<char>, k: int)
    requires
        !occurs(t, pat),
        pat.len() > 0,
        0 <= k <= t.len(),
    ensures
        !occurs(t.skip(k), pat),
    decreases k,
{
    if k == 0 {
        assert(t.skip(0) =~= t);
    } else {
        lemma_absent_in_suffix(t.drop_first(), pat, k - 1);
        assert(t.drop_first().skip(k - 1) =~= t.skip(k));
    }
}

/// Where the replacement character is not in `p1`, replacing `p2` creates
/// no occurrence of `p1`, and leaves no occurrence of `p2` itself when `p2`
/// is `p1`.
proof fn lemma_replace_absent(t: Seq<char>, p1: Seq<char>, p2: Seq<char>, c: char)
    requires
        p1.len() > 0,
        p2.len() > 0,
        lacks(p1, c),
        p1 == p2 || !occurs(t, p1),
    ensures
        !occurs(replace_all(t, p2, seq![c]), p1),
    decreases t.len(),
{
    let r = replace_all(t, p2, seq![c]);
    let m = p1.len();
    if t.len() < p2.len() {
        if p1 == p2 {
            assert(!occurs(t, p1));
        }
    } else if t.take(p2.len() as int) == p2 {
        let rest = replace_all(t.skip(p2.len() as int), p2, seq![c]);
        if p1 != p2 {
            lemma_absent_in_suffix(t, p1, p2.len() as int);
        }
        lemma_replace_absent(t.skip(p2.len() as int), p1, p2, c);
        assert(r == seq![c] + rest);
        assert(r.drop_first() =~= rest);
        if r.len() >= m {
            assert(r.take(m as int)[0] == c);
            assert(p1[0] != c);
        }
    } else {
        let rest = replace_all(t.skip(1), p2, seq![c]);
        if p1 != p2 {
            lemma_absent_in_suffix(t, p1, 1);
        }
        lemma_replace_absent(t.skip(1), p1, p2, c);
        assert(r == seq![t[0]] + rest);
        assert(r.drop_first() =~= rest);
        if r.len() >= m {
            if exists|j: int| 0 <= j < m - 1 && #[trigger] rest[j] == c {
                let j = choose|j: int| 0 <= j < m - 1 && #[trigger] rest[j] == c;
                assert(r.take(m as int)[j + 1] == c);
                assert(p1[j + 1] != c);
            } else {
                lemma_replace_prefix_kept(t.skip(1), p2, c, m - 1);
                assert forall|j: int| 0 <= j < m implies #[trigger] r.take(m as int)[j] == t.take(
                    m as int,
                )[j] by {
                    if j > 0 {
                        assert(rest.take(m - 1)[j - 1] == t.skip(1).take(m - 1)[j - 1]);
                    }
                }
                assert(r.take(m as int) =~= t.take(m as int));
                if p1 != p2 {
                    assert(t.len() >= m);
                    assert(t.take(m as int) != p1);
                }
            }
        }
    }
}

/// The display form of any expression shows every name as its symbol:
/// none of `sqrt`, `pi`, `tau`, `theta`, `phi` and `lambda` is left in it.
pub proof fn law_prettify_replaces_names(s: Seq<char>)
    ensures
        !occurs(prettified(s), seq!['s', 'q', 'r', 't']),
        !occurs(prettified(s), seq!['p', 'i']),
        !occurs(prettified(s), seq!['t', 'a', 'u']),
        !occurs(prettified(s), seq!['t', 'h', 'e', 't', 'a']),
        !occurs(prettified(s), seq!['p', 'h', 'i']),
        !occurs(prettified(s), seq!['l', 'a', 'm', 'b', 'd', 'a']),
{
    let n1 = seq!['s', 'q', 'r', 't'];
    let n2 = seq!['p', 'i'];
    let n3 = seq!['t', 'a', 'u'];
    let n4 = seq!['t', 'h', 'e', 't', 'a'];
    let n5 = seq!['p', 'h', 'i'];
    let n6 = seq!['l', 'a', 'm', 'b', 'd', 'a'];
    let c1 = '\u{221a}';
    let c2 = '\u{3c0}';
    let c3 = '\u{3c4}';
    let c4 = '\u{3b8}';
    let c5 = '\u{3c6}';
    let c6 = '\u{3bb}';
    assert(lacks(n1, c1) && lacks(n1, c2) && lacks(n1, c3) && lacks(n1, c4) && lacks(n1, c5)
        && lacks(n1, c6));
    assert(lacks(n2, c2) && lacks(n2, c3) && lacks(n2, c4) && lacks(n2, c5) && lacks(n2, c6));
    assert(lacks(n3, c3) && lacks(n3, c4) && lacks(n3, c5) && lacks(n3, c6));
    assert(lacks(n4, c4) && lacks(n4, c5) && lacks(n4, c6));
    assert(lacks(n5, c5) && lacks(n5, c6));
    assert(lacks(n6, c6));
    let t0 = raise_exponents(s);
    let t1 = replace_all(t0, n1, seq![c1]);
    let t2 = replace_all(t1, n2, seq![c2]);
    let t3 = replace_all(t2, n3, seq![c3]);
    let t4 = replace_all(t3, n4, seq![c4]);
    let t5 = replace_all(t4, n5, seq![c5]);
    let t6 = replace_all(t5, n6, seq![c6]);
    lemma_replace_absent(t0, n1, n1, c1);
    lemma_replace_absent(t1, n1, n2, c2);
    lemma_replace_absent(t1, n2, n2, c2);
    lemma_replace_absent(t2, n1, n3, c3);
    lemma_replace_absent(t2, n2, n3, c3);
    lemma_replace_absent(t2, n3, n3, c3);
    lemma_replace_absent(t3, n1, n4, c4);
    lemma_replace_absent(t3, n2, n4, c4);
    lemma_replace_absent(t3, n3, n4, c4);
    lemma_replace_absent(t3, n4, n4, c4);
    lemma_replace_absent(t4, n1, n5, c5);
    lemma_replace_absent(t4, n2, n5, c5);
    lemma_replace_absent(t4, n3, n5, c5);
    lemma_replace_absent(t4, n4, n5, c5);
    lemma_replace_absent(t4, n5, n5, c5);
    lemma_replace_absent(t5, n1, n6, c6);
    lemma_replace_absent(t5, n2, n6, c6);
    lemma_replace_absent(t5, n3, n6, c6);
    lemma_replace_absent(t5, n4, n6, c6);
    lemma_replace_absent(t5, n5, n6, c6);
    lemma_replace_absent(t5, n6, n6, c6);
}

/// Makes meval's parsed expression type usable here; its contents are not
/// read by verified code.
#[verifier::external_type_specification]
#[verifier::external_body]
pub struct ExMevalExpr(meval::Expr);

/// Makes meval's token type known, as its expression type dereferences to a
/// slice of tokens; never read by verified code.
#[verifier::external_type_specification]
#[verifier::external_body]
pub struct ExMevalToken(meval::tokenizer::Token);

/// meval's verdict on `text` as an expression in the one variable `x`:
/// `None` when `Expr::from_str` parses it and `bind("x")` accepts the
/// result, otherwise the `Display` text of the error that meval returned.
pub uninterp spec fn meval_verdict(text: Seq<char>) -> Option<Seq<char>>;

/// The expression that meval's `Expr::from_str` builds from `text`.
pub uninterp spec fn meval_expr(text: Seq<char>) -> meval::Expr;

/// Parses `text` with `meval::Expr::from_str` and binds a copy of the
/// result with `Expr::bind("x")`, which fails unless every variable and
/// function in it is `x` or one of meval's built-ins; the bound closure is
/// dropped. Claimed of meval: the outcome depends on `text` alone (named by
/// `meval_verdict`); on success the expression parsed from `text` is
/// returned, which also depends on `text` alone (named by `meval_expr`);
/// on failure the error's `Display` text is returned. Text that is empty or
/// white space only is not admitted: meval's tokenizer panics on it.
#[verifier::external_body]
fn meval_compile(text: &str) -> (r: Result<meval::Expr, String>)
    requires
        trimmed(text@).len() > 0,
    ensures
        match r {
            Ok(e) => meval_verdict(text@) == None::<Seq<char>> && e == meval_expr(text@),
            Err(m) => meval_verdict(text@) == Some(m@),
        },
{
    match <meval::Expr as std::str::FromStr>::from_str(text) {
        Err(err) => Err(err.to_string()),
        Ok(expr) => match expr.clone().bind("x") {
            Ok(_) => Ok(expr),
            Err(err) => Err(err.to_string()),
        },
    }
}

/// Why an expression could not be compiled.
#[derive(Debug)]
pub enum ExprError {
    /// The text is empty or white space only.
    Empty,
    /// meval rejected the text; its message.
    Invalid(String),
}

/// The message shown for an empty expression.
pub open spec fn empty_message() -> Seq<char> {
    seq![
        'e', 'x', 'p', 'r', 'e', 's', 's', 'i', 'o', 'n', ' ', 'i', 's', ' ', 'e', 'm', 'p', 't',
        'y',
    ]
}

impl ExprError {
    /// The message of this error, as a view.
    pub open spec fn text(&self) -> Seq<char> {
        match self {
            ExprError::Empty => empty_message(),
            ExprError::Invalid(m) => m@,
        }
    }

    /// The message of this error.
    pub fn message(&self) -> (r: String)
        ensures
            r@ == self.text(),
    {
        match self {
            ExprError::Empty => {
                let v = vec![
                    'e', 'x', 'p', 'r', 'e', 's', 's', 'i', 'o', 'n', ' ', 'i', 's', ' ', 'e', 'm',
                    'p', 't', 'y',
                ];
                assert(v@ == empty_message());
                string_of(&v)
            },
            ExprError::Invalid(m) => m.clone(),
        }
    }
}

/// Whether compiling `src` succeeds: its trimmed text must be non-empty and
/// accepted by meval.
pub open spec fn compiles(src: Seq<char>) -> bool {
    trimmed(src).len() > 0 && meval_verdict(trimmed(src)) is None
}

/// The error that compiling `src` ends in, when it does not succeed.
pub open spec fn failure_text(src: Seq<char>) -> Seq<char> {
    if trimmed(src).len() == 0 {
        empty_message()
    } else {
        meval_verdict(trimmed(src))->0
    }
}

/// Compiles the text of an expression in `x`. White space around it is
/// ignored; an empty expression is rejected before meval sees it.
pub fn compile_expr(src: &str) -> (r: Result<meval::Expr, ExprError>)
    ensures
        r is Ok <==> compiles(src@),
        r matches Ok(e) ==> e == meval_expr(trimmed(src@)),
        r matches Err(e) ==> e.text() == failure_text(src@),
        r matches Err(e) ==> (e is Empty <==> trimmed(src@).len() == 0),
{
    let t = trim(src);
    if t.unicode_len() == 0 {
        return Err(ExprError::Empty);
    }
    match meval_compile(t) {
        Ok(expr) => Ok(expr),
        Err(m) => Err(ExprError::Invalid(m)),
    }
}

} // verus!
