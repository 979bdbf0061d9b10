//! Recognition of the decimal floating-point syntax that `f64::from_str`
//! accepts. The library only needs to know whether a text is a number; no
//! value is ever computed.
use vstd::prelude::*;
use crate::text::{count_char, is_digit};

verus! {

/// ASCII lower-casing of one character.
pub open spec fn ascii_lower(c: char) -> char {
    if 'A' <= c <= 'Z' {
        ((c as u32) + 32) as char
    } else {
        c
    }
}

/// `+` or `-`.
pub open spec fn is_sign(c: char) -> bool {
    c == '+' || c == '-'
}

/// Every character of `s` is an ASCII digit.
pub open spec fn all_digits(s: Seq<char>) -> bool {
    forall|i: int| 0 <= i < s.len() ==> is_digit(#[trigger] s[i])
}

/// `Digit+ | Digit+ '.' Digit* | Digit* '.' Digit+`: digits with at most one
/// dot and at least one digit.
pub open spec fn is_mantissa(m: Seq<char>) -> bool {
    &&& forall|i: int| 0 <= i < m.len() ==> is_digit(#[trigger] m[i]) || m[i] == '.'
    &&& count_char(m, '.') <= 1
    &&& exists|i: int| 0 <= i < m.len() && is_digit(#[trigger] m[i])
}

/// `('e' Sign? Digit+)?`, the `e` in either case.
pub open spec fn is_exponent(e: Seq<char>) -> bool {
    ||| e.len() == 0
    ||| e.len() >= 2 && ascii_lower(e[0]) == 'e' && all_digits(e.drop_first())
    ||| e.len() >= 3 && ascii_lower(e[0]) == 'e' && is_sign(e[1]) && all_digits(e.skip(2))
}

/// `Number ::= Mantissa Exp?`.
pub open spec fn is_number(t: Seq<char>) -> bool {
    exists|k: int| 0 <= k <= t.len() && is_mantissa(t.take(k)) && is_exponent(t.skip(k))
}

/// `t` equals the lower-case word `w` when ASCII letters are lower-cased.
pub open spec fn eq_ignore_case(t: Seq<char>, w: Seq<char>) -> bool {
    t.len() == w.len() && forall|i: int| 0 <= i < t.len() ==> ascii_lower(#[trigger] t[i]) == w[i]
}

/// `t` without a leading sign.
pub open spec fn unsigned_part(s: Seq<char>) -> Seq<char> {
    if s.len() > 0 && is_sign(s[0]) {
        s.drop_first()
    } else {
        s
    }
}

/// The grammar of `f64::from_str`, applied to the lower-cased text:
/// `Sign? ('inf' | 'infinity' | 'nan' | Number)`.
pub open spec fn is_float_literal(s: Seq<char>) -> bool {
    let t = unsigned_part(s);
    ||| eq_ignore_case(t, seq!['i', 'n', 'f'])
    ||| eq_ignore_case(t, seq!['i', 'n', 'f', 'i', 'n', 'i', 't', 'y'])
    ||| eq_ignore_case(t, seq!['n', 'a', 'n'])
    ||| is_number(t)
}

fn lower_ascii(c: char) -> (r: char)
    ensures
        r == ascii_lower(c),
{
    if 'A' <= c && c <= 'Z' {
        (((c as u32) + 32) as u8) as char
    } else {
        c
    }
}

fn matches_word(v: &[char], from: usize, w: &[char]) -> (r: bool)
    requires
        from <= v@.len(),
    ensures
        r == eq_ignore_case(v@.skip(from as int), w@),
{
    if v.len() - from != w.len() {
        return false;
    }
    let mut i: usize = 0;
    while i < w.len()
        invariant
            v.len() - from == w.len(),
            from <= v.len(),
            i <= w.len(),
            forall|j: int| 0 <= j < i ==> ascii_lower(#[trigger] v@.skip(from as int)[j]) == w@[j],
        decreases w@.len() - i,
    {
        if lower_ascii(v[from + i]) != w[i] {
            assert(v@.skip(from as int)[i as int] == v@[from + i]);
            return false;
        }
        assert(v@.skip(from as int)[i as int] == v@[from + i]);
        i = i + 1;
    }
    true
}

fn digits_from(v: &[char], from: usize) -> (r: bool)
    requires
        from <= v@.len(),
    ensures
        r == all_digits(v@.skip(from as int)),
{
    let mut i = from;
    while i < v.len()
        invariant
            from <= i <= v@.len(),
            forall|j: int| from <= j < i ==> is_digit(#[trigger] v@[j]),
        decreases v@.len() - i,
    {
        if !('0' <= v[i] && v[i] <= '9') {
            assert(v@.skip(from as int)[i - from] == v@[i as int]);
            return false;
        }
        i = i + 1;
    }
    assert forall|j: int| 0 <= j < v@.skip(from as int).len() implies is_digit(
        #[trigger] v@.skip(from as int)[j],
    ) by {
        assert(v@.skip(from as int)[j] == v@[from + j]);
    }
    true
}

proof fn lemma_count_dots(m: Seq<char>, k: int)
    requires
        0 <= k <= m.len(),
    ensures
        count_char(m.take(k), '.') <= count_char(m, '.'),
    decreases m.len() - k,
{
    if k < m.len() {
        lemma_count_dots(m, k + 1);
        assert(m.take(k + 1).drop_last() =~= m.take(k));
    } else {
        assert(m.take(k) =~= m);
    }
}

/// Whether `t[from..]` is a `Number`.
fn is_number_from(v: &[char], from: usize) -> (r: bool)
    requires
        from <= v@.len(),
    ensures
        r == is_number(v@.skip(from as int)),
{
    let ghost t = v@.skip(from as int);
    let mut i = from;
    let mut dots: usize = 0;
    let mut digits: usize = 0;
    while i < v.len() && (('0' <= v[i] && v[i] <= '9') || v[i] == '.')
        invariant
            from <= i <= v@.len(),
            t == v@.skip(from as int),
            forall|j: int| 0 <= j < i - from ==> is_digit(#[trigger] t[j]) || t[j] == '.',
            dots == count_char(t.take(i - from), '.'),
            dots <= i - from,
            digits <= i - from,
            (digits > 0) == (exists|j: int| 0 <= j < i - from && is_digit(#[trigger] t[j])),
        decreases v@.len() - i,
    {
        assert(t.take(i - from + 1).drop_last() =~= t.take(i - from));
        assert(t[i - from] == v@[i as int]);
        if v[i] == '.' {
            dots = dots + 1;
        } else {
            digits = digits + 1;
        }
        i = i + 1;
    }
    let k = i;
    let ghost kk = k - from;
    let mant_ok = dots <= 1 && digits > 0;
    proof {
        assert forall|j: int| 0 <= j < kk implies is_digit(#[trigger] t.take(kk)[j]) || t.take(
            kk,
        )[j] == '.' by {
            assert(t.take(kk)[j] == t[j]);
        }
        if digits > 0 {
            let j = choose|j: int| 0 <= j < kk && is_digit(#[trigger] t[j]);
            assert(t.take(kk)[j] == t[j]);
        }
        if exists|j: int| 0 <= j < kk && is_digit(#[trigger] t.take(kk)[j]) {
            let j = choose|j: int| 0 <= j < kk && is_digit(#[trigger] t.take(kk)[j]);
            assert(t.take(kk)[j] == t[j]);
        }
        assert(mant_ok == is_mantissa(t.take(kk)));
    }
    let mut exp_ok = false;
    if k == v.len() {
        exp_ok = true;
        assert(t.skip(kk).len() == 0);
    } else if lower_ascii(v[k]) == 'e' {
        if k + 1 < v.len() && (v[k + 1] == '+' || v[k + 1] == '-') {
            exp_ok = k + 2 < v.len() && digits_from(v, k + 2);
        } else {
            exp_ok = k + 1 < v.len() && digits_from(v, k + 1);
        }
        proof {
            let e = t.skip(kk);
            assert(e[0] == v@[k as int]);
            if k + 1 < v.len() {
                assert(e[1] == v@[k + 1]);
                assert(e.drop_first() =~= v@.skip(k + 1));
            }
            if k + 2 < v.len() {
                assert(e.skip(2) =~= v@.skip(k + 2));
            }
            if k + 1 < v.len() && is_sign(v@[k + 1]) {
                if e.len() >= 2 && all_digits(e.drop_first()) {
                    assert(is_digit(e.drop_first()[0]));
                }
            }
        }
    } else {
        proof {
            let e = t.skip(kk);
            assert(e[0] == v@[k as int]);
        }
    }
    let r = mant_ok && exp_ok;
    proof {
        assert(exp_ok == is_exponent(t.skip(kk)));
        if r {
            assert(is_mantissa(t.take(kk)) && is_exponent(t.skip(kk)));
        } else if is_number(t) {
            let k2 = choose|k2: int|
                0 <= k2 <= t.len() && is_mantissa(t.take(k2)) && is_exponent(t.skip(k2));
            if k2 > kk {
                assert(t.take(k2)[kk] == t[kk]);
                assert(t[kk] == v@[k as int]);
                if v@[k as int] == '.' {
                    // a second dot: the first scan stopped only at a non-digit, non-dot
                    assert(false);
                }
                assert(false);
            } else if k2 < kk {
                assert(t.skip(k2).len() > 0);
                assert(t.skip(k2)[0] == t[k2]);
                assert(is_digit(t[k2]) || t[k2] == '.');
                assert(false);
            }
        }
    }
    r
}

/// Whether `s` is text that `f64::from_str` accepts.
pub fn is_float_text(v: &[char]) -> (r: bool)
    ensures
        r == is_float_literal(v@),
{
    let from: usize = if v.len() > 0 && (v[0] == '+' || v[0] == '-') { 1 } else { 0 };
    assert(v@.skip(from as int) == unsigned_part(v@)) by {
        if from == 0 {
            assert(v@.skip(0) =~= v@);
        }
    }
    let inf = ['i', 'n', 'f'];
    let infinity = ['i', 'n', 'f', 'i', 'n', 'i', 't', 'y'];
    let nan = ['n', 'a', 'n'];
    assert(inf@ =~= seq!['i', 'n', 'f']);
    assert(infinity@ =~= seq!['i', 'n', 'f', 'i', 'n', 'i', 't', 'y']);
    assert(nan@ =~= seq!['n', 'a', 'n']);
    matches_word(v, from, &inf) || matches_word(v, from, &infinity) || matches_word(v, from, &nan)
        || is_number_from(v, from)
}

/// Whether `s` is a decimal number literal: an optional sign, digits with
/// at most one point, and an optional exponent (no `inf` or `nan`).
pub open spec fn is_numeric_literal(s: Seq<char>) -> bool {
    is_number(unsigned_part(s))
}

/// Whether `v` is a decimal number literal.
pub fn is_numeric_text(v: &[char]) -> (r: bool)
    ensures
        r == is_numeric_literal(v@),
{
    let from: usize = if v.len() > 0 && (v[0] == '+' || v[0] == '-') { 1 } else { 0 };
    assert(v@.skip(from as int) == unsigned_part(v@)) by {
        if from == 0 {
            assert(v@.skip(0) =~= v@);
        }
    }
    is_number_from(v, from)
}

} // verus!
