//! Character-level text primitives shared by the parsers and formatters of
//! the library. Every operation works on the `Seq<char>` view of a string.
use vstd::prelude::*;

verus! {

broadcast use vstd::string::group_string_axioms;

// ---------------------------------------------------------------------------
// Conversions between `str`/`String` and character vectors
// ---------------------------------------------------------------------------

/// Collects the characters of `s` into a vector.
pub fn chars_of(s: &str) -> (v: Vec<char>)
    ensures
        v@ == s@,
{
    let mut v: Vec<char> = Vec::new();
    for c in it: s.chars()
        invariant
            v@ == it.seq().take(it.index() as int),
            it.seq() == s@,
    {
        v.push(c);
    }
    v
}

/// Appends one character to a string (`String::push`).
#[verifier::external_body]
pub(crate) fn push_char(s: &mut String, c: char)
    ensures
        final(s)@ == old(s)@.push(c),
{
    s.push(c);
}

/// Builds a string holding exactly the characters of `v`.
pub fn string_of(v: &[char]) -> (s: String)
    ensures
        s@ == v@,
{
    let mut s = String::new();
    let mut i: usize = 0;
    while i < v.len()
        invariant
            i <= v@.len(),
            s@ == v@.take(i as int),
        decreases v@.len() - i,
    {
        push_char(&mut s, v[i]);
        assert(v@.take(i + 1) =~= v@.take(i as int).push(v@[i as int]));
        i = i + 1;
    }
    assert(v@.take(v@.len() as int) =~= v@);
    s
}

/// Copies `v[from..to]` into a new vector.
pub fn sub_chars(v: &[char], from: usize, to: usize) -> (r: Vec<char>)
    requires
        from <= to <= v@.len(),
    ensures
        r@ == v@.subrange(from as int, to as int),
{
    let mut r: Vec<char> = Vec::new();
    let mut i = from;
    while i < to
        invariant
            from <= i <= to <= v@.len(),
            r@ == v@.subrange(from as int, i as int),
        decreases to - i,
    {
        r.push(v[i]);
        assert(v@.subrange(from as int, i + 1) =~= v@.subrange(from as int, i as int).push(
            v@[i as int],
        ));
        i = i + 1;
    }
    r
}

/// Appends all characters of `w` to `v`.
pub fn extend_chars(v: &mut Vec<char>, w: &[char])
    ensures
        final(v)@ == old(v)@ + w@,
{
    let mut i: usize = 0;
    while i < w.len()
        invariant
            i <= w@.len(),
            v@ == old(v)@ + w@.take(i as int),
        decreases w@.len() - i,
    {
        v.push(w[i]);
        assert(w@.take(i + 1) =~= w@.take(i as int).push(w@[i as int]));
        i = i + 1;
    }
    assert(w@.take(w@.len() as int) =~= w@);
}

/// Character-wise equality of two sequences held in slices.
pub fn chars_eq(a: &[char], b: &[char]) -> (r: bool)
    ensures
        r == (a@ == b@),
{
    if a.len() != b.len() {
        return false;
    }
    let mut i: usize = 0;
    while i < a.len()
        invariant
            a@.len() == b@.len(),
            i <= a@.len(),
            forall|j: int| 0 <= j < i ==> a@[j] == b@[j],
        decreases a@.len() - i,
    {
        if a[i] != b[i] {
            return false;
        }
        i = i + 1;
    }
    assert(a@ =~= b@);
    true
}

// ---------------------------------------------------------------------------
// Character classes
// ---------------------------------------------------------------------------

/// The Unicode `White_Space` property, which `char::is_whitespace` tests.
pub open spec fn is_ws(c: char) -> bool {
    ||| '\u{9}' <= c <= '\u{d}'
    ||| c == ' '
    ||| c == '\u{85}'
    ||| c == '\u{a0}'
    ||| c == '\u{1680}'
    ||| '\u{2000}' <= c <= '\u{200a}'
    ||| c == '\u{2028}'
    ||| c == '\u{2029}'
    ||| c == '\u{202f}'
    ||| c == '\u{205f}'
    ||| c == '\u{3000}'
}

/// Whether `c` is Unicode white space.
pub fn is_whitespace(c: char) -> (r: bool)
    ensures
        r == is_ws(c),
{
    ('\u{9}' <= c && c <= '\u{d}') || c == ' ' || c == '\u{85}' || c == '\u{a0}' || c
        == '\u{1680}' || ('\u{2000}' <= c && c <= '\u{200a}') || c == '\u{2028}' || c
        == '\u{2029}' || c == '\u{202f}' || c == '\u{205f}' || c == '\u{3000}'
}

/// An ASCII decimal digit.
pub open spec fn is_digit(c: char) -> bool {
    '0' <= c <= '9'
}

// ---------------------------------------------------------------------------
// Trimming
// ---------------------------------------------------------------------------

/// Number of leading white-space characters of `s`.
pub open spec fn lead_ws(s: Seq<char>) -> nat
    decreases s.len(),
{
    if s.len() > 0 && is_ws(s[0]) {
        1 + lead_ws(s.drop_first())
    } else {
        0
    }
}

/// Number of trailing white-space characters of `s`.
pub open spec fn trail_ws(s: Seq<char>) -> nat
    decreases s.len(),
{
    if s.len() > 0 && is_ws(s.last()) {
        1 + trail_ws(s.drop_last())
    } else {
        0
    }
}

/// `s` without leading white space (`str::trim_start`).
pub open spec fn trim_start(s: Seq<char>) -> Seq<char> {
    s.skip(lead_ws(s) as int)
}

/// `s` without trailing white space (`str::trim_end`).
pub open spec fn trim_end(s: Seq<char>) -> Seq<char> {
    s.take(s.len() - trail_ws(s))
}

/// `s` without surrounding white space (`str::trim`).
pub open spec fn trim(s: Seq<char>) -> Seq<char> {
    trim_end(trim_start(s))
}

proof fn lemma_lead_ws(s: Seq<char>, i: int)
    requires
        0 <= i <= s.len(),
        forall|j: int| 0 <= j < i ==> is_ws(#[trigger] s[j]),
        i == s.len() || !is_ws(s[i]),
    ensures
        lead_ws(s) == i,
    decreases i,
{
    if i > 0 {
        lemma_lead_ws(s.drop_first(), i - 1);
    }
}

proof fn lemma_trail_ws(s: Seq<char>, i: int)
    requires
        0 <= i <= s.len(),
        forall|j: int| i <= j < s.len() ==> is_ws(#[trigger] s[j]),
        i == 0 || !is_ws(s[i - 1]),
    ensures
        trail_ws(s) == s.len() - i,
    decreases s.len() - i,
{
    if i < s.len() {
        lemma_trail_ws(s.drop_last(), i);
    }
}

pub proof fn lemma_lead_ws_bound(s: Seq<char>)
    ensures
        lead_ws(s) <= s.len(),
    decreases s.len(),
{
    if s.len() > 0 && is_ws(s[0]) {
        lemma_lead_ws_bound(s.drop_first());
    }
}

pub proof fn lemma_trail_ws_bound(s: Seq<char>)
    ensures
        trail_ws(s) <= s.len(),
    decreases s.len(),
{
    if s.len() > 0 && is_ws(s.last()) {
        lemma_trail_ws_bound(s.drop_last());
    }
}

/// Index of the first non-white-space character (or the length).
pub fn lead_ws_len(v: &[char]) -> (i: usize)
    ensures
        i == lead_ws(v@),
{
    let mut i: usize = 0;
    while i < v.len() && is_whitespace(v[i])
        invariant
            i <= v@.len(),
            forall|j: int| 0 <= j < i ==> is_ws(#[trigger] v@[j]),
        decreases v@.len() - i,
    {
        i = i + 1;
    }
    proof {
        lemma_lead_ws(v@, i as int);
    }
    i
}

/// Number of trailing white-space characters.
pub fn trail_ws_len(v: &[char]) -> (n: usize)
    ensures
        n == trail_ws(v@),
{
    let mut i: usize = v.len();
    while i > 0 && is_whitespace(v[i - 1])
        invariant
            i <= v@.len(),
            forall|j: int| i <= j < v@.len() ==> is_ws(#[trigger] v@[j]),
        decreases i,
    {
        i = i - 1;
    }
    proof {
        lemma_trail_ws(v@, i as int);
    }
    v.len() - i
}

/// Characters of `v` without surrounding white space.
pub fn trim_chars(v: &[char]) -> (r: Vec<char>)
    ensures
        r@ == trim(v@),
        r@.len() <= v@.len(),
{
    let a = lead_ws_len(v);
    proof {
        lemma_lead_ws_bound(v@);
    }
    let t = sub_chars(v, a, v.len());
    let b = trail_ws_len(&t);
    proof {
        lemma_trail_ws_bound(t@);
    }
    sub_chars(&t, 0, t.len() - b)
}

// ---------------------------------------------------------------------------
// Searching
// ---------------------------------------------------------------------------

/// Index of the first occurrence of `c` in `s`.
pub open spec fn find_char(s: Seq<char>, c: char) -> Option<int>
    decreases s.len(),
{
    if s.len() == 0 {
        None
    } else if s[0] == c {
        Some(0)
    } else {
        match find_char(s.drop_first(), c) {
            Some(k) => Some(k + 1),
            None => None,
        }
    }
}

pub proof fn lemma_find_char(s: Seq<char>, c: char, i: int)
    requires
        0 <= i <= s.len(),
        forall|j: int| 0 <= j < i ==> #[trigger] s[j] != c,
    ensures
        find_char(s, c) == (match find_char(s.skip(i), c) {
            Some(k) => Some(k + i),
            None => None,
        }),
    decreases i,
{
    if i == 0 {
        assert(s.skip(0) =~= s);
        match find_char(s, c) {
            Some(k) => {},
            None => {},
        }
    } else {
        lemma_find_char(s.drop_first(), c, i - 1);
        assert(s.drop_first().skip(i - 1) =~= s.skip(i));
    }
}

pub proof fn lemma_find_char_props(s: Seq<char>, c: char)
    ensures
        match find_char(s, c) {
            Some(k) => 0 <= k < s.len() && s[k] == c && forall|j: int|
                0 <= j < k ==> #[trigger] s[j] != c,
            None => forall|j: int| 0 <= j < s.len() ==> #[trigger] s[j] != c,
        },
    decreases s.len(),
{
    if s.len() > 0 {
        lemma_find_char_props(s.drop_first(), c);
        if s[0] != c {
            match find_char(s.drop_first(), c) {
                Some(k) => {
                    assert forall|j: int| 0 <= j < k + 1 implies #[trigger] s[j] != c by {
                        if j > 0 {
                            assert(s[j] == s.drop_first()[j - 1]);
                        }
                    }
                },
                None => {
                    assert forall|j: int| 0 <= j < s.len() implies #[trigger] s[j] != c by {
                        if j > 0 {
                            assert(s[j] == s.drop_first()[j - 1]);
                        }
                    }
                },
            }
        }
    }
}

/// Whether `c` occurs in `s`.
pub open spec fn has_char(s: Seq<char>, c: char) -> bool {
    exists|j: int| 0 <= j < s.len() && s[j] == c
}

/// First index of `c` in `v`.
pub fn find_char_in(v: &[char], c: char) -> (r: Option<usize>)
    ensures
        r matches Some(k) ==> find_char(v@, c) == Some(k as int),
        r is None ==> find_char(v@, c) is None,
{
    let mut i: usize = 0;
    while i < v.len()
        invariant
            i <= v@.len(),
            forall|j: int| 0 <= j < i ==> #[trigger] v@[j] != c,
        decreases v@.len() - i,
    {
        if v[i] == c {
            proof {
                lemma_find_char(v@, c, i as int);
            }
            return Some(i);
        }
        i = i + 1;
    }
    proof {
        lemma_find_char(v@, c, i as int);
    }
    None
}

/// Whether `c` occurs in `v`.
pub fn contains_char(v: &[char], c: char) -> (r: bool)
    ensures
        r == has_char(v@, c),
{
    let mut i: usize = 0;
    while i < v.len()
        invariant
            i <= v@.len(),
            forall|j: int| 0 <= j < i ==> #[trigger] v@[j] != c,
        decreases v@.len() - i,
    {
        if v[i] == c {
            return true;
        }
        i = i + 1;
    }
    false
}


/// Number of occurrences of `c` in `s`.
pub open spec fn count_char(s: Seq<char>, c: char) -> nat
    decreases s.len(),
{
    if s.len() == 0 {
        0
    } else {
        count_char(s.drop_last(), c) + if s.last() == c { 1nat } else { 0nat }
    }
}

/// Counts the occurrences of `c` in `v`.
pub fn count_char_in(v: &[char], c: char) -> (n: usize)
    ensures
        n == count_char(v@, c),
{
    let mut n: usize = 0;
    let mut i: usize = 0;
    while i < v.len()
        invariant
            i <= v@.len(),
            n == count_char(v@.take(i as int), c),
            n <= i,
        decreases v@.len() - i,
    {
        assert(v@.take(i + 1).drop_last() =~= v@.take(i as int));
        if v[i] == c {
            n = n + 1;
        }
        i = i + 1;
    }
    assert(v@.take(v@.len() as int) =~= v@);
    n
}

// ---------------------------------------------------------------------------
// Splitting
// ---------------------------------------------------------------------------

/// The pieces of `s` between occurrences of `c` (`str::split` on a char).
pub open spec fn split_char(s: Seq<char>, c: char) -> Seq<Seq<char>>
    decreases s.len(),
{
    match find_char(s, c) {
        Some(k) => if 0 <= k < s.len() {
            seq![s.take(k)] + split_char(s.skip(k + 1), c)
        } else {
            seq![s]
        },
        None => seq![s],
    }
}

/// Splits `v` at every occurrence of `c`.
pub fn split_chars(v: &[char], c: char) -> (r: Vec<Vec<char>>)
    ensures
        r@.len() == split_char(v@, c).len(),
        forall|i: int| 0 <= i < r@.len() ==> #[trigger] r@[i]@ == split_char(v@, c)[i],
{
    let mut r: Vec<Vec<char>> = Vec::new();
    let mut start: usize = 0;
    let mut i: usize = 0;
    assert(v@.skip(0) =~= v@);
    while i < v.len()
        invariant
            start <= i <= v@.len(),
            forall|j: int| start <= j < i ==> #[trigger] v@[j] != c,
            ({
                let whole = split_char(v@, c);
                let rest = split_char(v@.skip(start as int), c);
                &&& whole.len() == r@.len() + rest.len()
                &&& forall|k: int| 0 <= k < r@.len() ==> #[trigger] r@[k]@ == whole[k]
                &&& forall|k: int| 0 <= k < rest.len() ==> #[trigger] rest[k] == whole[r@.len() + k]
            }),
        decreases v@.len() - i,
    {
        if v[i] == c {
            let piece = sub_chars(v, start, i);
            proof {
                let t = v@.skip(start as int);
                lemma_find_char(t, c, i - start);
                assert(t.skip(i - start) =~= v@.skip(i as int));
                assert(t.take(i - start) =~= v@.subrange(start as int, i as int));
                assert(t.skip(i - start + 1) =~= v@.skip(i + 1));
                assert(find_char(t.skip(i - start), c) == Some(0int));
                assert(split_char(t, c) == seq![t.take(i - start)] + split_char(
                    t.skip(i - start + 1),
                    c,
                ));
            }
            let ghost old_r = r@;
            r.push(piece);
            proof {
                let whole = split_char(v@, c);
                let rest2 = split_char(v@.skip(i + 1), c);
                let rest = split_char(v@.skip(start as int), c);
                assert(rest[0] == piece@);
                assert(whole[old_r.len() as int] == rest[0]);
                assert forall|k: int| 0 <= k < r@.len() implies #[trigger] r@[k]@ == whole[k] by {
                    if k < old_r.len() {
                        assert(r@[k] == old_r[k]);
                    }
                }
                assert forall|k: int| 0 <= k < rest2.len() implies #[trigger] rest2[k] == whole[r@.len() + k] by {
                    assert(rest[k + 1] == rest2[k]);
                }
            }
            start = i + 1;
        }
        i = i + 1;
    }
    let last = sub_chars(v, start, v.len());
    proof {
        let t = v@.skip(start as int);
        lemma_find_char(t, c, v@.len() - start);
        assert(t.skip(v@.len() - start) =~= Seq::<char>::empty());
        assert(t =~= v@.subrange(start as int, v@.len() as int));
        assert(find_char(t, c) is None);
        assert(split_char(t, c) == seq![t]);
        assert(split_char(v@, c)[r@.len() as int] == split_char(t, c)[0]);
    }
    let ghost old_r = r@;
    r.push(last);
    proof {
        let whole = split_char(v@, c);
        assert forall|k: int| 0 <= k < r@.len() implies #[trigger] r@[k]@ == whole[k] by {
            if k < old_r.len() {
                assert(r@[k] == old_r[k]);
            }
        }
    }
    r
}


// ---------------------------------------------------------------------------
// Lines
// ---------------------------------------------------------------------------

/// `s` without one trailing carriage return.
pub open spec fn strip_cr(s: Seq<char>) -> Seq<char> {
    if s.len() > 0 && s.last() == '\r' {
        s.drop_last()
    } else {
        s
    }
}

/// The lines of `s` as `str::lines` yields them: split at `\n`, a `\r`
/// right before a `\n` removed, and no empty line after a final `\n`.
pub open spec fn lines(s: Seq<char>) -> Seq<Seq<char>>
    decreases s.len(),
{
    if s.len() == 0 {
        seq![]
    } else {
        match find_char(s, '\n') {
            Some(k) => if 0 <= k < s.len() {
                seq![strip_cr(s.take(k))] + lines(s.skip(k + 1))
            } else {
                seq![s]
            },
            None => seq![s],
        }
    }
}

/// Removes one trailing `\r` from `v`.
pub fn strip_cr_chars(v: Vec<char>) -> (r: Vec<char>)
    ensures
        r@ == strip_cr(v@),
{
    let mut v = v;
    if v.len() > 0 && v[v.len() - 1] == '\r' {
        v.pop();
    }
    v
}

/// Splits `v` into lines.
pub fn lines_of(v: &[char]) -> (r: Vec<Vec<char>>)
    ensures
        r@.len() == lines(v@).len(),
        forall|i: int| 0 <= i < r@.len() ==> #[trigger] r@[i]@ == lines(v@)[i],
{
    let mut r: Vec<Vec<char>> = Vec::new();
    let mut start: usize = 0;
    let mut i: usize = 0;
    assert(v@.skip(0) =~= v@);
    while i < v.len()
        invariant
            start <= i <= v@.len(),
            forall|j: int| start <= j < i ==> #[trigger] v@[j] != '\n',
            ({
                let whole = lines(v@);
                let rest = lines(v@.skip(start as int));
                &&& whole.len() == r@.len() + rest.len()
                &&& forall|k: int| 0 <= k < r@.len() ==> #[trigger] r@[k]@ == whole[k]
                &&& forall|k: int| 0 <= k < rest.len() ==> #[trigger] rest[k] == whole[r@.len() + k]
            }),
        decreases v@.len() - i,
    {
        if v[i] == '\n' {
            let piece = strip_cr_chars(sub_chars(v, start, i));
            proof {
                let t = v@.skip(start as int);
                lemma_find_char(t, '\n', i - start);
                assert(t.skip(i - start) =~= v@.skip(i as int));
                assert(t.take(i - start) =~= v@.subrange(start as int, i as int));
                assert(t.skip(i - start + 1) =~= v@.skip(i + 1));
                assert(find_char(t.skip(i - start), '\n') == Some(0int));
                assert(lines(t) == seq![strip_cr(t.take(i - start))] + lines(
                    t.skip(i - start + 1),
                ));
            }
            let ghost old_r = r@;
            r.push(piece);
            proof {
                let whole = lines(v@);
                let rest2 = lines(v@.skip(i + 1));
                let rest = lines(v@.skip(start as int));
                assert(rest[0] == piece@);
                assert(whole[old_r.len() as int] == rest[0]);
                assert forall|k: int| 0 <= k < r@.len() implies #[trigger] r@[k]@ == whole[k] by {
                    if k < old_r.len() {
                        assert(r@[k] == old_r[k]);
                    }
                }
                assert forall|k: int| 0 <= k < rest2.len() implies #[trigger] rest2[k] == whole[r@.len() + k] by {
                    assert(rest[k + 1] == rest2[k]);
                }
            }
            start = i + 1;
        }
        i = i + 1;
    }
    if start < v.len() {
        let last = sub_chars(v, start, v.len());
        proof {
            let t = v@.skip(start as int);
            lemma_find_char(t, '\n', v@.len() - start);
            assert(t.skip(v@.len() - start) =~= Seq::<char>::empty());
            assert(t =~= v@.subrange(start as int, v@.len() as int));
            assert(find_char(t, '\n') is None);
            assert(lines(t) == seq![t]);
            assert(lines(v@)[r@.len() as int] == lines(t)[0]);
        }
        let ghost old_r = r@;
        r.push(last);
        proof {
            let whole = lines(v@);
            assert forall|k: int| 0 <= k < r@.len() implies #[trigger] r@[k]@ == whole[k] by {
                if k < old_r.len() {
                    assert(r@[k] == old_r[k]);
                }
            }
        }
    } else {
        assert(v@.skip(start as int) =~= Seq::<char>::empty());
    }
    r
}

// ---------------------------------------------------------------------------
// Substrings
// ---------------------------------------------------------------------------

/// Whether `p` occurs in `s` starting at index `i`.
pub open spec fn occurs_at(s: Seq<char>, p: Seq<char>, i: int) -> bool {
    0 <= i && i + p.len() <= s.len() && s.subrange(i, i + p.len()) =~= p
}

/// Whether `s` begins with `p`.
pub open spec fn starts_with(s: Seq<char>, p: Seq<char>) -> bool {
    occurs_at(s, p, 0)
}

/// Whether `s` ends with `p`.
pub open spec fn ends_with(s: Seq<char>, p: Seq<char>) -> bool {
    occurs_at(s, p, s.len() - p.len())
}

/// Index of the first occurrence of `p` in `s` (`str::find`).
pub open spec fn find_sub(s: Seq<char>, p: Seq<char>) -> Option<int>
    decreases s.len(),
{
    if p.len() == 0 {
        Some(0)
    } else if s.len() < p.len() {
        None
    } else if s.take(p.len() as int) =~= p {
        Some(0)
    } else {
        match find_sub(s.drop_first(), p) {
            Some(k) => Some(k + 1),
            None => None,
        }
    }
}

proof fn lemma_occurs_drop_first(s: Seq<char>, p: Seq<char>, j: int)
    requires
        s.len() > 0,
        j >= 0,
    ensures
        occurs_at(s.drop_first(), p, j) == occurs_at(s, p, j + 1),
{
    if 0 <= j && j + p.len() <= s.drop_first().len() {
        assert(s.drop_first().subrange(j, j + p.len()) =~= s.subrange(j + 1, j + 1 + p.len()));
    }
}

pub proof fn lemma_find_sub(s: Seq<char>, p: Seq<char>, i: int)
    requires
        p.len() > 0,
        0 <= i <= s.len(),
        forall|j: int| 0 <= j < i ==> !#[trigger] occurs_at(s, p, j),
    ensures
        find_sub(s, p) == (match find_sub(s.skip(i), p) {
            Some(k) => Some(k + i),
            None => None,
        }),
    decreases i,
{
    if i == 0 {
        assert(s.skip(0) =~= s);
        match find_sub(s, p) {
            Some(k) => {},
            None => {},
        }
    } else if s.len() < p.len() {
    } else {
        assert(!occurs_at(s, p, 0));
        assert(s.subrange(0, p.len() as int) =~= s.take(p.len() as int));
        assert forall|j: int| 0 <= j < i - 1 implies !#[trigger] occurs_at(s.drop_first(), p, j) by {
            lemma_occurs_drop_first(s, p, j);
            assert(!occurs_at(s, p, j + 1));
        }
        lemma_find_sub(s.drop_first(), p, i - 1);
        assert(s.drop_first().skip(i - 1) =~= s.skip(i));
    }
}

pub proof fn lemma_find_sub_props(s: Seq<char>, p: Seq<char>)
    requires
        p.len() > 0,
    ensures
        match find_sub(s, p) {
            Some(k) => occurs_at(s, p, k) && forall|j: int|
                0 <= j < k ==> !#[trigger] occurs_at(s, p, j),
            None => forall|j: int| !#[trigger] occurs_at(s, p, j),
        },
    decreases s.len(),
{
    if s.len() < p.len() {
    } else if s.take(p.len() as int) =~= p {
        assert(s.subrange(0, p.len() as int) =~= s.take(p.len() as int));
    } else {
        assert(s.subrange(0, p.len() as int) =~= s.take(p.len() as int));
        lemma_find_sub_props(s.drop_first(), p);
        match find_sub(s.drop_first(), p) {
            Some(k) => {
                lemma_occurs_drop_first(s, p, k);
                assert forall|j: int| 0 <= j < k + 1 implies !#[trigger] occurs_at(s, p, j) by {
                    if j > 0 {
                        lemma_occurs_drop_first(s, p, j - 1);
                    }
                }
            },
            None => {
                assert forall|j: int| !#[trigger] occurs_at(s, p, j) by {
                    if j > 0 {
                        lemma_occurs_drop_first(s, p, j - 1);
                    }
                }
            },
        }
    }
}

/// Whether `p` occurs in `v` at index `i`.
pub fn matches_at(v: &[char], p: &[char], i: usize) -> (r: bool)
    ensures
        r == occurs_at(v@, p@, i as int),
{
    if i > v.len() || p.len() > v.len() - i {
        return false;
    }
    let mut k: usize = 0;
    while k < p.len()
        invariant
            i + p.len() <= v.len(),
            k <= p.len(),
            forall|j: int| 0 <= j < k ==> v@[i + j] == #[trigger] p@[j],
        decreases p@.len() - k,
    {
        if v[i + k] != p[k] {
            assert(v@.subrange(i as int, i + p@.len())[k as int] != p@[k as int]);
            return false;
        }
        k = k + 1;
    }
    assert(v@.subrange(i as int, i + p@.len()) =~= p@);
    true
}

/// First occurrence of `p` in `v` at or after `from`; the index is
/// absolute.
pub fn find_sub_from(v: &[char], p: &[char], from: usize) -> (r: Option<usize>)
    requires
        p@.len() > 0,
        from <= v@.len(),
    ensures
        r matches Some(k) ==> find_sub(v@.skip(from as int), p@) == Some(k - from) && from <= k
            && k + p@.len() <= v@.len(),
        r is None ==> find_sub(v@.skip(from as int), p@) is None,
{
    let ghost t = v@.skip(from as int);
    let mut i = from;
    while i < v.len()
        invariant
            from <= i <= v@.len(),
            p@.len() > 0,
            t == v@.skip(from as int),
            forall|j: int| 0 <= j < i - from ==> !#[trigger] occurs_at(t, p@, j),
        decreases v@.len() - i,
    {
        let hit = matches_at(v, p, i);
        proof {
            if i + p@.len() <= v@.len() {
                assert(t.subrange(i - from, i - from + p@.len()) =~= v@.subrange(
                    i as int,
                    i + p@.len(),
                ));
            }
        }
        if hit {
            proof {
                lemma_find_sub(t, p@, i - from);
                assert(t.skip(i - from).take(p@.len() as int) =~= t.subrange(
                    i - from,
                    i - from + p@.len(),
                ));
            }
            return Some(i);
        }
        i = i + 1;
    }
    proof {
        lemma_find_sub(t, p@, i - from);
    }
    None
}

/// Whether `v` begins with `p`.
pub fn starts_with_chars(v: &[char], p: &[char]) -> (r: bool)
    ensures
        r == starts_with(v@, p@),
{
    matches_at(v, p, 0)
}

/// Whether `v` ends with `p`.
pub fn ends_with_chars(v: &[char], p: &[char]) -> (r: bool)
    ensures
        r == ends_with(v@, p@),
{
    if p.len() > v.len() {
        false
    } else {
        matches_at(v, p, v.len() - p.len())
    }
}

// ---------------------------------------------------------------------------
// Replacing
// ---------------------------------------------------------------------------

/// `s` with every non-overlapping occurrence of `p`, scanned from the left,
/// replaced by `r` (`str::replace`; `p` is never empty where it is used).
pub open spec fn replace_all(s: Seq<char>, p: Seq<char>, r: Seq<char>) -> Seq<char>
    decreases s.len(),
{
    if p.len() == 0 || s.len() == 0 {
        s
    } else if occurs_at(s, p, 0) {
        r + replace_all(s.skip(p.len() as int), p, r)
    } else {
        seq![s[0]] + replace_all(s.drop_first(), p, r)
    }
}

/// Replaces every occurrence of `p` in `v` by `r`.
pub fn replace_chars(v: &[char], p: &[char], r: &[char]) -> (out: Vec<char>)
    requires
        p@.len() > 0,
    ensures
        out@ == replace_all(v@, p@, r@),
{
    let mut out: Vec<char> = Vec::new();
    let mut i: usize = 0;
    assert(v@.skip(0) =~= v@);
    while i < v.len()
        invariant
            i <= v@.len(),
            p@.len() > 0,
            out@ + replace_all(v@.skip(i as int), p@, r@) == replace_all(v@, p@, r@),
        decreases v@.len() - i,
    {
        let ghost t = v@.skip(i as int);
        let hit = matches_at(v, p, i);
        proof {
            if i + p@.len() <= v@.len() {
                assert(t.subrange(0, p@.len() as int) =~= v@.subrange(i as int, i + p@.len()));
            }
        }
        if hit {
            proof {
                assert(t.skip(p@.len() as int) =~= v@.skip(i + p@.len()));
                assert(out@ + r@ + replace_all(v@.skip(i + p@.len()), p@, r@) =~= out@ + (r@
                    + replace_all(t.skip(p@.len() as int), p@, r@)));
            }
            extend_chars(&mut out, r);
            i = i + p.len();
        } else {
            proof {
                assert(t.drop_first() =~= v@.skip(i + 1));
                assert(out@.push(v@[i as int]) + replace_all(v@.skip(i + 1), p@, r@) =~= out@ + (
                seq![t[0]] + replace_all(t.drop_first(), p@, r@)));
            }
            out.push(v[i]);
            i = i + 1;
        }
    }
    assert(v@.skip(i as int) =~= Seq::<char>::empty());
    assert(out@ + Seq::<char>::empty() =~= out@);
    out
}

// ---------------------------------------------------------------------------
// Decimal numbers
// ---------------------------------------------------------------------------

/// The ASCII digit for `d` (`0 <= d < 10`).
pub open spec fn digit_char(d: nat) -> char {
    ((d + 48) as u8) as char
}

/// Decimal representation of `n`, without leading zeros.
pub open spec fn decimal(n: nat) -> Seq<char>
    decreases n,
{
    if n < 10 {
        seq![digit_char(n)]
    } else {
        decimal(n / 10).push(digit_char(n % 10))
    }
}

/// Decimal digits of `n`.
pub fn decimal_chars(n: u64) -> (r: Vec<char>)
    ensures
        r@ == decimal(n as nat),
    decreases n,
{
    if n < 10 {
        let d = ((n as u8) + 48u8) as char;
        vec![d]
    } else {
        let mut r = decimal_chars(n / 10);
        let d = (((n % 10) as u8) + 48u8) as char;
        r.push(d);
        r
    }
}

/// Decimal representation of `n` as a string.
pub fn decimal_string(n: u64) -> (s: String)
    ensures
        s@ == decimal(n as nat),
{
    let v = decimal_chars(n);
    string_of(&v)
}

} // verus!
