//! The data placeholder tag `[ph:TITLE:BASE64]` as the editor finds it in
//! its text: a title of at least one character other than `:` and `]`,
//! then a value of at least one Base64 character, found left to right
//! without overlap.
use vstd::prelude::*;
use crate::encoding::is_base64_char;
use crate::text::{matches_at, occurs_at};

verus! {

broadcast use vstd::string::group_string_axioms;

/// A character allowed in a placeholder title.
pub open spec fn is_title_char(c: char) -> bool {
    c != ':' && c != ']'
}

/// The number of characters of title (`is_title`) or Base64 (`!is_title`)
/// class that follow index `i` of `s` without interruption.
pub open spec fn run_from(s: Seq<char>, i: int, is_title: bool) -> nat
    decreases s.len() - i,
{
    if i < 0 || i >= s.len() {
        0
    } else if (if is_title {
        is_title_char(s[i])
    } else {
        is_base64_char(s[i])
    }) {
        1 + run_from(s, i + 1, is_title)
    } else {
        0
    }
}

/// The placeholder tag starting at index `i` of `s`, if there is one: its
/// title, the range of its value and the index just past its `]`.
pub open spec fn ph_match_at(s: Seq<char>, i: int) -> Option<(int, int, int)> {
    if occurs_at(s, "[ph:"@, i) {
        let t = run_from(s, i + 4, true);
        let colon = i + 4 + t;
        if t >= 1 && colon < s.len() && s[colon] == ':' {
            let b = run_from(s, colon + 1, false);
            let close = colon + 1 + b;
            if b >= 1 && close < s.len() && s[close] == ']' {
                Some((colon, close, close + 1))
            } else {
                None
            }
        } else {
            None
        }
    } else {
        None
    }
}

/// The title of a tag found at `i` whose title ends at `colon`.
pub open spec fn ph_title(s: Seq<char>, i: int, colon: int) -> Seq<char> {
    s.subrange(i + 4, colon)
}

proof fn lemma_run_bound(s: Seq<char>, i: int, is_title: bool)
    requires
        0 <= i,
    ensures
        i + run_from(s, i, is_title) <= if i <= s.len() { s.len() as int } else { i },
        forall|j: int|
            i <= j < i + run_from(s, i, is_title) ==> (if is_title {
                is_title_char(#[trigger] s[j])
            } else {
                is_base64_char(s[j])
            }),
        i + run_from(s, i, is_title) < s.len() ==> !(if is_title {
            is_title_char(s[i + run_from(s, i, is_title)])
        } else {
            is_base64_char(s[i + run_from(s, i, is_title)])
        }),
    decreases s.len() - i,
{
    if i < s.len() && (if is_title {
        is_title_char(s[i])
    } else {
        is_base64_char(s[i])
    }) {
        lemma_run_bound(s, i + 1, is_title);
    }
}

/// Whether `c` is of the title class (`is_title`) or the Base64 class.
fn in_class(c: char, is_title: bool) -> (r: bool)
    ensures
        r == (if is_title {
            is_title_char(c)
        } else {
            is_base64_char(c)
        }),
{
    if is_title {
        c != ':' && c != ']'
    } else {
        ('A' <= c && c <= 'Z') || ('a' <= c && c <= 'z') || ('0' <= c && c <= '9') || c == '+'
            || c == '/' || c == '='
    }
}

/// Counts the run of title or Base64 characters of `v` from `i`.
fn run_len(v: &[char], i: usize, is_title: bool) -> (n: usize)
    requires
        i <= v@.len(),
    ensures
        n == run_from(v@, i as int, is_title),
        i + n <= v@.len(),
{
    let mut j = i;
    while j < v.len() && in_class(v[j], is_title)
        invariant
            i <= j <= v@.len(),
            run_from(v@, i as int, is_title) == (j - i) + run_from(v@, j as int, is_title),
        decreases v@.len() - j,
    {
        j = j + 1;
    }
    j - i
}

/// The tag starting at index `i` of `v`, as in `ph_match_at`.
pub fn ph_match_in(v: &[char], i: usize) -> (r: Option<(usize, usize, usize)>)
    requires
        i <= v@.len(),
    ensures
        match r {
            Some((c, z, e)) => ph_match_at(v@, i as int) == Some((c as int, z as int, e as int))
                && i + 4 < c < z < e <= v@.len(),
            None => ph_match_at(v@, i as int) is None,
        },
{
    proof {
        reveal_strlit("[ph:");
    }
    let open: Vec<char> = vec!['[', 'p', 'h', ':'];
    assert(open@ =~= "[ph:"@);
    if !matches_at(v, &open, i) {
        return None;
    }
    let n = v.len();
    assert(i + 4 <= n);
    let t = run_len(v, i + 4, true);
    let colon = i + 4 + t;
    if t < 1 || colon >= v.len() || v[colon] != ':' {
        return None;
    }
    let b = run_len(v, colon + 1, false);
    let close = colon + 1 + b;
    if b < 1 || close >= v.len() || v[close] != ']' {
        return None;
    }
    Some((colon, close, close + 1))
}

} // verus!
