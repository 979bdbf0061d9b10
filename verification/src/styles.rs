//! Inline styling of template lines: `*italic*`, `**bold**` and
//! `***bold italic***` markers, and `<b>`/`<i>` tags in placeholder values.
//!
//! The marker scanner works on characters and is total: a star that opens
//! no marker is kept as text.
use vstd::prelude::*;
use crate::text::{chars_of, find_sub, find_sub_from, string_of, sub_chars};

verus! {

broadcast use vstd::string::group_string_axioms;

/// The style of a run of text.
#[derive(Debug, Clone, Copy, PartialEq, Eq, Structural)]
pub enum TextStyle {
    Regular,
    Bold,
    Italic,
    BoldItalic,
}

/// A run of text with one style.
#[derive(Debug)]
pub struct TextSegment {
    text: String,
    style: TextStyle,
}

impl TextSegment {
    /// A segment of `text` in `style`.
    pub fn new(text: String, style: TextStyle) -> (r: TextSegment)
        ensures
            r.text_view() == text@,
            r.style_view() == style,
    {
        TextSegment { text, style }
    }

    /// The text of the segment.
    pub fn text(&self) -> (r: &String)
        ensures
            r@ == self.text_view(),
    {
        &self.text
    }

    /// The style of the segment.
    pub fn style(&self) -> (r: TextStyle)
        ensures
            r == self.style_view(),
    {
        self.style
    }

    /// The text as characters.
    pub closed spec fn text_view(self) -> Seq<char> {
        self.text@
    }

    /// The style.
    pub closed spec fn style_view(self) -> TextStyle {
        self.style
    }
}

/// A segment as a pair of text and style.
pub open spec fn seg_view(s: TextSegment) -> (Seq<char>, TextStyle) {
    (s.text_view(), s.style_view())
}

/// The views of a sequence of segments.
pub open spec fn segs_view(v: Seq<TextSegment>) -> Seq<(Seq<char>, TextStyle)> {
    v.map_values(|s: TextSegment| seg_view(s))
}

// ---------------------------------------------------------------------------
// UTF-8 measures
// ---------------------------------------------------------------------------

/// Number of bytes of the UTF-8 encoding of `c`.
pub open spec fn utf8_width(c: char) -> nat {
    if (c as u32) < 0x80 {
        1
    } else if (c as u32) < 0x800 {
        2
    } else if (c as u32) < 0x10000 {
        3
    } else {
        4
    }
}

/// Number of bytes of the UTF-8 encoding of `s`.
pub open spec fn byte_len(s: Seq<char>) -> nat
    decreases s.len(),
{
    if s.len() == 0 {
        0
    } else {
        utf8_width(s[0]) + byte_len(s.drop_first())
    }
}

/// The number of characters before byte offset `p`, when `p` falls on a
/// character boundary of `s`.
pub open spec fn char_at_byte(s: Seq<char>, p: int) -> Option<int>
    decreases s.len(),
{
    if p == 0 {
        Some(0)
    } else if s.len() == 0 || p < utf8_width(s[0]) {
        None
    } else {
        match char_at_byte(s.drop_first(), p - utf8_width(s[0])) {
            Some(m) => Some(m + 1),
            None => None,
        }
    }
}

/// Width in bytes of one character.
pub fn char_utf8_width(c: char) -> (w: usize)
    ensures
        w == utf8_width(c),
{
    if (c as u32) < 0x80 {
        1
    } else if (c as u32) < 0x800 {
        2
    } else if (c as u32) < 0x10000 {
        3
    } else {
        4
    }
}

pub proof fn lemma_byte_len_take(s: Seq<char>, k: int)
    requires
        0 <= k < s.len(),
    ensures
        byte_len(s.take(k + 1)) == byte_len(s.take(k)) + utf8_width(s[k]),
    decreases k,
{
    if k == 0 {
        assert(s.take(1).drop_first() =~= Seq::<char>::empty());
        assert(s.take(1)[0] == s[0]);
        assert(byte_len(Seq::<char>::empty()) == 0);
        assert(s.take(0).len() == 0);
    } else {
        assert(s.take(k + 1)[0] == s[0]);
        assert(s.take(k)[0] == s[0]);
        lemma_byte_len_take(s.drop_first(), k - 1);
        assert(s.take(k + 1).drop_first() =~= s.drop_first().take(k));
        assert(s.take(k).drop_first() =~= s.drop_first().take(k - 1));
    }
}

pub proof fn lemma_byte_len_bound(s: Seq<char>)
    ensures
        s.len() <= byte_len(s) <= 4 * s.len(),
    decreases s.len(),
{
    if s.len() > 0 {
        lemma_byte_len_bound(s.drop_first());
    }
}

proof fn lemma_char_at_byte_step(s: Seq<char>, m: int, p: int)
    requires
        0 <= m <= s.len(),
        p == byte_len(s.take(m)),
    ensures
        char_at_byte(s, p) == Some(m),
    decreases m,
{
    if m == 0 {
    } else {
        assert(s.take(m)[0] == s[0]);
        assert(s.take(m).drop_first() =~= s.drop_first().take(m - 1));
        lemma_byte_len_bound(s.drop_first().take(m - 1));
        if p == 0 {
            assert(false);
        }
        lemma_char_at_byte_step(s.drop_first(), m - 1, p - utf8_width(s[0]));
    }
}

proof fn lemma_char_at_byte_none(s: Seq<char>, m: int, p: int)
    requires
        0 <= m < s.len(),
        byte_len(s.take(m)) < p < byte_len(s.take(m + 1)),
    ensures
        char_at_byte(s, p) is None,
    decreases m,
{
    lemma_byte_len_take(s, m);
    if m == 0 {
        assert(s.take(0) =~= Seq::<char>::empty());
    } else {
        assert(s.take(m)[0] == s[0]);
        assert(s.take(m).drop_first() =~= s.drop_first().take(m - 1));
        assert(s.take(m + 1).drop_first() =~= s.drop_first().take(m));
        lemma_byte_len_bound(s.drop_first().take(m - 1));
        lemma_char_at_byte_none(s.drop_first(), m - 1, p - utf8_width(s[0]));
    }
}

proof fn lemma_char_at_byte_beyond(s: Seq<char>, p: int)
    requires
        p > byte_len(s),
    ensures
        char_at_byte(s, p) is None,
    decreases s.len(),
{
    if s.len() > 0 && p >= utf8_width(s[0]) {
        lemma_char_at_byte_beyond(s.drop_first(), p - utf8_width(s[0]));
    }
}

/// The character index at byte offset `p` of `v`, when `p` is a boundary.
pub fn char_index_at_byte(v: &[char], p: usize) -> (r: Option<usize>)
    requires
        v@.len() <= usize::MAX / 8,
    ensures
        match r {
            Some(m) => char_at_byte(v@, p as int) == Some(m as int) && m <= v@.len(),
            None => char_at_byte(v@, p as int) is None,
        },
{
    let mut m: usize = 0;
    let mut b: usize = 0;
    assert(v@.take(0) =~= Seq::<char>::empty());
    while m < v.len() && b < p
        invariant
            m <= v@.len(),
            v@.len() <= usize::MAX / 8,
            b == byte_len(v@.take(m as int)),
            b <= 4 * m,
            b <= p,
        decreases v@.len() - m,
    {
        let w = char_utf8_width(v[m]);
        proof {
            lemma_byte_len_take(v@, m as int);
        }
        if b + w > p {
            proof {
                lemma_char_at_byte_none(v@, m as int, p as int);
            }
            return None;
        }
        b = b + w;
        m = m + 1;
    }
    if b == p {
        proof {
            lemma_char_at_byte_step(v@, m as int, p as int);
        }
        return Some(m);
    }
    if false {
        Some(m)
    } else {
        proof {
            assert(v@.take(m as int) =~= v@);
            lemma_char_at_byte_beyond(v@, p as int);
        }
        None
    }
}

/// Number of bytes of `v[from..to]`.
pub fn byte_len_of(v: &[char], from: usize, to: usize) -> (n: usize)
    requires
        from <= to <= v@.len(),
        v@.len() <= usize::MAX / 8,
    ensures
        n == byte_len(v@.subrange(from as int, to as int)),
        n <= 4 * (to - from),
{
    let mut i = from;
    let mut n: usize = 0;
    let ghost s = v@.subrange(from as int, to as int);
    assert(s.take(0) =~= Seq::<char>::empty());
    while i < to
        invariant
            from <= i <= to <= v@.len(),
            v@.len() <= usize::MAX / 8,
            s == v@.subrange(from as int, to as int),
            n == byte_len(s.take(i - from)),
            n <= 4 * (i - from),
        decreases to - i,
    {
        proof {
            lemma_byte_len_take(s, i - from);
            assert(s[i - from] == v@[i as int]);
        }
        n = n + char_utf8_width(v[i]);
        i = i + 1;
    }
    assert(s.take(to - from) =~= s);
    n
}

// ---------------------------------------------------------------------------
// Marker scanning
// ---------------------------------------------------------------------------

/// `n` asterisks.
pub open spec fn stars(n: nat) -> Seq<char> {
    Seq::new(n, |_i: int| '*')
}

/// Whether characters `i .. i + n` are stars, with room after them
/// (`i + 2n - 1 < len`) for the scanner to try a marker of `n` stars.
pub open spec fn opens_marker(c: Seq<char>, i: int, n: nat) -> bool {
    &&& 0 <= i
    &&& i + 2 * n - 1 < c.len()
    &&& forall|j: int| i <= j < i + n ==> c[j] == '*'
}

/// A marker of `n` stars at character `i` and its closing run: the text
/// between them and the index just past the closing run.
pub open spec fn marker_match(c: Seq<char>, i: int, n: nat) -> Option<(Seq<char>, int)> {
    if opens_marker(c, i, n) {
        match find_sub(c.skip(i + n), stars(n)) {
            None => None,
            Some(k) => Some((c.subrange(i + n, i + n + k), i + n + k + n)),
        }
    } else {
        None
    }
}

/// Length of the run of characters other than `*` starting at `s[0]`.
pub open spec fn plain_run(s: Seq<char>) -> nat
    decreases s.len(),
{
    if s.len() == 0 || s[0] == '*' {
        0
    } else {
        1 + plain_run(s.drop_first())
    }
}

/// Where a run of plain text starting at character `i` ends: at the next
/// `*`, a `*` at `i` itself (one that opens no marker) being kept as text.
pub open spec fn plain_end(c: Seq<char>, i: int) -> int {
    if c[i] == '*' {
        i + 1 + plain_run(c.skip(i + 1))
    } else {
        i + plain_run(c.skip(i))
    }
}

/// The segment that starts at character `i` and the index after it:
/// `***…***` is tried first, then `**…**`, then `*…*`, and otherwise a run
/// of plain text.
pub open spec fn next_segment(c: Seq<char>, i: int) -> ((Seq<char>, TextStyle), int) {
    match marker_match(c, i, 3) {
        Some((t, ni)) => ((t, TextStyle::BoldItalic), ni),
        None => match marker_match(c, i, 2) {
            Some((t, ni)) => ((t, TextStyle::Bold), ni),
            None => match marker_match(c, i, 1) {
                Some((t, ni)) => ((t, TextStyle::Italic), ni),
                None => ((c.subrange(i, plain_end(c, i)), TextStyle::Regular), plain_end(c, i)),
            },
        },
    }
}

proof fn lemma_plain_run_le(s: Seq<char>)
    ensures
        plain_run(s) <= s.len(),
    decreases s.len(),
{
    if s.len() > 0 && s[0] != '*' {
        lemma_plain_run_le(s.drop_first());
    }
}

proof fn lemma_marker_match(c: Seq<char>, i: int, n: nat)
    requires
        n > 0,
    ensures
        marker_match(c, i, n) matches Some((t, ni)) ==> {
            &&& 0 <= i
            &&& i + 2 * n <= ni <= c.len()
            &&& t == c.subrange(i + n, ni - n)
            &&& c.subrange(i, i + n) == stars(n)
            &&& c.subrange(ni - n, ni) == stars(n)
        },
{
    if opens_marker(c, i, n) {
        let s = c.skip(i + n);
        crate::text::lemma_find_sub_props(s, stars(n));
        match find_sub(s, stars(n)) {
            Some(k) => {
                assert(c.subrange(i, i + n) =~= stars(n));
                assert(c.subrange(i + n + k, i + n + k + n) =~= s.subrange(k, k + n));
            },
            None => {},
        }
    }
}

pub proof fn lemma_next_segment(c: Seq<char>, i: int)
    requires
        0 <= i < c.len(),
    ensures
        i < next_segment(c, i).1 <= c.len(),
        c.skip(i) == style_marker(next_segment(c, i).0.1) + next_segment(c, i).0.0
            + style_marker(next_segment(c, i).0.1) + c.skip(next_segment(c, i).1),
{
    lemma_marker_match(c, i, 3);
    lemma_marker_match(c, i, 2);
    lemma_marker_match(c, i, 1);
    let ((t, st), ni) = next_segment(c, i);
    if st == TextStyle::Regular {
        lemma_plain_run_le(c.skip(i + 1));
        lemma_plain_run_le(c.skip(i));
        assert(c.skip(i) =~= Seq::<char>::empty() + t + Seq::<char>::empty() + c.skip(ni));
    } else {
        let n: nat = if st == TextStyle::BoldItalic { 3 } else if st == TextStyle::Bold { 2 } else { 1 };
        assert(style_marker(st) == stars(n));
        assert(c.skip(i) =~= c.subrange(i, i + n) + t + c.subrange(ni - n, ni) + c.skip(ni));
    }
}

/// The segments the scanner produces from character `i` on.
pub open spec fn styles_from(c: Seq<char>, i: int) -> Seq<(Seq<char>, TextStyle)>
    decreases c.len() - i,
{
    if i < 0 || i >= c.len() {
        seq![]
    } else {
        let (seg, ni) = next_segment(c, i);
        proof {
            lemma_next_segment(c, i);
        }
        seq![seg] + styles_from(c, ni)
    }
}

/// The segments of a whole line.
pub open spec fn line_styles(c: Seq<char>) -> Seq<(Seq<char>, TextStyle)> {
    styles_from(c, 0)
}

/// The markers written around text of a style.
pub open spec fn style_marker(st: TextStyle) -> Seq<char> {
    match st {
        TextStyle::Regular => Seq::<char>::empty(),
        TextStyle::Italic => stars(1),
        TextStyle::Bold => stars(2),
        TextStyle::BoldItalic => stars(3),
    }
}

/// A line written back from its segments, each between its markers.
pub open spec fn rebuilt(segs: Seq<(Seq<char>, TextStyle)>) -> Seq<char>
    decreases segs.len(),
{
    if segs.len() == 0 {
        Seq::<char>::empty()
    } else {
        let (t, st) = segs[0];
        style_marker(st) + t + style_marker(st) + rebuilt(segs.drop_first())
    }
}

proof fn lemma_rebuilt_from(c: Seq<char>, i: int)
    requires
        0 <= i <= c.len(),
    ensures
        rebuilt(styles_from(c, i)) == c.skip(i),
    decreases c.len() - i,
{
    if i == c.len() {
        assert(c.skip(i) =~= Seq::<char>::empty());
    } else {
        lemma_next_segment(c, i);
        let (seg, ni) = next_segment(c, i);
        lemma_rebuilt_from(c, ni);
        let segs = styles_from(c, i);
        assert(segs[0] == seg);
        assert(segs.drop_first() =~= styles_from(c, ni));
    }
}

/// Scanning loses, adds and reorders nothing: writing each segment back
/// between its style's markers gives the line again.
pub proof fn law_styles_rebuild_line(c: Seq<char>)
    ensures
        rebuilt(line_styles(c)) == c,
{
    lemma_rebuilt_from(c, 0);
    assert(c.skip(0) =~= c);
}

fn star_run(n: usize) -> (v: Vec<char>)
    ensures
        v@ == stars(n as nat),
{
    let mut v: Vec<char> = Vec::new();
    let mut i: usize = 0;
    while i < n
        invariant
            i <= n,
            v@ == stars(i as nat),
        decreases n - i,
    {
        v.push('*');
        assert(stars((i + 1) as nat) =~= stars(i as nat).push('*'));
        i = i + 1;
    }
    v
}

fn opens_marker_at(c: &[char], i: usize, n: usize) -> (r: bool)
    requires
        c@.len() <= usize::MAX / 8,
        i < c@.len(),
        1 <= n <= 3,
    ensures
        r == opens_marker(c@, i as int, n as nat),
{
    if i + 2 * n - 1 >= c.len() {
        return false;
    }
    let mut j = i;
    while j < i + n
        invariant
            i <= j <= i + n,
            i < c@.len(),
            c@.len() <= usize::MAX / 8,
            i + 2 * n - 1 < c@.len(),
            forall|k: int| i <= k < j ==> c@[k] == '*',
        decreases i + n - j,
    {
        if c[j] != '*' {
            return false;
        }
        j = j + 1;
    }
    true
}

fn marker_at(c: &[char], i: usize, n: usize) -> (r: Option<(Vec<char>, usize)>)
    requires
        c@.len() <= usize::MAX / 8,
        i < c@.len(),
        1 <= n <= 3,
    ensures
        match r {
            Some((t, ni)) => marker_match(c@, i as int, n as nat) == Some((t@, ni as int)),
            None => marker_match(c@, i as int, n as nat) is None,
        },
{
    if !opens_marker_at(c, i, n) {
        return None;
    }
    let run = star_run(n);
    match find_sub_from(c, &run, i + n) {
        None => None,
        Some(k) => {
            let t = sub_chars(c, i + n, k);
            Some((t, k + n))
        },
    }
}

proof fn lemma_plain_run(s: Seq<char>, k: int)
    requires
        0 <= k <= s.len(),
        forall|j: int| 0 <= j < k ==> #[trigger] s[j] != '*',
        k == s.len() || s[k] == '*',
    ensures
        plain_run(s) == k,
    decreases k,
{
    if k > 0 {
        lemma_plain_run(s.drop_first(), k - 1);
    }
}

/// The end of the plain run that starts at `i`.
fn plain_end_at(c: &[char], i: usize) -> (j: usize)
    requires
        i < c@.len(),
    ensures
        j == plain_end(c@, i as int),
{
    let from = if c[i] == '*' { i + 1 } else { i };
    let mut j = from;
    while j < c.len() && c[j] != '*'
        invariant
            from <= j <= c@.len(),
            forall|k: int| from <= k < j ==> c@[k] != '*',
        decreases c@.len() - j,
    {
        j = j + 1;
    }
    proof {
        let s = c@.skip(from as int);
        assert forall|k: int| 0 <= k < j - from implies #[trigger] s[k] != '*' by {
            assert(s[k] == c@[from + k]);
        }
        if j < c.len() {
            assert(s[j - from] == c@[j as int]);
        }
        lemma_plain_run(s, j - from);
    }
    j
}

/// Splits a line into styled segments at `***`, `**` and `*` markers; a
/// star that opens no marker stays in the text.
pub fn parse_styles(line: &str) -> (r: Vec<TextSegment>)
    requires
        line@.len() <= usize::MAX / 8,
    ensures
        segs_view(r@) == line_styles(line@),
{
    let c = chars_of(line);
    let mut out: Vec<TextSegment> = Vec::new();
    let mut i: usize = 0;
    assert(segs_view(out@) =~= Seq::<(Seq<char>, TextStyle)>::empty());
    while i < c.len()
        invariant
            c@ == line@,
            c@.len() <= usize::MAX / 8,
            i <= c@.len(),
            line_styles(c@) == segs_view(out@) + styles_from(c@, i as int),
        decreases c@.len() - i,
    {
        proof {
            lemma_next_segment(c@, i as int);
        }
        let (t, st, ni) = match marker_at(&c, i, 3) {
            Some((t, ni)) => (t, TextStyle::BoldItalic, ni),
            None => match marker_at(&c, i, 2) {
                Some((t, ni)) => (t, TextStyle::Bold, ni),
                None => match marker_at(&c, i, 1) {
                    Some((t, ni)) => (t, TextStyle::Italic, ni),
                    None => {
                        let j = plain_end_at(&c, i);
                        (sub_chars(&c, i, j), TextStyle::Regular, j)
                    },
                },
            },
        };
        let ghost seg_v = (t@, st);
        assert(next_segment(c@, i as int) == (seg_v, ni as int));
        let ghost old_out = segs_view(out@);
        out.push(TextSegment::new(string_of(&t), st));
        proof {
            assert(segs_view(out@) =~= old_out.push(seg_v));
            assert(styles_from(c@, i as int) == seq![seg_v] + styles_from(c@, ni as int));
            assert(segs_view(out@) + styles_from(c@, ni as int) =~= old_out + (seq![seg_v]
                + styles_from(c@, ni as int)));
        }
        i = ni;
    }
    assert(segs_view(out@) + Seq::<(Seq<char>, TextStyle)>::empty() =~= segs_view(out@));
    out
}

} // verus!
