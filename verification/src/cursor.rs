//! Positions in the editor's text: conversions between UTF-8 byte offsets
//! (Rust strings) and UTF-16 code units (browser selections), and the tags
//! found around the cursor.
use vstd::prelude::*;
use crate::styles::{
    byte_len, char_at_byte, char_index_at_byte, char_utf8_width, lemma_byte_len_bound,
    lemma_byte_len_take, utf8_width,
};
use crate::text::{
    chars_of, find_char, find_char_in, find_sub, find_sub_from, lines, lines_of, occurs_at,
    string_of, sub_chars, trim, trim_chars, matches_at,
};

verus! {

broadcast use vstd::string::group_string_axioms;

/// Number of UTF-16 code units of `c`.
pub open spec fn utf16_width(c: char) -> nat {
    if (c as u32) < 0x10000 {
        1
    } else {
        2
    }
}

/// Number of UTF-16 code units of `s`.
pub open spec fn utf16_len(s: Seq<char>) -> nat
    decreases s.len(),
{
    if s.len() == 0 {
        0
    } else {
        utf16_width(s[0]) + utf16_len(s.drop_first())
    }
}

proof fn lemma_utf16_len_take(s: Seq<char>, k: int)
    requires
        0 <= k < s.len(),
    ensures
        utf16_len(s.take(k + 1)) == utf16_len(s.take(k)) + utf16_width(s[k]),
    decreases k,
{
    if k == 0 {
        assert(s.take(1).drop_first() =~= Seq::<char>::empty());
        assert(s.take(1)[0] == s[0]);
        assert(utf16_len(Seq::<char>::empty()) == 0);
        assert(s.take(0).len() == 0);
    } else {
        assert(s.take(k + 1)[0] == s[0]);
        assert(s.take(k)[0] == s[0]);
        lemma_utf16_len_take(s.drop_first(), k - 1);
        assert(s.take(k + 1).drop_first() =~= s.drop_first().take(k));
        assert(s.take(k).drop_first() =~= s.drop_first().take(k - 1));
    }
}

fn char_utf16_width(c: char) -> (w: usize)
    ensures
        w == utf16_width(c),
{
    if (c as u32) < 0x10000 {
        1
    } else {
        2
    }
}

pub(crate) fn utf16_len_prefix(c: &[char], m: usize) -> (n: usize)
    requires
        m <= c@.len(),
        c@.len() <= usize::MAX / 8,
    ensures
        n == utf16_len(c@.take(m as int)),
        n <= 2 * m,
{
    let mut i: usize = 0;
    let mut n: usize = 0;
    assert(c@.take(0) =~= Seq::<char>::empty());
    while i < m
        invariant
            i <= m <= c@.len(),
            c@.len() <= usize::MAX / 8,
            n == utf16_len(c@.take(i as int)),
            n <= 2 * i,
        decreases m - i,
    {
        proof {
            lemma_utf16_len_take(c@, i as int);
        }
        n = n + char_utf16_width(c[i]);
        i = i + 1;
    }
    n
}

/// The UTF-16 position of byte offset `byte_idx` of `s`, which must fall on
/// a character boundary (`byte_to_utf16_idx`; the count is kept to its low
/// 32 bits).
pub fn byte_to_utf16_idx(s: &str, byte_idx: usize) -> (r: u32)
    requires
        s@.len() <= usize::MAX / 8,
        char_at_byte(s@, byte_idx as int) is Some,
    ensures
        r == utf16_len(s@.take(char_at_byte(s@, byte_idx as int)->0)) as u32,
{
    let c = chars_of(s);
    match char_index_at_byte(&c, byte_idx) {
        Some(m) => {
            let n = utf16_len_prefix(&c, m);
            n as u32
        },
        None => 0,
    }
}

/// The number of leading characters of `s` whose UTF-16 encoding fits in
/// `k` code units: the character a UTF-16 position `k` falls on (a position
/// inside a surrogate pair counts as the start of that character).
pub open spec fn chars_within_units(s: Seq<char>, k: int) -> nat
    decreases s.len(),
{
    if s.len() == 0 || k < utf16_width(s[0]) {
        0
    } else {
        1 + chars_within_units(s.drop_first(), k - utf16_width(s[0]))
    }
}

/// The byte offset of UTF-16 position `k` of `s`: the UTF-8 length of the
/// characters before it, or the byte length of `s` past its end.
pub open spec fn byte_idx_of_utf16(s: Seq<char>, k: int) -> int {
    byte_len(s.take(chars_within_units(s, k) as int)) as int
}

proof fn lemma_chars_within_units_le(s: Seq<char>, k: int)
    ensures
        chars_within_units(s, k) <= s.len(),
    decreases s.len(),
{
    if s.len() > 0 && k >= utf16_width(s[0]) {
        lemma_chars_within_units_le(s.drop_first(), k - utf16_width(s[0]));
    }
}

/// The number of characters of `c` that fit in `k` UTF-16 code units.
pub(crate) fn chars_in_units(c: &[char], k: usize) -> (m: usize)
    requires
        c@.len() <= usize::MAX / 8,
    ensures
        m == chars_within_units(c@, k as int),
        m <= c@.len(),
{
    let mut i: usize = 0;
    let mut used: usize = 0;
    assert(c@.skip(0) =~= c@);
    while i < c.len() && used + char_utf16_width(c[i]) <= k
        invariant
            i <= c@.len(),
            c@.len() <= usize::MAX / 8,
            used <= k,
            used <= 2 * i,
            chars_within_units(c@, k as int) == i + chars_within_units(c@.skip(i as int), k - used),
        decreases c@.len() - i,
    {
        let w = char_utf16_width(c[i]);
        proof {
            let t = c@.skip(i as int);
            assert(t[0] == c@[i as int]);
            assert(t.drop_first() =~= c@.skip(i + 1));
        }
        used = used + w;
        i = i + 1;
    }
    proof {
        if i < c@.len() {
            assert(c@.skip(i as int)[0] == c@[i as int]);
        } else {
            assert(c@.skip(i as int).len() == 0);
        }
    }
    i
}

/// Converts a UTF-16 index, as a browser selection reports it, into a byte
/// offset of `s`: the offset of the character at that position, or the
/// byte length of `s` past its end.
pub fn utf16_to_byte_idx(s: &str, utf16_idx: usize) -> (r: usize)
    requires
        s@.len() <= usize::MAX / 8,
    ensures
        r == byte_idx_of_utf16(s@, utf16_idx as int),
{
    let c = chars_of(s);
    let m = chars_in_units(&c, utf16_idx);
    proof {
        lemma_byte_len_bound(c@);
    }
    let b = crate::styles::byte_len_of(&c, 0, m);
    assert(c@.subrange(0, m as int) =~= c@.take(m as int));
    b
}

/// The UTF-16 length of a prefix of characters counts back to that prefix.
proof fn lemma_chars_within_utf16_len(s: Seq<char>, m: int)
    requires
        0 <= m <= s.len(),
    ensures
        chars_within_units(s, utf16_len(s.take(m)) as int) == m,
    decreases m,
{
    if m == 0 {
        assert(s.take(0) =~= Seq::<char>::empty());
    } else {
        assert(s.take(m)[0] == s[0]);
        assert(s.take(m).drop_first() =~= s.drop_first().take(m - 1));
        lemma_chars_within_utf16_len(s.drop_first(), m - 1);
    }
}

proof fn lemma_char_at_byte_is_byte_len(s: Seq<char>, p: int)
    requires
        char_at_byte(s, p) is Some,
    ensures
        0 <= char_at_byte(s, p)->0 <= s.len(),
        p == byte_len(s.take(char_at_byte(s, p)->0)),
    decreases s.len(),
{
    if p == 0 {
        assert(s.take(0) =~= Seq::<char>::empty());
    } else {
        let w = utf8_width(s[0]);
        lemma_char_at_byte_is_byte_len(s.drop_first(), p - w);
        let m = char_at_byte(s, p)->0;
        assert(s.take(m).drop_first() =~= s.drop_first().take(m - 1));
        assert(s.take(m)[0] == s[0]);
    }
}

/// Byte offsets and UTF-16 positions convert into each other: a character
/// boundary `b` of `s` taken to its UTF-16 position and back is `b` again;
/// the UTF-16 position of the `m`th character taken to a byte offset and
/// back is that position again; and every UTF-16 position lands on a
/// character boundary.
pub proof fn law_utf16_round_trip(s: Seq<char>, m: int, b: int, k: int)
    ensures
        0 <= m <= s.len() ==> char_at_byte(s, byte_idx_of_utf16(s, utf16_len(s.take(m)) as int))
            == Some(m),
        char_at_byte(s, b) is Some ==> byte_idx_of_utf16(
            s,
            utf16_len(s.take(char_at_byte(s, b)->0)) as int,
        ) == b,
        char_at_byte(s, byte_idx_of_utf16(s, k)) == Some(chars_within_units(s, k) as int),
{
    if 0 <= m <= s.len() {
        lemma_chars_within_utf16_len(s, m);
        lemma_char_at_byte_take(s, m);
    }
    if char_at_byte(s, b) is Some {
        lemma_char_at_byte_is_byte_len(s, b);
        lemma_chars_within_utf16_len(s, char_at_byte(s, b)->0);
    }
    lemma_chars_within_units_le(s, k);
    lemma_char_at_byte_take(s, chars_within_units(s, k) as int);
}

// ---------------------------------------------------------------------------
// HTML escaping
// ---------------------------------------------------------------------------

/// The HTML entity of a character that is special in HTML (`&`, `<`, `>`,
/// `"`, `'`), or the character itself.
pub open spec fn html_entity(c: char) -> Seq<char> {
    if c == '&' {
        seq!['&', 'a', 'm', 'p', ';']
    } else if c == '<' {
        seq!['&', 'l', 't', ';']
    } else if c == '>' {
        seq!['&', 'g', 't', ';']
    } else if c == '"' {
        seq!['&', 'q', 'u', 'o', 't', ';']
    } else if c == '\'' {
        seq!['&', '#', '3', '9', ';']
    } else {
        seq![c]
    }
}

/// `s` with each character replaced by its HTML entity (the same text as
/// replacing `&`, `<`, `>`, `"` and `'` in turn).
pub open spec fn escaped_html(s: Seq<char>) -> Seq<char>
    decreases s.len(),
{
    if s.len() == 0 {
        Seq::<char>::empty()
    } else {
        html_entity(s[0]) + escaped_html(s.drop_first())
    }
}

/// Escaped text holds none of `<`, `>`, `"` and `'`, so it cannot open a
/// tag or leave an attribute value.
pub proof fn law_escaped_html_is_inert(s: Seq<char>)
    ensures
        !escaped_html(s).contains('<'),
        !escaped_html(s).contains('>'),
        !escaped_html(s).contains('"'),
        !escaped_html(s).contains('\''),
    decreases s.len(),
{
    if s.len() > 0 {
        law_escaped_html_is_inert(s.drop_first());
        let e = html_entity(s[0]);
        let t = escaped_html(s.drop_first());
        let u = e + t;
        assert forall|i: int| 0 <= i < u.len() implies {
            let x = #[trigger] u[i];
            x != '<' && x != '>' && x != '"' && x != '\''
        } by {
            if i >= e.len() {
                assert(u[i] == t[i - e.len()]);
            }
        }
    }
}

/// Escaping is injective: different texts never escape to the same text,
/// so the escaped text determines the original.
pub proof fn law_escaped_html_injective(a: Seq<char>, b: Seq<char>)
    requires
        escaped_html(a) == escaped_html(b),
    ensures
        a == b,
    decreases a.len(),
{
    if a.len() == 0 {
        if b.len() > 0 {
            assert(escaped_html(b).len() > 0);
        }
        assert(b.len() == 0);
        assert(a =~= b);
    } else {
        if b.len() == 0 {
            assert(escaped_html(a).len() > 0);
        }
        let ea = html_entity(a[0]);
        let eb = html_entity(b[0]);
        let ta = escaped_html(a.drop_first());
        let tb = escaped_html(b.drop_first());
        assert((ea + ta)[0] == ea[0]);
        assert((eb + tb)[0] == eb[0]);
        if ea.len() > 1 {
            assert((ea + ta)[1] == ea[1]);
        }
        if eb.len() > 1 {
            assert((eb + tb)[1] == eb[1]);
        }
        assert(a[0] == b[0]);
        assert(ea + ta == eb + tb);
        assert(ta =~= (ea + ta).skip(ea.len() as int));
        assert(tb =~= (eb + tb).skip(eb.len() as int));
        law_escaped_html_injective(a.drop_first(), b.drop_first());
        assert(a =~= seq![a[0]] + a.drop_first());
        assert(b =~= seq![b[0]] + b.drop_first());
    }
}

fn entity_chars(c: char) -> (r: Vec<char>)
    ensures
        r@ == html_entity(c),
{
    if c == '&' {
        vec!['&', 'a', 'm', 'p', ';']
    } else if c == '<' {
        vec!['&', 'l', 't', ';']
    } else if c == '>' {
        vec!['&', 'g', 't', ';']
    } else if c == '"' {
        vec!['&', 'q', 'u', 'o', 't', ';']
    } else if c == '\'' {
        vec!['&', '#', '3', '9', ';']
    } else {
        vec![c]
    }
}

/// Escapes the characters of `input` that are special in HTML.
pub fn escape_html(input: &str) -> (r: String)
    ensures
        r@ == escaped_html(input@),
{
    let v = chars_of(input);
    let mut out: Vec<char> = Vec::new();
    let mut i: usize = 0;
    assert(v@.skip(0) =~= v@);
    while i < v.len()
        invariant
            i <= v@.len(),
            escaped_html(v@) == out@ + escaped_html(v@.skip(i as int)),
        decreases v@.len() - i,
    {
        let e = entity_chars(v[i]);
        proof {
            let t = v@.skip(i as int);
            assert(t[0] == v@[i as int]);
            assert(t.drop_first() =~= v@.skip(i + 1));
        }
        let ghost before = out@;
        crate::text::extend_chars(&mut out, &e);
        assert(out@ + escaped_html(v@.skip(i + 1)) =~= before + (e@ + escaped_html(v@.skip(i + 1))));
        i = i + 1;
    }
    assert(v@.skip(i as int) =~= Seq::<char>::empty());
    assert(out@ + Seq::<char>::empty() =~= out@);
    string_of(&out)
}

// ---------------------------------------------------------------------------
// MD5 of a text
// ---------------------------------------------------------------------------

/// The lower-case hexadecimal digit of `d < 16`.
pub open spec fn hex_digit(d: nat) -> char {
    if d < 10 {
        ((d + 48) as u8) as char
    } else {
        ((d + 87) as u8) as char
    }
}

/// Two lower-case hexadecimal digits per byte.
pub open spec fn hex_lower(b: Seq<u8>) -> Seq<char>
    decreases b.len(),
{
    if b.len() == 0 {
        seq![]
    } else {
        hex_lower(b.drop_last()) + seq![hex_digit((b.last() / 16) as nat), hex_digit((b.last() % 16) as nat)]
    }
}

fn hex_char(d: u8) -> (c: char)
    requires
        d < 16,
    ensures
        c == hex_digit(d as nat),
{
    if d < 10 {
        (d + 48) as char
    } else {
        (d + 87) as char
    }
}

/// The MD5 digest of the UTF-8 encoding of `s`, in lower-case hexadecimal.
pub open spec fn md5_hex(s: Seq<char>) -> Seq<char> {
    hex_lower(crate::encoding::md5_digest(vstd::utf8::encode_utf8(s)))
}

/// The hexadecimal MD5 digest of `data`.
pub fn md5_hex_of_bytes(data: &[u8]) -> (r: String)
    ensures
        r@ == hex_lower(crate::encoding::md5_digest(data@)),
{
    let digest = crate::encoding::md5_of(data);
    let mut v: Vec<char> = Vec::new();
    let mut i: usize = 0;
    assert(digest@.take(0) =~= Seq::<u8>::empty());
    while i < digest.len()
        invariant
            i <= digest@.len(),
            v@ == hex_lower(digest@.take(i as int)),
        decreases digest@.len() - i,
    {
        let b = digest[i];
        assert(digest@.take(i + 1).drop_last() =~= digest@.take(i as int));
        assert(digest@.take(i + 1).last() == b);
        v.push(hex_char(b / 16));
        v.push(hex_char(b % 16));
        assert(v@ =~= hex_lower(digest@.take(i as int)) + seq![hex_digit((b / 16) as nat), hex_digit((b % 16) as nat)]);
        i = i + 1;
    }
    assert(digest@.take(digest@.len() as int) =~= digest@);
    string_of(&v)
}

/// The 32-digit hexadecimal MD5 digest of `input` (`compute_md5`).
pub fn compute_md5(input: &str) -> (r: String)
    ensures
        r@ == md5_hex(input@),
{
    md5_hex_of_bytes(input.as_bytes())
}

// ---------------------------------------------------------------------------
// Small text helpers of the editor
// ---------------------------------------------------------------------------

/// The ticket of a verification job: the response text trimmed, unless
/// empty.
pub fn extract_ticket_from_text(text: &str) -> (r: Option<String>)
    ensures
        match r {
            Some(t) => trim(text@).len() > 0 && t@ == trim(text@),
            None => trim(text@).len() == 0,
        },
{
    let v = chars_of(text);
    let t = trim_chars(&v);
    if t.len() == 0 {
        None
    } else {
        Some(string_of(&t))
    }
}

/// Number of line numbers shown beside the text: its lines, at least one.
pub fn line_number_count(text: &str) -> (n: usize)
    ensures
        n == (if lines(text@).len() == 0 { 1 } else { lines(text@).len() }),
{
    let v = chars_of(text);
    let ls = lines_of(&v);
    if ls.len() == 0 {
        1
    } else {
        ls.len()
    }
}


// ---------------------------------------------------------------------------
// Tags around the cursor
// ---------------------------------------------------------------------------

/// Where an image tag `[img:ID]` (ID at least one character, no `]`)
/// starting at `p` closes: the index of its `]`.
pub open spec fn img_tag_close(c: Seq<char>, p: int) -> Option<int> {
    if occurs_at(c, "[img:"@, p) {
        match find_char(c.skip(p + 5), ']') {
            Some(k) => if k >= 1 {
                Some(p + 5 + k)
            } else {
                None
            },
            None => None,
        }
    } else {
        None
    }
}

/// The identifier of the first image tag, among those found scanning from
/// `p` (each scan resumes after the tag found), that holds byte offset `b`
/// strictly between its brackets' outer edges.
pub open spec fn img_tag_at(c: Seq<char>, p: int, b: int) -> Option<Seq<char>>
    decreases c.len() - p,
{
    if p < 0 || p >= c.len() {
        None
    } else {
        match img_tag_close(c, p) {
            Some(q) => if byte_len(c.take(p)) < b < byte_len(c.take(q + 1)) {
                Some(c.subrange(p + 5, q))
            } else if p < q + 1 <= c.len() {
                img_tag_at(c, q + 1, b)
            } else {
                None
            },
            None => img_tag_at(c, p + 1, b),
        }
    }
}

/// The identifier of the image tag that holds byte offset `b`.
fn img_tag_holding(c: &Vec<char>, b: usize) -> (r: Option<Vec<char>>)
    requires
        c@.len() <= usize::MAX / 8,
    ensures
        match r {
            Some(id) => img_tag_at(c@, 0, b as int) == Some(id@),
            None => img_tag_at(c@, 0, b as int) is None,
        },
{
    let open = chars_of("[img:");
    proof {
        reveal_strlit("[img:");
    }
    let mut p: usize = 0;
    while p < c.len()
        invariant
            p <= c@.len(),
            c@.len() <= usize::MAX / 8,
            open@ == "[img:"@,
            open@.len() == 5,
            img_tag_at(c@, 0, b as int) == img_tag_at(c@, p as int, b as int),
        decreases c@.len() - p,
    {
        if matches_at(c, &open, p) {
            let tail = sub_chars(c, p + 5, c.len());
            assert(tail@ =~= c@.skip(p + 5));
            match find_char_in(&tail, ']') {
                Some(k) => {
                    if k >= 1 {
                        proof {
                            crate::text::lemma_find_char_props(tail@, ']');
                            lemma_byte_len_bound(c@);
                        }
                        let q = p + 5 + k;
                        let bs = crate::styles::byte_len_of(c, 0, p);
                        let be = crate::styles::byte_len_of(c, 0, q + 1);
                        assert(c@.subrange(0, p as int) =~= c@.take(p as int));
                        assert(c@.subrange(0, q + 1) =~= c@.take(q + 1));
                        if bs < b && b < be {
                            return Some(sub_chars(c, p + 5, q));
                        }
                        p = q + 1;
                    } else {
                        p = p + 1;
                    }
                },
                None => {
                    p = p + 1;
                },
            }
        } else {
            p = p + 1;
        }
    }
    None
}

/// The identifier of the `[img:ID]` tag the cursor is inside, the cursor
/// given in UTF-16 units.
pub fn get_img_tag_id_at_cursor(text: &str, cursor_pos_utf16: usize) -> (r: Option<String>)
    requires
        text@.len() <= usize::MAX / 8,
    ensures
        match r {
            Some(id) => img_tag_at(text@, 0, byte_idx_of_utf16(text@, cursor_pos_utf16 as int))
                == Some(id@),
            None => img_tag_at(text@, 0, byte_idx_of_utf16(text@, cursor_pos_utf16 as int)) is None,
        },
{
    let b = utf16_to_byte_idx(text, cursor_pos_utf16);
    let c = chars_of(text);
    match img_tag_holding(&c, b) {
        Some(id) => Some(string_of(&id)),
        None => None,
    }
}

/// Index of the last occurrence of `p` in `s` (`str::rfind`).
pub open spec fn rfind_sub(s: Seq<char>, p: Seq<char>) -> Option<int>
    decreases s.len(),
{
    if s.len() < p.len() {
        None
    } else if occurs_at(s, p, s.len() - p.len()) {
        Some(s.len() - p.len())
    } else if s.len() == 0 {
        None
    } else {
        rfind_sub(s.drop_last(), p)
    }
}

/// The byte range of the `[ph:…]` tag around UTF-16 position `pos`: the
/// last `[ph:` that starts at or before the character at `pos`, up to the
/// first `]` after it, when that range holds the character at `pos`.
pub open spec fn ph_bounds(c: Seq<char>, pos: int) -> Option<(int, int)> {
    let m = chars_within_units(c, pos) as int;
    let lim = if m + 4 < c.len() { m + 4 } else { c.len() as int };
    match rfind_sub(c.take(lim), "[ph:"@) {
        None => None,
        Some(k) => match find_char(c.skip(k), ']') {
            None => None,
            Some(j) => if m <= k + j {
                Some((byte_len(c.take(k)) as int, byte_len(c.take(k + j + 1)) as int))
            } else {
                None
            },
        },
    }
}

fn rfind_in(v: &Vec<char>, m: usize, p: &Vec<char>) -> (r: Option<usize>)
    requires
        m <= v@.len(),
    ensures
        match r {
            Some(k) => rfind_sub(v@.take(m as int), p@) == Some(k as int) && k + p@.len() <= m,
            None => rfind_sub(v@.take(m as int), p@) is None,
        },
{
    let mut e = m;
    while e >= p.len()
        invariant
            e <= m <= v@.len(),
            rfind_sub(v@.take(e as int), p@) == rfind_sub(v@.take(m as int), p@),
        decreases e,
    {
        let k = e - p.len();
        let hit = matches_at(v, p, k);
        proof {
            let s = v@.take(e as int);
            assert(s.subrange(k as int, e as int) =~= v@.subrange(k as int, e as int));
        }
        if hit {
            return Some(k);
        }
        if e == 0 {
            return None;
        }
        proof {
            assert(v@.take(e as int).drop_last() =~= v@.take(e - 1));
        }
        e = e - 1;
    }
    None
}

/// The byte bounds of the `[ph:…]` tag around the cursor, given in UTF-16
/// units.
pub fn get_ph_bounds_at_cursor(text: &str, cursor_pos: usize) -> (r: Option<(usize, usize)>)
    requires
        text@.len() <= usize::MAX / 8,
    ensures
        match r {
            Some((a, b)) => ph_bounds(text@, cursor_pos as int) == Some((a as int, b as int)),
            None => ph_bounds(text@, cursor_pos as int) is None,
        },
{
    let c = chars_of(text);
    proof {
        lemma_byte_len_bound(c@);
    }
    let m = chars_in_units(&c, cursor_pos);
    let lim = if m + 4 < c.len() { m + 4 } else { c.len() };
    let tag = chars_of("[ph:");
    let k = match rfind_in(&c, lim, &tag) {
        Some(k) => k,
        None => return None,
    };
    let tail = sub_chars(&c, k, c.len());
    assert(tail@ =~= c@.skip(k as int));
    let j = match find_char_in(&tail, ']') {
        Some(j) => j,
        None => return None,
    };
    proof {
        crate::text::lemma_find_char_props(tail@, ']');
    }
    if m <= k + j {
        let start = crate::styles::byte_len_of(&c, 0, k);
        let end = crate::styles::byte_len_of(&c, 0, k + j + 1);
        assert(c@.subrange(0, k as int) =~= c@.take(k as int));
        assert(c@.subrange(0, k + j + 1) =~= c@.take(k + j + 1));
        Some((start, end))
    } else {
        None
    }
}

// ---------------------------------------------------------------------------
// Key presses in the editor
// ---------------------------------------------------------------------------

/// What a key press in the editor does.
#[derive(Debug)]
pub enum KeyCommand {
    /// Nothing special; the browser handles the key.
    Pass,
    /// The key is swallowed (inside a protected tag).
    Block,
    /// The placeholder tag is removed as a whole; the new text follows.
    DeletePlaceholder(String),
    /// Undo (Ctrl+Z).
    Undo,
    /// Redo (Ctrl+Y).
    Redo,
}

/// Whether `key` names an arrow key.
pub open spec fn is_arrow(key: Seq<char>) -> bool {
    key == "ArrowLeft"@ || key == "ArrowRight"@ || key == "ArrowUp"@ || key == "ArrowDown"@
}

pub(crate) fn same_text(a: &str, b: &str) -> (r: bool)
    ensures
        r == (a@ == b@),
{
    let x = chars_of(a);
    let y = chars_of(b);
    crate::text::chars_eq(&x, &y)
}

/// The command of a key press: inside a placeholder tag, Delete removes the
/// tag and any other key but an arrow is swallowed; inside an image tag,
/// any key but an arrow is swallowed; elsewhere Ctrl+Z and Ctrl+Y undo and
/// redo. The cursor is given in UTF-16 units.
pub fn key_command(text: &str, cursor_pos: usize, key: &str, ctrl: bool) -> (r: KeyCommand)
    requires
        text@.len() <= usize::MAX / 8,
    ensures
        match ph_bounds(text@, cursor_pos as int) {
            Some((a, b)) => if key@ == "Delete"@ {
                r matches KeyCommand::DeletePlaceholder(t) && char_at_byte(text@, a) matches Some(
                    ka,
                ) && char_at_byte(text@, b) matches Some(kb) && t@ == text@.take(ka) + text@.skip(kb)
            } else if !is_arrow(key@) {
                r is Block
            } else {
                img_tag_at(text@, 0, byte_idx_of_utf16(text@, cursor_pos as int)) is Some
                    ==> r is Pass
            },
            None => true,
        },
        ph_bounds(text@, cursor_pos as int) is None || is_arrow(key@) ==> (if img_tag_at(
            text@,
            0,
            byte_idx_of_utf16(text@, cursor_pos as int),
        ) is Some && !is_arrow(key@) {
            r is Block
        } else if ctrl && key@ == "z"@ {
            r is Undo
        } else if ctrl && key@ == "y"@ {
            r is Redo
        } else {
            r is Pass
        }),
{
    proof {
        reveal_strlit("ArrowLeft");
        reveal_strlit("ArrowRight");
        reveal_strlit("ArrowUp");
        reveal_strlit("ArrowDown");
        reveal_strlit("Delete");
        reveal_strlit("z");
        reveal_strlit("y");
        lemma_key_names();
    }
    let arrow = same_text(key, "ArrowLeft") || same_text(key, "ArrowRight") || same_text(
        key,
        "ArrowUp",
    ) || same_text(key, "ArrowDown");
    if let Some((start, end)) = get_ph_bounds_at_cursor(text, cursor_pos) {
        if same_text(key, "Delete") {
            let c = chars_of(text);
            proof {
                lemma_byte_len_bound(c@);
            }
            let ka = char_index_at_byte(&c, start);
            let kb = char_index_at_byte(&c, end);
            match (ka, kb) {
                (Some(ka), Some(kb)) => {
                    let mut t = sub_chars(&c, 0, ka);
                    let rest = sub_chars(&c, kb, c.len());
                    crate::text::extend_chars(&mut t, &rest);
                    assert(t@ =~= c@.take(ka as int) + c@.skip(kb as int));
                    return KeyCommand::DeletePlaceholder(string_of(&t));
                },
                _ => {
                    proof {
                        lemma_ph_bounds_boundaries(c@, cursor_pos as int);
                    }
                    return KeyCommand::Block;
                },
            }
        } else if !arrow {
            return KeyCommand::Block;
        }
    }
    if get_img_tag_id_at_cursor(text, cursor_pos).is_some() && !arrow {
        KeyCommand::Block
    } else if ctrl && same_text(key, "z") {
        KeyCommand::Undo
    } else if ctrl && same_text(key, "y") {
        KeyCommand::Redo
    } else {
        KeyCommand::Pass
    }
}

proof fn lemma_key_names()
    ensures
        !is_arrow("Delete"@),
        !is_arrow("z"@),
        !is_arrow("y"@),
{
    reveal_strlit("ArrowLeft");
    reveal_strlit("ArrowRight");
    reveal_strlit("ArrowUp");
    reveal_strlit("ArrowDown");
    reveal_strlit("Delete");
    reveal_strlit("z");
    reveal_strlit("y");
    assert("Delete"@.len() == 6);
    assert("z"@.len() == 1);
    assert("y"@.len() == 1);
    assert("ArrowLeft"@.len() == 9);
    assert("ArrowRight"@.len() == 10);
    assert("ArrowUp"@.len() == 7);
    assert("ArrowDown"@.len() == 9);
}

proof fn lemma_ph_bounds_boundaries(c: Seq<char>, pos: int)
    requires
        ph_bounds(c, pos) is Some,
    ensures
        char_at_byte(c, (ph_bounds(c, pos)->0).0) is Some,
        char_at_byte(c, (ph_bounds(c, pos)->0).1) is Some,
{
    let m = chars_within_units(c, pos) as int;
    lemma_chars_within_units_le(c, pos);
    let lim = if m + 4 < c.len() { m + 4 } else { c.len() as int };
    let k = rfind_sub(c.take(lim), "[ph:"@)->0;
    lemma_rfind_bound(c.take(lim), "[ph:"@);
    let j = find_char(c.skip(k), ']')->0;
    crate::text::lemma_find_char_props(c.skip(k), ']');
    lemma_char_at_byte_take(c, k);
    lemma_char_at_byte_take(c, k + j + 1);
}

proof fn lemma_rfind_bound(s: Seq<char>, p: Seq<char>)
    requires
        rfind_sub(s, p) is Some,
    ensures
        0 <= rfind_sub(s, p)->0 && rfind_sub(s, p)->0 + p.len() <= s.len(),
    decreases s.len(),
{
    if s.len() >= p.len() && !occurs_at(s, p, s.len() - p.len()) && s.len() > 0 {
        lemma_rfind_bound(s.drop_last(), p);
    }
}

pub proof fn lemma_char_at_byte_take(c: Seq<char>, m: int)
    requires
        0 <= m <= c.len(),
    ensures
        char_at_byte(c, byte_len(c.take(m)) as int) == Some(m),
    decreases m,
{
    if m > 0 {
        assert(c.take(m)[0] == c[0]);
        assert(c.take(m).drop_first() =~= c.drop_first().take(m - 1));
        lemma_char_at_byte_take(c.drop_first(), m - 1);
    }
}

} // verus!
