//! The layout of a template as a document: which paragraphs, list items,
//! images, placeholder values and vertical breaks its lines become. The
//! rendering of that layout into PDF is left to the caller.
use vstd::prelude::*;
use crate::encoding::{base64_decode, base64_decoding, opt_bytes, utf8_text};
use crate::styles::{
    byte_len, lemma_byte_len_bound, lemma_byte_len_take, line_styles, segs_view, parse_styles,
    TextSegment, TextStyle,
};
use crate::text::{
    chars_of, ends_with, ends_with_chars, extend_chars, find_sub, find_sub_from, lines, lines_of,
    split_char, split_chars, starts_with, starts_with_chars, string_of, sub_chars, trim,
    trim_chars,
};
use crate::csv_check::views;

verus! {

broadcast use vstd::string::group_string_axioms;

// ---------------------------------------------------------------------------
// <b> and <i> tags
// ---------------------------------------------------------------------------

/// The first tag of `s`: whether it is `<b>` (else `<i>`), and its
/// character position.
pub open spec fn next_tag(s: Seq<char>) -> Option<(bool, int)> {
    match (find_sub(s, "<b>"@), find_sub(s, "<i>"@)) {
        (Some(b), Some(i)) => if b < i {
            Some((true, b))
        } else {
            Some((false, i))
        },
        (Some(b), None) => Some((true, b)),
        (None, Some(i)) => Some((false, i)),
        (None, None) => None,
    }
}

proof fn lemma_byte_len_mono(s: Seq<char>, a: int, b: int)
    requires
        0 <= a < b <= s.len(),
    ensures
        byte_len(s.take(a)) < byte_len(s.take(b)),
    decreases b - a,
{
    lemma_byte_len_take(s, b - 1);
    if a < b - 1 {
        lemma_byte_len_mono(s, a, b - 1);
    }
}

fn lit_chars(s: &str) -> (v: Vec<char>)
    ensures
        v@ == s@,
{
    chars_of(s)
}

/// Finds the first `<b>` or `<i>` tag of `text`: its name (`"b"` or
/// `"i"`) and its byte offset.
pub fn find_next_tag(text: &str) -> (r: Option<(&'static str, usize)>)
    requires
        text@.len() <= usize::MAX / 8,
    ensures
        match next_tag(text@) {
            None => r is None,
            Some((bold, k)) => r matches Some((name, p)) && name@ == (if bold {
                "b"@
            } else {
                "i"@
            }) && p == byte_len(text@.take(k)),
        },
{
    let c = chars_of(text);
    let bt = lit_chars("<b>");
    let it = lit_chars("<i>");
    proof {
        reveal_strlit("<b>");
        reveal_strlit("<i>");
        assert(c@.skip(0) =~= c@);
    }
    let fb = find_sub_from(&c, &bt, 0);
    let fi = find_sub_from(&c, &it, 0);
    proof {
        lemma_byte_len_bound(c@);
    }
    match (fb, fi) {
        (Some(b), Some(i)) => {
            if b < i {
                let p = crate::styles::byte_len_of(&c, 0, b);
                assert(c@.subrange(0, b as int) =~= c@.take(b as int));
                Some(("b", p))
            } else {
                let p = crate::styles::byte_len_of(&c, 0, i);
                assert(c@.subrange(0, i as int) =~= c@.take(i as int));
                Some(("i", p))
            }
        },
        (Some(b), None) => {
            let p = crate::styles::byte_len_of(&c, 0, b);
            assert(c@.subrange(0, b as int) =~= c@.take(b as int));
            Some(("b", p))
        },
        (None, Some(i)) => {
            let p = crate::styles::byte_len_of(&c, 0, i);
            assert(c@.subrange(0, i as int) =~= c@.take(i as int));
            Some(("i", p))
        },
        (None, None) => None,
    }
}

/// The styled pieces of a text holding `<b>…</b>` and `<i>…</i>` tags: the
/// text before a tag is plain, the text between a tag and its closing tag
/// is bold or italic, and from an unclosed tag on everything is plain.
pub open spec fn tag_pieces(s: Seq<char>) -> Seq<(Seq<char>, TextStyle)>
    decreases s.len(),
{
    match next_tag(s) {
        None => if s.len() > 0 {
            seq![(s, TextStyle::Regular)]
        } else {
            seq![]
        },
        Some((bold, k)) => {
            let pre = if k > 0 {
                seq![(s.take(k), TextStyle::Regular)]
            } else {
                seq![]
            };
            let close = if bold {
                seq!['<', '/', 'b', '>']
            } else {
                seq!['<', '/', 'i', '>']
            };
            let style = if bold {
                TextStyle::Bold
            } else {
                TextStyle::Italic
            };
            match find_sub(s.skip(k + 3), close) {
                Some(e) => if 0 <= k && 0 <= e && k + 3 + e + 4 <= s.len() {
                    pre + seq![(s.subrange(k + 3, k + 3 + e), style)] + tag_pieces(
                        s.skip(k + 3 + e + 4),
                    )
                } else {
                    pre
                },
                None => pre + seq![(s.skip(k), TextStyle::Regular)],
            }
        },
    }
}

proof fn lemma_wrapped_in_tag(x: Seq<char>, bold: bool)
    requires
        forall|i: int| 0 <= i < x.len() ==> x[i] != '<',
    ensures
        tag_pieces(
            (if bold { seq!['<', 'b', '>'] } else { seq!['<', 'i', '>'] }) + x + (if bold {
                seq!['<', '/', 'b', '>']
            } else {
                seq!['<', '/', 'i', '>']
            }),
        ) == seq![(x, if bold { TextStyle::Bold } else { TextStyle::Italic })],
{
    reveal_strlit("<b>");
    reveal_strlit("<i>");
    let open = if bold { seq!['<', 'b', '>'] } else { seq!['<', 'i', '>'] };
    let close = if bold { seq!['<', '/', 'b', '>'] } else { seq!['<', '/', 'i', '>'] };
    let s = open + x + close;
    let n = x.len() as int;
    assert("<b>"@ =~= seq!['<', 'b', '>']);
    assert("<i>"@ =~= seq!['<', 'i', '>']);
    assert(s[0] == '<');
    assert(s[1] == open[1]);
    assert(s[n + 3] == '<');
    assert(s[n + 4] == '/');
    // where a tag of three characters can start
    assert forall|j: int| 0 < j < s.len() && j != n + 3 implies s[j] != '<' by {
        if j < 3 {
            assert(s[j] == open[j]);
        } else if j < n + 3 {
            assert(s[j] == x[j - 3]);
        } else {
            assert(s[j] == close[j - n - 3]);
        }
    }
    let other = if bold { "<i>"@ } else { "<b>"@ };
    crate::text::lemma_find_sub_props(s, other);
    crate::text::lemma_find_sub_props(s, open);
    if find_sub(s, other) is Some {
        let j = find_sub(s, other)->0;
        assert(s.subrange(j, j + 3)[0] == s[j]);
        assert(s.subrange(j, j + 3)[1] == s[j + 1]);
        assert(false);
    }
    assert(s.take(3) =~= open);
    assert(find_sub(s, open) == Some(0int));
    assert(next_tag(s) == Some((bold, 0int)));
    let t = s.skip(3);
    assert(t =~= x + close);
    crate::text::lemma_find_sub_props(t, close);
    assert(t.subrange(n, n + 4) =~= close);
    assert(crate::text::occurs_at(t, close, n));
    let e = find_sub(t, close)->0;
    assert(e == n) by {
        if e < n {
            assert(t.subrange(e, e + 4)[0] == t[e]);
            assert(t[e] == x[e]);
        }
    }
    assert(s.subrange(3, 3 + n) =~= x);
    assert(s.skip(n + 7) =~= Seq::<char>::empty());
    let z = Seq::<char>::empty();
    crate::text::lemma_find_sub_props(z, "<b>"@);
    crate::text::lemma_find_sub_props(z, "<i>"@);
    assert(tag_pieces(z) =~= Seq::<(Seq<char>, TextStyle)>::empty());
    assert(Seq::<(Seq<char>, TextStyle)>::empty() + seq![(x, if bold { TextStyle::Bold } else {
        TextStyle::Italic
    })] + Seq::<(Seq<char>, TextStyle)>::empty() =~= seq![(x, if bold { TextStyle::Bold } else {
        TextStyle::Italic
    })]);
}

/// Text between `<b>` and `</b>` is bold and text between `<i>` and `</i>`
/// is italic, when it holds no tag of its own.
pub proof fn law_tagged_text_is_styled(x: Seq<char>)
    requires
        forall|i: int| 0 <= i < x.len() ==> x[i] != '<',
    ensures
        tag_pieces(seq!['<', 'b', '>'] + x + seq!['<', '/', 'b', '>']) == seq![(x, TextStyle::Bold)],
        tag_pieces(seq!['<', 'i', '>'] + x + seq!['<', '/', 'i', '>']) == seq![(x, TextStyle::Italic)],
{
    lemma_wrapped_in_tag(x, true);
    lemma_wrapped_in_tag(x, false);
}

fn segment_of(v: &[char], from: usize, to: usize, style: TextStyle) -> (s: TextSegment)
    requires
        from <= to <= v@.len(),
    ensures
        s.text_view() == v@.subrange(from as int, to as int),
        s.style_view() == style,
{
    let t = sub_chars(v, from, to);
    TextSegment::new(string_of(&t), style)
}

enum TagStep {
    Last(Vec<TextSegment>),
    Continue(Vec<TextSegment>, usize),
}

fn tag_step(c: &Vec<char>, pos: usize, bt: &Vec<char>, it: &Vec<char>, bc: &Vec<char>, ic: &Vec<char>) -> (r: TagStep)
    requires
        pos <= c@.len(),
        bt@ == "<b>"@,
        it@ == "<i>"@,
        bt@.len() == 3,
        it@.len() == 3,
        bc@ == seq!['<', '/', 'b', '>'],
        ic@ == seq!['<', '/', 'i', '>'],
    ensures
        match r {
            TagStep::Last(v) => segs_view(v@) == tag_pieces(c@.skip(pos as int)),
            TagStep::Continue(v, np) => pos < np <= c@.len() && segs_view(v@) + tag_pieces(
                c@.skip(np as int),
            ) == tag_pieces(c@.skip(pos as int)),
        },
{
    let n = c.len();
    let ghost rest = c@.skip(pos as int);
    let fb = find_sub_from(c, bt, pos);
    let fi = find_sub_from(c, it, pos);
    let tag: Option<(bool, usize)> = match (fb, fi) {
        (Some(b), Some(i)) => if b < i {
            Some((true, b))
        } else {
            Some((false, i))
        },
        (Some(b), None) => Some((true, b)),
        (None, Some(i)) => Some((false, i)),
        (None, None) => None,
    };
    let mut out: Vec<TextSegment> = Vec::new();
    match tag {
        None => {
            if pos < c.len() {
                out.push(segment_of(c, pos, c.len(), TextStyle::Regular));
                assert(c@.subrange(pos as int, c@.len() as int) =~= rest);
                assert(segs_view(out@) =~= seq![(rest, TextStyle::Regular)]);
            } else {
                assert(segs_view(out@) =~= Seq::<(Seq<char>, TextStyle)>::empty());
            }
            TagStep::Last(out)
        },
        Some((bold, at)) => {
            let ghost k = at - pos;
            proof {
                assert(next_tag(rest) == Some((bold, k)));
                lemma_find_tag_pos(c@, pos as int, at as int);
                assert(rest.skip(k + 3) =~= c@.skip(at + 3));
            }
            if at > pos {
                out.push(segment_of(c, pos, at, TextStyle::Regular));
                assert(c@.subrange(pos as int, at as int) =~= rest.take(k));
            }
            let ghost pre = if k > 0 {
                seq![(rest.take(k), TextStyle::Regular)]
            } else {
                Seq::<(Seq<char>, TextStyle)>::empty()
            };
            assert(segs_view(out@) =~= pre);
            let style = if bold { TextStyle::Bold } else { TextStyle::Italic };
            let close: &Vec<char> = if bold { bc } else { ic };
            assert(close@.len() == 4);
            assert(at + 3 <= n);
            match find_sub_from(c, close, at + 3) {
                Some(e_abs) => {
                    let ghost e = e_abs - (at + 3);
                    out.push(segment_of(c, at + 3, e_abs, style));
                    proof {
                        assert(c@.subrange(at + 3, e_abs as int) =~= rest.subrange(k + 3, k + 3 + e));
                        assert(rest.skip(k + 3 + e + 4) =~= c@.skip(e_abs + 4));
                        let piece = (rest.subrange(k + 3, k + 3 + e), style);
                        assert(segs_view(out@) =~= pre + seq![piece]);
                        assert(tag_pieces(rest) == pre + seq![piece] + tag_pieces(
                            c@.skip(e_abs + 4),
                        ));
                    }
                    TagStep::Continue(out, e_abs + 4)
                },
                None => {
                    out.push(segment_of(c, at, c.len(), TextStyle::Regular));
                    proof {
                        assert(c@.subrange(at as int, c@.len() as int) =~= rest.skip(k));
                        assert(segs_view(out@) =~= pre + seq![(rest.skip(k), TextStyle::Regular)]);
                    }
                    TagStep::Last(out)
                },
            }
        },
    }
}

fn append_segments(out: &mut Vec<TextSegment>, more: Vec<TextSegment>)
    ensures
        segs_view(final(out)@) == segs_view(old(out)@) + segs_view(more@),
{
    let mut more = more;
    let mut rev: Vec<TextSegment> = Vec::new();
    let ghost orig = segs_view(more@);
    while more.len() > 0
        invariant
            orig == segs_view(more@) + segs_view(rev@).reverse(),
        decreases more@.len(),
    {
        let x = more.pop().unwrap();
        let ghost xv = crate::styles::seg_view(x);
        let ghost before_more = more@;
        rev.push(x);
        proof {
            assert(segs_view(rev@).reverse() =~= seq![xv] + segs_view(rev@.drop_last()).reverse());
        }
    }
    let ghost start = segs_view(out@);
    while rev.len() > 0
        invariant
            segs_view(out@) + segs_view(rev@).reverse() == start + orig,
        decreases rev@.len(),
    {
        let x = rev.pop().unwrap();
        out.push(x);
    }
}

/// Splits a placeholder value into plain, bold and italic pieces at its
/// `<b>` and `<i>` tags.
pub fn parse_styled_paragraph(text: &str) -> (r: Vec<TextSegment>)
    ensures
        segs_view(r@) == tag_pieces(text@),
{
    let c = chars_of(text);
    let bt = lit_chars("<b>");
    let it = lit_chars("<i>");
    let bc = lit_chars("</b>");
    let ic = lit_chars("</i>");
    proof {
        reveal_strlit("<b>");
        reveal_strlit("<i>");
        reveal_strlit("</b>");
        reveal_strlit("</i>");
        assert(bc@ =~= seq!['<', '/', 'b', '>']);
        assert(ic@ =~= seq!['<', '/', 'i', '>']);
        assert(c@.skip(0) =~= c@);
    }
    let mut out: Vec<TextSegment> = Vec::new();
    let mut pos: usize = 0;
    assert(segs_view(out@) + tag_pieces(c@) =~= tag_pieces(c@));
    loop
        invariant
            pos <= c@.len(),
            c@ == text@,
            bt@ == "<b>"@,
            it@ == "<i>"@,
            bt@.len() == 3,
            it@.len() == 3,
            bc@ == seq!['<', '/', 'b', '>'],
            ic@ == seq!['<', '/', 'i', '>'],
            segs_view(out@) + tag_pieces(c@.skip(pos as int)) == tag_pieces(c@),
        decreases c@.len() - pos,
    {
        match tag_step(&c, pos, &bt, &it, &bc, &ic) {
            TagStep::Last(v) => {
                let ghost before = segs_view(out@);
                append_segments(&mut out, v);
                return out;
            },
            TagStep::Continue(v, np) => {
                let ghost before = segs_view(out@);
                let ghost vv = segs_view(v@);
                append_segments(&mut out, v);
                assert(segs_view(out@) + tag_pieces(c@.skip(np as int)) =~= before + (vv
                    + tag_pieces(c@.skip(np as int))));
                pos = np;
            },
        }
    }
}

proof fn lemma_find_tag_pos(c: Seq<char>, pos: int, at: int)
    requires
        0 <= pos <= at,
        pos <= c.len(),
        find_sub(c.skip(pos), "<b>"@) == Some(at - pos) || find_sub(c.skip(pos), "<i>"@) == Some(
            at - pos,
        ),
        "<b>"@.len() == 3,
        "<i>"@.len() == 3,
    ensures
        at + 3 <= c.len(),
{
    let t = c.skip(pos);
    if find_sub(t, "<b>"@) == Some(at - pos) {
        crate::text::lemma_find_sub_props(t, "<b>"@);
    } else {
        crate::text::lemma_find_sub_props(t, "<i>"@);
    }
}


// ---------------------------------------------------------------------------
// Placeholder values
// ---------------------------------------------------------------------------

/// The text of a placeholder tag's inner part `ph:…:BASE64`: the part after
/// the last `:` decoded from Base64, when that gives valid UTF-8.
pub open spec fn placeholder_text(inner: Seq<char>) -> Option<Seq<char>> {
    let parts = split_char(inner, ':');
    match base64_decoding(parts.last()) {
        Some(b) => if vstd::utf8::valid_utf8(b) {
            Some(vstd::utf8::decode_utf8(b))
        } else {
            None
        },
        None => None,
    }
}

proof fn lemma_split_nonempty(s: Seq<char>, c: char)
    ensures
        split_char(s, c).len() >= 1,
    decreases s.len(),
{
    match crate::text::find_char(s, c) {
        Some(k) => if 0 <= k < s.len() {
            lemma_split_nonempty(s.skip(k + 1), c);
        },
        None => {},
    }
}

/// The last piece of `a`, a `:` and `b`, split at every `:`, is `b` when
/// `b` holds no `:`.
pub proof fn lemma_split_last_after_colon(a: Seq<char>, b: Seq<char>)
    requires
        forall|i: int| 0 <= i < b.len() ==> b[i] != ':',
    ensures
        split_char(a + seq![':'] + b, ':').last() == b,
    decreases a.len(),
{
    let s = a + seq![':'] + b;
    crate::text::lemma_find_char_props(s, ':');
    crate::text::lemma_find_char_props(b, ':');
    assert(s[a.len() as int] == ':');
    let k = crate::text::find_char(s, ':')->0;
    if k == a.len() {
        assert(s.skip(k + 1) =~= b);
        assert(split_char(b, ':') == seq![b]);
    } else {
        assert(k < a.len()) by {
            if k > a.len() {
                assert(s[a.len() as int] != ':');
            }
        }
        assert(s.skip(k + 1) =~= a.skip(k + 1) + seq![':'] + b);
        lemma_split_last_after_colon(a.skip(k + 1), b);
        lemma_split_nonempty(s.skip(k + 1), ':');
    }
}

/// The inner part of a placeholder tag, `TITLE:BASE64`, decodes back to the
/// value whose UTF-8 bytes the Base64 text encodes, whatever the title.
pub proof fn lemma_placeholder_round_trip(title: Seq<char>, b64: Seq<char>, value: Seq<char>)
    requires
        forall|i: int| 0 <= i < b64.len() ==> b64[i] != ':',
        base64_decoding(b64) == Some(vstd::utf8::encode_utf8(value)),
    ensures
        placeholder_text(title + seq![':'] + b64) == Some(value),
{
    lemma_split_last_after_colon(title, b64);
    vstd::utf8::encode_utf8_valid_utf8(value);
    vstd::utf8::encode_utf8_decode_utf8(value);
}

/// Decodes the Base64 value of a placeholder tag (`decode_placeholder`).
pub fn decode_placeholder(ph: &str) -> (r: Option<String>)
    ensures
        match r {
            Some(t) => placeholder_text(ph@) == Some(t@),
            None => placeholder_text(ph@) is None,
        },
{
    let c = chars_of(ph);
    let parts = split_chars(&c, ':');
    proof {
        lemma_split_nonempty(c@, ':');
    }
    let last = string_of(&parts[parts.len() - 1]);
    assert(last@ == split_char(ph@, ':').last());
    match base64_decode(last.as_str()) {
        Some(bytes) => utf8_text(bytes),
        None => None,
    }
}

// ---------------------------------------------------------------------------
// Document blocks
// ---------------------------------------------------------------------------

/// One element of a laid-out document.
#[derive(Debug)]
pub enum DocBlock {
    /// A vertical break of one line.
    Break,
    /// A paragraph of styled segments.
    Paragraph(Vec<TextSegment>),
    /// A bulleted list item of styled segments.
    ListItem(Vec<TextSegment>),
    /// The image with this identifier.
    Image(String),
}

/// The abstract content of a block.
pub enum BlockView {
    Break,
    Paragraph(Seq<(Seq<char>, TextStyle)>),
    ListItem(Seq<(Seq<char>, TextStyle)>),
    Image(Seq<char>),
}

/// The view of a block.
pub open spec fn block_view(b: DocBlock) -> BlockView {
    match b {
        DocBlock::Break => BlockView::Break,
        DocBlock::Paragraph(v) => BlockView::Paragraph(segs_view(v@)),
        DocBlock::ListItem(v) => BlockView::ListItem(segs_view(v@)),
        DocBlock::Image(id) => BlockView::Image(id@),
    }
}

/// The views of a sequence of blocks.
pub open spec fn blocks_view(v: Seq<DocBlock>) -> Seq<BlockView> {
    v.map_values(|b: DocBlock| block_view(b))
}

/// A paragraph of plain text.
pub open spec fn plain_paragraph(t: Seq<char>) -> BlockView {
    BlockView::Paragraph(seq![(t, TextStyle::Regular)])
}

/// The blocks of a placeholder value: one paragraph per line, separated by
/// breaks.
pub open spec fn value_blocks(lines: Seq<Seq<char>>) -> Seq<BlockView>
    decreases lines.len(),
{
    if lines.len() == 0 {
        seq![]
    } else if lines.len() == 1 {
        seq![BlockView::Paragraph(tag_pieces(lines[0]))]
    } else {
        seq![BlockView::Paragraph(tag_pieces(lines[0])), BlockView::Break] + value_blocks(
            lines.drop_first(),
        )
    }
}

/// The blocks of an image tag `[img:ID]`: the image when it is available,
/// else a notice.
pub open spec fn image_blocks(id: Seq<char>, ids: Seq<Seq<char>>) -> Seq<BlockView> {
    if ids.contains(id) {
        seq![BlockView::Image(id)]
    } else {
        seq![plain_paragraph("[image not found: "@ + id + "]"@)]
    }
}

/// The blocks one line of a template gives in a preview PDF.
pub open spec fn pdf_line_blocks(raw: Seq<char>, ids: Seq<Seq<char>>) -> Seq<BlockView> {
    let line = trim(raw);
    if line.len() == 0 {
        seq![BlockView::Break]
    } else if starts_with(line, "- "@) {
        seq![BlockView::ListItem(line_styles(line.skip(2)))]
    } else if starts_with(line, "[img:"@) && ends_with(line, "]"@) {
        image_blocks(line.subrange(5, line.len() - 1), ids)
    } else if starts_with(line, "[ph:"@) && ends_with(line, "]"@) {
        match placeholder_text(line.subrange(4, line.len() - 1)) {
            Some(t) => value_blocks(split_char(t, '\n')),
            None => seq![plain_paragraph("[invalid placeholder]"@)],
        }
    } else {
        seq![BlockView::Paragraph(line_styles(line))]
    }
}

/// The blocks one line of a template gives in a merged PDF (lines are not
/// trimmed, images are tested before list items, and placeholder tags are
/// plain text).
pub open spec fn merge_line_blocks(line: Seq<char>, ids: Seq<Seq<char>>) -> Seq<BlockView> {
    if starts_with(line, "[img:"@) && ends_with(line, "]"@) {
        image_blocks(line.subrange(5, line.len() - 1), ids)
    } else if starts_with(line, "- "@) {
        seq![BlockView::ListItem(line_styles(line.skip(2)))]
    } else {
        seq![BlockView::Paragraph(line_styles(line))]
    }
}

/// In a merged PDF a line that starts with `- ` is a list item of the rest
/// of the line, and such a line without surrounding white space is laid out
/// as in a preview PDF.
pub proof fn law_merged_list_item(line: Seq<char>, ids: Seq<Seq<char>>)
    requires
        starts_with(line, "- "@),
    ensures
        merge_line_blocks(line, ids) == seq![BlockView::ListItem(line_styles(line.skip(2)))],
        trim(line) == line ==> pdf_line_blocks(line, ids) == merge_line_blocks(line, ids),
{
    reveal_strlit("- ");
    reveal_strlit("[img:");
    assert(line.subrange(0, 2)[0] == line[0]);
    assert(!starts_with(line, "[img:"@)) by {
        if starts_with(line, "[img:"@) {
            assert(line.subrange(0, 5)[0] == line[0]);
        }
    }
}

/// The blocks of all lines in order.
pub open spec fn doc_blocks(ls: Seq<Seq<char>>, ids: Seq<Seq<char>>, merged: bool) -> Seq<BlockView>
    decreases ls.len(),
{
    if ls.len() == 0 {
        seq![]
    } else {
        let first = if merged {
            merge_line_blocks(ls[0], ids)
        } else {
            pdf_line_blocks(ls[0], ids)
        };
        first + doc_blocks(ls.drop_first(), ids, merged)
    }
}

fn plain_block(t: &str) -> (b: DocBlock)
    ensures
        block_view(b) == plain_paragraph(t@),
{
    let mut segs: Vec<TextSegment> = Vec::new();
    segs.push(TextSegment::new(t.to_string(), TextStyle::Regular));
    assert(segs_view(segs@) =~= seq![(t@, TextStyle::Regular)]);
    DocBlock::Paragraph(segs)
}

fn notice_block(prefix: &str, middle: &[char], suffix: &str) -> (b: DocBlock)
    ensures
        block_view(b) == plain_paragraph(prefix@ + middle@ + suffix@),
{
    let mut v = chars_of(prefix);
    extend_chars(&mut v, middle);
    let w = chars_of(suffix);
    extend_chars(&mut v, &w);
    let mut segs: Vec<TextSegment> = Vec::new();
    segs.push(TextSegment::new(string_of(&v), TextStyle::Regular));
    assert(segs_view(segs@) =~= seq![(v@, TextStyle::Regular)]);
    DocBlock::Paragraph(segs)
}

fn image_line_blocks(line: &[char], ids: &[String]) -> (r: Vec<DocBlock>)
    requires
        line@.len() >= 6,
    ensures
        blocks_view(r@) == image_blocks(line@.subrange(5, line@.len() - 1), views(ids@)),
{
    let id = sub_chars(line, 5, line.len() - 1);
    let id_s = string_of(&id);
    assert(id_s@ == id@);
    let mut found = false;
    let mut i: usize = 0;
    while i < ids.len()
        invariant
            i <= ids@.len(),
            id_s@ == id@,
            !found ==> forall|k: int| 0 <= k < i ==> ids@[k]@ != id@,
            found ==> views(ids@).contains(id@),
        decreases ids@.len() - i,
    {
        let same = ids[i] == id_s;
        assert(same == (ids@[i as int]@ == id_s@));
        if same {
            found = true;
            assert(views(ids@)[i as int] == id@);
        }
        i = i + 1;
    }
    let mut r: Vec<DocBlock> = Vec::new();
    if found {
        r.push(DocBlock::Image(id_s));
        assert(blocks_view(r@) =~= seq![BlockView::Image(id@)]);
    } else {
        proof {
            if views(ids@).contains(id@) {
                let k = choose|k: int| 0 <= k < views(ids@).len() && views(ids@)[k] == id@;
                assert(ids@[k]@ == id@);
            }
        }
        r.push(notice_block("[image not found: ", &id, "]"));
        assert(blocks_view(r@) =~= seq![plain_paragraph("[image not found: "@ + id@ + "]"@)]);
    }
    r
}

fn value_line_blocks(t: &str) -> (r: Vec<DocBlock>)
    ensures
        blocks_view(r@) == value_blocks(split_char(t@, '\n')),
{
    let c = chars_of(t);
    let ls = split_chars(&c, '\n');
    let ghost sl = split_char(t@, '\n');
    let mut r: Vec<DocBlock> = Vec::new();
    let mut i: usize = 0;
    assert(sl.skip(0) =~= sl);
    while i < ls.len()
        invariant
            i <= ls@.len(),
            ls@.len() == sl.len(),
            forall|k: int| 0 <= k < ls@.len() ==> #[trigger] ls@[k]@ == sl[k],
            blocks_view(r@) + value_blocks(sl.skip(i as int)) == value_blocks(sl),
        decreases ls@.len() - i,
    {
        let ghost before = blocks_view(r@);
        let ghost rest = sl.skip(i as int);
        let line = string_of(&ls[i]);
        let segs = parse_styled_paragraph(line.as_str());
        r.push(DocBlock::Paragraph(segs));
        if i + 1 < ls.len() {
            r.push(DocBlock::Break);
            proof {
                assert(rest.drop_first() =~= sl.skip(i + 1));
                assert(blocks_view(r@) =~= before + seq![
                    BlockView::Paragraph(tag_pieces(rest[0])),
                    BlockView::Break,
                ]);
                assert(value_blocks(rest) == seq![
                    BlockView::Paragraph(tag_pieces(rest[0])),
                    BlockView::Break,
                ] + value_blocks(rest.drop_first()));
            }
        } else {
            proof {
                assert(sl.skip(i + 1) =~= Seq::<Seq<char>>::empty());
                assert(blocks_view(r@) =~= before + seq![BlockView::Paragraph(tag_pieces(rest[0]))]);
            }
        }
        i = i + 1;
    }
    assert(sl.skip(i as int) =~= Seq::<Seq<char>>::empty());
    assert(blocks_view(r@) + Seq::<BlockView>::empty() =~= blocks_view(r@));
    r
}

fn styled_line_block(line: &[char], from: usize, list: bool) -> (b: DocBlock)
    requires
        from <= line@.len(),
        line@.len() <= usize::MAX / 8,
    ensures
        block_view(b) == (if list {
            BlockView::ListItem(line_styles(line@.skip(from as int)))
        } else {
            BlockView::Paragraph(line_styles(line@.skip(from as int)))
        }),
{
    let t = sub_chars(line, from, line.len());
    assert(t@ =~= line@.skip(from as int));
    let ts = string_of(&t);
    let segs = parse_styles(ts.as_str());
    if list {
        DocBlock::ListItem(segs)
    } else {
        DocBlock::Paragraph(segs)
    }
}

fn pdf_blocks_of_line(raw: &[char], ids: &[String]) -> (r: Vec<DocBlock>)
    requires
        raw@.len() <= usize::MAX / 8,
    ensures
        blocks_view(r@) == pdf_line_blocks(raw@, views(ids@)),
{
    let line = trim_chars(raw);
    proof {
        crate::text::lemma_lead_ws_bound(raw@);
    }
    let dash = lit_chars("- ");
    let img = lit_chars("[img:");
    let ph = lit_chars("[ph:");
    let close = lit_chars("]");
    proof {
        reveal_strlit("- ");
        reveal_strlit("[img:");
        reveal_strlit("[ph:");
        reveal_strlit("]");
    }
    let mut r: Vec<DocBlock> = Vec::new();
    if line.len() == 0 {
        r.push(DocBlock::Break);
        assert(blocks_view(r@) =~= seq![BlockView::Break]);
        return r;
    }
    if starts_with_chars(&line, &dash) {
        let b = styled_line_block(&line, 2, true);
        r.push(b);
        assert(blocks_view(r@) =~= seq![block_view(b)]);
        return r;
    }
    if starts_with_chars(&line, &img) && ends_with_chars(&line, &close) {
        assert(line@.len() >= 6) by {
            assert(line@.subrange(0, 5)[4] == line@[4]);
            assert(line@.subrange(line@.len() - 1, line@.len() as int)[0] == line@[line@.len() - 1]);
        }
        return image_line_blocks(&line, ids);
    }
    if starts_with_chars(&line, &ph) && ends_with_chars(&line, &close) {
        assert(line@.len() >= 5) by {
            assert(line@.subrange(0, 4)[3] == line@[3]);
            assert(line@.subrange(line@.len() - 1, line@.len() as int)[0] == line@[line@.len() - 1]);
        }
        let inner = sub_chars(&line, 4, line.len() - 1);
        let inner_s = string_of(&inner);
        match decode_placeholder(inner_s.as_str()) {
            Some(t) => return value_line_blocks(t.as_str()),
            None => {
                r.push(plain_block("[invalid placeholder]"));
                assert(blocks_view(r@) =~= seq![plain_paragraph("[invalid placeholder]"@)]);
                return r;
            },
        }
    }
    let b = styled_line_block(&line, 0, false);
    assert(line@.skip(0) =~= line@);
    r.push(b);
    assert(blocks_view(r@) =~= seq![block_view(b)]);
    r
}

fn merge_blocks_of_line(line: &[char], ids: &[String]) -> (r: Vec<DocBlock>)
    requires
        line@.len() <= usize::MAX / 8,
    ensures
        blocks_view(r@) == merge_line_blocks(line@, views(ids@)),
{
    let dash = lit_chars("- ");
    let img = lit_chars("[img:");
    let close = lit_chars("]");
    proof {
        reveal_strlit("- ");
        reveal_strlit("[img:");
        reveal_strlit("]");
    }
    if starts_with_chars(line, &img) && ends_with_chars(line, &close) {
        assert(line@.len() >= 6) by {
            assert(line@.subrange(0, 5)[4] == line@[4]);
            assert(line@.subrange(line@.len() - 1, line@.len() as int)[0] == line@[line@.len() - 1]);
        }
        return image_line_blocks(line, ids);
    }
    let list = starts_with_chars(line, &dash);
    let from: usize = if list { 2 } else { 0 };
    assert(line@.skip(0) =~= line@);
    let b = styled_line_block(line, from, list);
    let mut r: Vec<DocBlock> = Vec::new();
    r.push(b);
    assert(blocks_view(r@) =~= seq![block_view(b)]);
    r
}

fn append_blocks(out: &mut Vec<DocBlock>, more: Vec<DocBlock>)
    ensures
        blocks_view(final(out)@) == blocks_view(old(out)@) + blocks_view(more@),
{
    let mut more = more;
    let mut rev: Vec<DocBlock> = Vec::new();
    let ghost orig = blocks_view(more@);
    while more.len() > 0
        invariant
            orig == blocks_view(more@) + blocks_view(rev@).reverse(),
        decreases more@.len(),
    {
        let x = more.pop().unwrap();
        let ghost xv = block_view(x);
        rev.push(x);
        proof {
            assert(blocks_view(rev@).reverse() =~= seq![xv] + blocks_view(rev@.drop_last()).reverse());
        }
    }
    let ghost start = blocks_view(out@);
    while rev.len() > 0
        invariant
            blocks_view(out@) + blocks_view(rev@).reverse() == start + orig,
        decreases rev@.len(),
    {
        let x = rev.pop().unwrap();
        out.push(x);
    }
}

fn plan_lines(text: &str, ids: &[String], merged: bool) -> (r: Vec<DocBlock>)
    requires
        text@.len() <= usize::MAX / 8,
    ensures
        blocks_view(r@) == doc_blocks(lines(text@), views(ids@), merged),
{
    let c = chars_of(text);
    let ls = lines_of(&c);
    let ghost sl = lines(text@);
    let mut out: Vec<DocBlock> = Vec::new();
    let mut i: usize = 0;
    proof {
        assert(sl.skip(0) =~= sl);
        lemma_lines_short(c@);
    }
    while i < ls.len()
        invariant
            i <= ls@.len(),
            ls@.len() == sl.len(),
            c@ == text@,
            c@.len() <= usize::MAX / 8,
            sl == lines(c@),
            forall|k: int| 0 <= k < sl.len() ==> (#[trigger] sl[k]).len() <= c@.len(),
            forall|k: int| 0 <= k < ls@.len() ==> #[trigger] ls@[k]@ == sl[k],
            doc_blocks(sl, views(ids@), merged) == blocks_view(out@) + doc_blocks(
                sl.skip(i as int),
                views(ids@),
                merged,
            ),
        decreases ls@.len() - i,
    {
        let ghost rest = sl.skip(i as int);
        let ghost before = blocks_view(out@);
        assert(rest[0] == sl[i as int]);
        assert(rest.drop_first() =~= sl.skip(i + 1));
        let part = if merged {
            merge_blocks_of_line(&ls[i], ids)
        } else {
            pdf_blocks_of_line(&ls[i], ids)
        };
        let ghost vv = blocks_view(part@);
        append_blocks(&mut out, part);
        proof {
            let more = doc_blocks(sl.skip(i + 1), views(ids@), merged);
            assert(blocks_view(out@) + more =~= before + (vv + more));
        }
        i = i + 1;
    }
    assert(sl.skip(i as int) =~= Seq::<Seq<char>>::empty());
    assert(blocks_view(out@) + Seq::<BlockView>::empty() =~= blocks_view(out@));
    out
}

proof fn lemma_lines_short(s: Seq<char>)
    ensures
        forall|k: int| 0 <= k < lines(s).len() ==> (#[trigger] lines(s)[k]).len() <= s.len(),
    decreases s.len(),
{
    if s.len() > 0 {
        match crate::text::find_char(s, '\n') {
            Some(k) => if 0 <= k < s.len() {
                lemma_lines_short(s.skip(k + 1));
                let l = lines(s);
                assert forall|j: int| 0 <= j < l.len() implies (#[trigger] l[j]).len() <= s.len() by {
                    if j > 0 {
                        assert(l[j] == lines(s.skip(k + 1))[j - 1]);
                    }
                }
            },
            None => {},
        }
    }
}

/// Lays out a template for its preview PDF, line by line: an empty line is
/// a break, `- ` starts a list item, `[img:ID]` places an image (or a
/// notice when it is not available), `[ph:TITLE:BASE64]` places the decoded
/// value, and any other line is a styled paragraph.
pub fn plan_document(text: &str, image_ids: &[String]) -> (r: Vec<DocBlock>)
    requires
        text@.len() <= usize::MAX / 8,
    ensures
        blocks_view(r@) == doc_blocks(lines(text@), views(image_ids@), false),
{
    plan_lines(text, image_ids, false)
}

/// Lays out a template, its placeholders already substituted, for one
/// merged PDF: `[img:ID]` places an image, `- ` starts a list item, any
/// other line is a styled paragraph.
pub fn plan_merge_document(text: &str, image_ids: &[String]) -> (r: Vec<DocBlock>)
    requires
        text@.len() <= usize::MAX / 8,
    ensures
        blocks_view(r@) == doc_blocks(lines(text@), views(image_ids@), true),
{
    plan_lines(text, image_ids, true)
}

} // verus!
