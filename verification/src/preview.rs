//! The HTML preview of the editor's text: line endings are normalized,
//! runs of blank lines are kept as markers, placeholder tags are set aside
//! as tokens, the Markdown is rendered, and then markers, tokens and image
//! tags are turned into HTML.
use vstd::prelude::*;
use crate::cursor::escaped_html;
use crate::editor::{img_tag, StaticTextComponent};
use crate::encoding::{base64_decoding, json_string_value, markdown_html, regex_decimal};
use crate::model::{images_view, Image};
use crate::tags::{ph_match_at, ph_title};
use crate::text::{chars_of, decimal, lines, occurs_at, replace_all, string_of, sub_chars, trim};

verus! {

broadcast use vstd::string::group_string_axioms;

// ---------------------------------------------------------------------------
// Line endings and blank lines
// ---------------------------------------------------------------------------

/// A zero-width character that may lead a text (byte-order mark or
/// zero-width space).
pub open spec fn is_zero_width(c: char) -> bool {
    c == '\u{feff}' || c == '\u{200b}'
}

/// How many zero-width characters lead `s`.
pub open spec fn lead_zw(s: Seq<char>) -> nat
    decreases s.len(),
{
    if s.len() > 0 && is_zero_width(s[0]) {
        1 + lead_zw(s.drop_first())
    } else {
        0
    }
}

/// `s` with `\r\n` and then lone `\r` turned into `\n`, and its leading
/// zero-width characters removed (`normalize_text`).
pub open spec fn normalized(s: Seq<char>) -> Seq<char> {
    let t = replace_all(replace_all(s, "\r\n"@, "\n"@), "\r"@, "\n"@);
    t.skip(lead_zw(t) as int)
}

/// Normalizes line endings and drops leading zero-width characters.
pub fn normalize_text(input: &str) -> (r: String)
    ensures
        r@ == normalized(input@),
{
    proof {
        reveal_strlit("\r\n");
        reveal_strlit("\n");
        reveal_strlit("\r");
    }
    let c = chars_of(input);
    let c = crate::text::replace_chars(&c, &chars_of("\r\n"), &chars_of("\n"));
    let c = crate::text::replace_chars(&c, &chars_of("\r"), &chars_of("\n"));
    let mut i: usize = 0;
    assert(c@.skip(0) =~= c@);
    while i < c.len() && (c[i] == '\u{feff}' || c[i] == '\u{200b}')
        invariant
            i <= c@.len(),
            lead_zw(c@) == i + lead_zw(c@.skip(i as int)),
        decreases c@.len() - i,
    {
        assert(c@.skip(i as int).drop_first() =~= c@.skip(i + 1));
        i = i + 1;
    }
    assert(lead_zw(c@.skip(i as int)) == 0);
    let t = sub_chars(&c, i, c.len());
    assert(t@ =~= c@.skip(i as int));
    string_of(&t)
}

/// Whether a line holds only white space.
pub open spec fn is_blank(l: Seq<char>) -> bool {
    trim(l).len() == 0
}

/// The number of blank lines of `ls` from index `j` on, without a break.
pub open spec fn blank_run(ls: Seq<Seq<char>>, j: int) -> nat
    decreases ls.len() - j,
{
    if 0 <= j < ls.len() && is_blank(ls[j]) {
        1 + blank_run(ls, j + 1)
    } else {
        0
    }
}

/// The marker that stands for `n` blank lines.
pub open spec fn marker_line(n: nat) -> Seq<char> {
    "BR_MARKER"@ + decimal(n) + "\n"@
}

/// The lines of `ls` from `i` on, each followed by a newline; where more
/// than one blank line follows a line, a marker with their number comes
/// after it and the scan resumes at the last of them.
pub open spec fn compressed_from(ls: Seq<Seq<char>>, i: int) -> Seq<char>
    decreases ls.len() - i,
{
    if i < 0 || i >= ls.len() {
        Seq::<char>::empty()
    } else if blank_run(ls, i + 1) > 1 {
        proof {
            lemma_blank_run_bound(ls, i + 1);
        }
        ls[i] + "\n"@ + marker_line(blank_run(ls, i + 1)) + compressed_from(
            ls,
            i + blank_run(ls, i + 1),
        )
    } else {
        ls[i] + "\n"@ + compressed_from(ls, i + 1)
    }
}

/// `s` with its runs of blank lines compressed
/// (`compress_newlines_after_any_line`).
pub open spec fn compressed(s: Seq<char>) -> Seq<char> {
    compressed_from(lines(s), 0)
}

pub proof fn lemma_blank_run_bound(ls: Seq<Seq<char>>, j: int)
    requires
        0 <= j,
    ensures
        j + blank_run(ls, j) <= if j <= ls.len() { ls.len() as int } else { j },
        forall|k: int| j <= k < j + blank_run(ls, j) ==> is_blank(#[trigger] ls[k]),
        j + blank_run(ls, j) < ls.len() ==> !is_blank(ls[j + blank_run(ls, j)]),
    decreases ls.len() - j,
{
    if 0 <= j < ls.len() && is_blank(ls[j]) {
        lemma_blank_run_bound(ls, j + 1);
    }
}

fn line_is_blank(l: &Vec<char>) -> (r: bool)
    ensures
        r == is_blank(l@),
{
    crate::text::trim_chars(l).len() == 0
}

/// Keeps runs of blank lines as markers that the Markdown renderer leaves
/// alone.
pub fn compress_newlines_after_any_line(input: &str) -> (r: String)
    requires
        input@.len() <= usize::MAX / 8,
    ensures
        r@ == compressed(input@),
{
    proof {
        reveal_strlit("\n");
        reveal_strlit("BR_MARKER");
    }
    let c = chars_of(input);
    let ls = crate::text::lines_of(&c);
    let ghost sl = lines(input@);
    let mut out: Vec<char> = Vec::new();
    let mut i: usize = 0;
    while i < ls.len()
        invariant
            i <= ls@.len(),
            ls@.len() == sl.len(),
            sl == lines(input@),
            forall|k: int| 0 <= k < ls@.len() ==> #[trigger] ls@[k]@ == sl[k],
            out@ + compressed_from(sl, i as int) == compressed_from(sl, 0),
        decreases ls@.len() - i,
    {
        let ghost before = out@;
        proof {
            reveal_strlit("\n");
            reveal_strlit("BR_MARKER");
        }
        crate::text::extend_chars(&mut out, &ls[i]);
        out.push('\n');
        let mut j = i + 1;
        while j < ls.len() && line_is_blank(&ls[j])
            invariant
                i < j <= ls@.len(),
                ls@.len() == sl.len(),
                forall|k: int| 0 <= k < ls@.len() ==> #[trigger] ls@[k]@ == sl[k],
                blank_run(sl, i + 1) == (j - i - 1) + blank_run(sl, j as int),
            decreases ls@.len() - j,
        {
            j = j + 1;
        }
        let count = j - i - 1;
        assert(blank_run(sl, j as int) == 0);
        if count > 1 {
            let mut m = chars_of("BR_MARKER");
            assert(count as u64 == count);
            let d = crate::text::decimal_chars(count as u64);
            assert(d@ == decimal(count as nat));
            crate::text::extend_chars(&mut m, &d);
            assert(m@ == "BR_MARKER"@ + decimal(count as nat));
            m.push('\n');
            assert(m@ =~= marker_line(count as nat));
            crate::text::extend_chars(&mut out, &m);
            assert(out@ + compressed_from(sl, (i + count) as int) =~= before + (sl[i as int] + "\n"@
                + marker_line(count as nat) + compressed_from(sl, (i + count) as int)));
            i = i + count;
        } else {
            assert(out@ + compressed_from(sl, i + 1) =~= before + (sl[i as int] + "\n"@
                + compressed_from(sl, i + 1)));
            i = i + 1;
        }
    }
    assert(out@ + Seq::<char>::empty() =~= out@);
    string_of(&out)
}

/// `s` with a space before every newline (`preserve_single_newline_trick`),
/// so that the renderer keeps single line breaks.
pub open spec fn spaced(s: Seq<char>) -> Seq<char> {
    replace_all(s, "\n"@, " \n"@)
}

/// Puts a space before every newline.
pub fn preserve_single_newline_trick(input: &str) -> (r: String)
    ensures
        r@ == spaced(input@),
{
    let c = chars_of(input);
    proof {
        reveal_strlit("\n");
    }
    let out = crate::text::replace_chars(&c, &chars_of("\n"), &chars_of(" \n"));
    string_of(&out)
}

// ---------------------------------------------------------------------------
// Placeholder tags set aside as tokens
// ---------------------------------------------------------------------------

/// The HTML shown for a placeholder with title `title` and Base64 value
/// `b64`: the decoded text (unquoted when it is a JSON string), escaped,
/// in a span titled with the escaped title; a notice when the value is not
/// Base64 or not UTF-8.
pub open spec fn ph_html(title: Seq<char>, b64: Seq<char>) -> Seq<char> {
    match base64_decoding(b64) {
        Some(bytes) => if vstd::utf8::valid_utf8(bytes) {
            let decoded = vstd::utf8::decode_utf8(bytes);
            let shown = match json_string_value(decoded) {
                Some(t) => t,
                None => decoded,
            };
            "<span title=\""@ + escaped_html(title) + "\">"@ + escaped_html(shown) + "</span>"@
        } else {
            "<span>[invalid utf8]</span>"@
        },
        None => "<span>[invalid base64]</span>"@,
    }
}

/// The HTML of each placeholder tag of `s` from index `i` on, in order.
pub open spec fn ph_snippets(s: Seq<char>, i: int) -> Seq<Seq<char>>
    decreases s.len() - i,
{
    if i < 0 || i >= s.len() {
        Seq::<Seq<char>>::empty()
    } else {
        match ph_match_at(s, i) {
            Some((colon, close, e)) => if e > i {
                seq![ph_html(ph_title(s, i, colon), s.subrange(colon + 1, close))] + ph_snippets(
                    s,
                    e,
                )
            } else {
                Seq::<Seq<char>>::empty()
            },
            None => ph_snippets(s, i + 1),
        }
    }
}

/// `s` from index `i` on with its placeholder tags replaced, in order, by
/// the tokens `toks`.
pub open spec fn ph_tokenized(s: Seq<char>, i: int, toks: Seq<Seq<char>>) -> Seq<char>
    decreases s.len() - i,
{
    if i < 0 || i >= s.len() {
        Seq::<char>::empty()
    } else {
        match ph_match_at(s, i) {
            Some((colon, close, e)) => if e > i {
                toks[0] + ph_tokenized(s, e, toks.drop_first())
            } else {
                Seq::<char>::empty()
            },
            None => seq![s[i]] + ph_tokenized(s, i + 1, toks),
        }
    }
}

/// A token that stands for a placeholder: `PH` and a UUID in simple form.
pub open spec fn is_ph_token(t: Seq<char>) -> bool {
    t.len() == 34 && t[0] == 'P' && t[1] == 'H' && crate::encoding::is_simple_uuid(t.skip(2))
}

/// The tokens of a list of replacements.
pub open spec fn rep_tokens(v: Seq<(String, String)>) -> Seq<Seq<char>> {
    v.map_values(|p: (String, String)| p.0@)
}

/// The HTML snippets of a list of replacements.
pub open spec fn rep_snippets(v: Seq<(String, String)>) -> Seq<Seq<char>> {
    v.map_values(|p: (String, String)| p.1@)
}

fn ph_html_of(title: &Vec<char>, b64: &Vec<char>) -> (r: Vec<char>)
    ensures
        r@ == ph_html(title@, b64@),
{
    proof {
        reveal_strlit("<span title=\"");
        reveal_strlit("\">");
        reveal_strlit("</span>");
    }
    let b = string_of(b64);
    match crate::encoding::base64_decode(b.as_str()) {
        Some(bytes) => match crate::encoding::utf8_text(bytes) {
            Some(decoded) => {
                let shown = match crate::encoding::parse_json_string(decoded.as_str()) {
                    Some(t) => t,
                    None => decoded,
                };
                let t = string_of(title);
                let te = crate::cursor::escape_html(t.as_str());
                let se = crate::cursor::escape_html(shown.as_str());
                let mut r = chars_of("<span title=\"");
                crate::text::extend_chars(&mut r, &chars_of(te.as_str()));
                crate::text::extend_chars(&mut r, &chars_of("\">"));
                crate::text::extend_chars(&mut r, &chars_of(se.as_str()));
                crate::text::extend_chars(&mut r, &chars_of("</span>"));
                r
            },
            None => chars_of("<span>[invalid utf8]</span>"),
        },
        None => chars_of("<span>[invalid base64]</span>"),
    }
}

fn placeholder_snippets(c: &Vec<char>) -> (r: Vec<Vec<char>>)
    ensures
        r@.len() == ph_snippets(c@, 0).len(),
        forall|k: int| 0 <= k < r@.len() ==> #[trigger] r@[k]@ == ph_snippets(c@, 0)[k],
{
    let mut r: Vec<Vec<char>> = Vec::new();
    let mut i: usize = 0;
    let ghost whole = ph_snippets(c@, 0);
    while i < c.len()
        invariant
            i <= c@.len(),
            whole == ph_snippets(c@, 0),
            r@.len() + ph_snippets(c@, i as int).len() == whole.len(),
            forall|k: int| 0 <= k < r@.len() ==> #[trigger] r@[k]@ == whole[k],
            forall|k: int|
                0 <= k < ph_snippets(c@, i as int).len() ==> whole[r@.len() + k]
                    == #[trigger] ph_snippets(c@, i as int)[k],
        decreases c@.len() - i,
    {
        match crate::tags::ph_match_in(c, i) {
            Some((colon, close, e)) => {
                let title = sub_chars(c, i + 4, colon);
                let b64 = sub_chars(c, colon + 1, close);
                let h = ph_html_of(&title, &b64);
                let ghost rest = ph_snippets(c@, e as int);
                assert(ph_snippets(c@, i as int) == seq![h@] + rest);
                assert(whole[r@.len() as int] == h@) by {
                    assert(ph_snippets(c@, i as int)[0] == h@);
                }
                assert forall|k: int| 0 <= k < rest.len() implies whole[r@.len() + 1 + k]
                    == #[trigger] rest[k] by {
                    assert(ph_snippets(c@, i as int)[k + 1] == rest[k]);
                }
                r.push(h);
                i = e;
            },
            None => {
                i = i + 1;
            },
        }
    }
    r
}

/// Replaces each placeholder tag `[ph:TITLE:BASE64]` of `input` by a fresh
/// token, and gives the tokens with the HTML each stands for, in order
/// (`replace_ph_placeholders`). The tokens are random; what holds of any.
pub fn replace_ph_placeholders(input: &str) -> (r: (String, Vec<(String, String)>))
    ensures
        rep_snippets(r.1@) == ph_snippets(input@, 0),
        forall|k: int| 0 <= k < r.1@.len() ==> is_ph_token(#[trigger] rep_tokens(r.1@)[k]),
        r.0@ == ph_tokenized(input@, 0, rep_tokens(r.1@)),
{
    let c = chars_of(input);
    let snips = placeholder_snippets(&c);
    let mut reps: Vec<(String, String)> = Vec::new();
    let mut k: usize = 0;
    while k < snips.len()
        invariant
            k <= snips@.len(),
            reps@.len() == k,
            forall|j: int| 0 <= j < k ==> #[trigger] rep_snippets(reps@)[j] == snips@[j]@,
            forall|j: int| 0 <= j < k ==> is_ph_token(#[trigger] rep_tokens(reps@)[j]),
        decreases snips@.len() - k,
    {
        let id = crate::encoding::new_simple_uuid();
        let mut t = vec!['P', 'H'];
        crate::text::extend_chars(&mut t, &chars_of(id.as_str()));
        assert(t@.skip(2) =~= id@);
        let tok = string_of(&t);
        let ghost before = reps@;
        reps.push((tok, string_of(&snips[k])));
        assert(rep_snippets(reps@) =~= rep_snippets(before).push(snips@[k as int]@));
        assert(rep_tokens(reps@) =~= rep_tokens(before).push(t@));
        k = k + 1;
    }
    assert(rep_snippets(reps@) =~= ph_snippets(c@, 0));
    let ghost toks = rep_tokens(reps@);
    let mut out: Vec<char> = Vec::new();
    let mut i: usize = 0;
    let mut used: usize = 0;
    let nreps = reps.len();
    assert(toks.skip(0) =~= toks);
    while i < c.len()
        invariant
            i <= c@.len(),
            toks == rep_tokens(reps@),
            toks.len() == reps@.len(),
            nreps == reps@.len(),
            used + ph_snippets(c@, i as int).len() == toks.len(),
            out@ + ph_tokenized(c@, i as int, toks.skip(used as int)) == ph_tokenized(c@, 0, toks),
        decreases c@.len() - i,
    {
        match crate::tags::ph_match_in(&c, i) {
            Some((colon, close, e)) => {
                assert(ph_snippets(c@, i as int).len() == 1 + ph_snippets(c@, e as int).len());
                let ghost o = out@;
                crate::text::extend_chars(&mut out, &chars_of(reps[used].0.as_str()));
                assert(toks.skip(used as int)[0] == toks[used as int]);
                assert(toks.skip(used as int).drop_first() =~= toks.skip(used + 1));
                assert(out@ + ph_tokenized(c@, e as int, toks.skip(used + 1)) =~= o + (toks[used as int]
                    + ph_tokenized(c@, e as int, toks.skip(used + 1))));
                used = used + 1;
                i = e;
            },
            None => {
                assert(out@.push(c@[i as int]) + ph_tokenized(c@, i + 1, toks.skip(used as int))
                    =~= out@ + (seq![c@[i as int]] + ph_tokenized(c@, i + 1, toks.skip(used as int))));
                out.push(c[i]);
                i = i + 1;
            },
        }
    }
    assert(out@ + Seq::<char>::empty() =~= out@);
    (string_of(&out), reps)
}

// ---------------------------------------------------------------------------
// Blank-line markers back to line breaks
// ---------------------------------------------------------------------------

/// How many characters of the class `\d` follow index `i` of `s` without
/// a break.
pub open spec fn digit_run(s: Seq<char>, i: int) -> nat
    decreases s.len() - i,
{
    if 0 <= i < s.len() && regex_decimal(s[i]) {
        1 + digit_run(s, i + 1)
    } else {
        0
    }
}

pub proof fn lemma_digit_run_bound(s: Seq<char>, i: int)
    requires
        0 <= i,
    ensures
        i + digit_run(s, i) <= if i <= s.len() { s.len() as int } else { i },
        forall|k: int| i <= k < i + digit_run(s, i) ==> regex_decimal(#[trigger] s[k]),
        i + digit_run(s, i) < s.len() ==> !regex_decimal(s[i + digit_run(s, i)]),
    decreases s.len() - i,
{
    if 0 <= i < s.len() && regex_decimal(s[i]) {
        lemma_digit_run_bound(s, i + 1);
    }
}

/// Whether every character of `d` is an ASCII digit.
pub open spec fn ascii_digits(d: Seq<char>) -> bool {
    forall|k: int| 0 <= k < d.len() ==> '0' <= #[trigger] d[k] <= '9'
}

/// The decimal value of a run of ASCII digits.
pub open spec fn digits_value(d: Seq<char>) -> nat
    decreases d.len(),
{
    if d.len() == 0 {
        0
    } else {
        digits_value(d.drop_last()) * 10 + ((d.last() as nat) - 48) as nat
    }
}

/// The number of line breaks a marker's digits stand for: their value
/// when `str::parse::<usize>` accepts them, else one.
pub open spec fn marker_count(d: Seq<char>) -> nat {
    if d.len() > 0 && ascii_digits(d) && digits_value(d) <= usize::MAX {
        digits_value(d)
    } else {
        1
    }
}

/// `n` line-break tags.
pub open spec fn brs(n: nat) -> Seq<char>
    decreases n,
{
    if n == 0 {
        Seq::<char>::empty()
    } else {
        "<br>"@ + brs((n - 1) as nat)
    }
}

/// Whether a marker (`BR_MARKER` and at least one digit) starts at `i`.
pub open spec fn marker_at(s: Seq<char>, i: int) -> bool {
    occurs_at(s, "BR_MARKER"@, i) && digit_run(s, i + 9) >= 1
}

/// The digits of the marker at `i`.
pub open spec fn marker_digits(s: Seq<char>, i: int) -> Seq<char> {
    s.subrange(i + 9, i + 9 + digit_run(s, i + 9))
}

/// `s` from `i` on with each marker, found left to right, replaced by its
/// line breaks (`expand_br_markers`).
pub open spec fn br_expanded_from(s: Seq<char>, i: int) -> Seq<char>
    decreases s.len() - i,
{
    if i < 0 || i >= s.len() {
        Seq::<char>::empty()
    } else if marker_at(s, i) {
        proof {
            lemma_digit_run_bound(s, i + 9);
        }
        brs(marker_count(marker_digits(s, i))) + br_expanded_from(s, i + 9 + digit_run(s, i + 9))
    } else {
        seq![s[i]] + br_expanded_from(s, i + 1)
    }
}

/// Whether every marker of `s` from `i` on asks for no more line breaks
/// than a string can hold (`str::repeat` fails beyond that).
pub open spec fn markers_fit_from(s: Seq<char>, i: int) -> bool
    decreases s.len() - i,
{
    if i < 0 || i >= s.len() {
        true
    } else if marker_at(s, i) {
        proof {
            lemma_digit_run_bound(s, i + 9);
        }
        4 * marker_count(marker_digits(s, i)) <= isize::MAX && markers_fit_from(
            s,
            i + 9 + digit_run(s, i + 9),
        )
    } else {
        markers_fit_from(s, i + 1)
    }
}

fn digit_run_len(v: &Vec<char>, i: usize) -> (n: usize)
    requires
        i <= v@.len(),
    ensures
        n == digit_run(v@, i as int),
        i + n <= v@.len(),
{
    proof {
        lemma_digit_run_bound(v@, i as int);
    }
    let mut j = i;
    while j < v.len() && crate::encoding::is_regex_decimal(v[j])
        invariant
            i <= j <= v@.len(),
            digit_run(v@, i as int) == (j - i) + digit_run(v@, j as int),
        decreases v@.len() - j,
    {
        j = j + 1;
    }
    j - i
}

fn parse_marker_count(d: &Vec<char>) -> (n: Option<usize>)
    requires
        d@.len() > 0,
    ensures
        match n {
            Some(n) => ascii_digits(d@) && digits_value(d@) <= usize::MAX && n == digits_value(d@),
            None => !(ascii_digits(d@) && digits_value(d@) <= usize::MAX),
        },
{
    let mut v: usize = 0;
    let mut k: usize = 0;
    assert(d@.take(0) =~= Seq::<char>::empty());
    while k < d.len()
        invariant
            k <= d@.len(),
            ascii_digits(d@.take(k as int)),
            v == digits_value(d@.take(k as int)),
        decreases d@.len() - k,
    {
        let ch = d[k];
        assert(d@.take(k + 1).drop_last() =~= d@.take(k as int));
        if !('0' <= ch && ch <= '9') {
            assert(!ascii_digits(d@)) by {
                assert(d@[k as int] == ch);
            }
            return None;
        }
        let digit = (ch as u32 - 48) as usize;
        if v > (usize::MAX - digit) / 10 {
            proof {
                if ascii_digits(d@) {
                    lemma_digits_value_prefix(d@, k + 1);
                    assert(d@.take(k + 1).last() == ch);
                    assert(digits_value(d@.take(k + 1)) == v * 10 + digit);
                }
            }
            return None;
        }
        v = v * 10 + digit;
        k = k + 1;
    }
    assert(d@.take(d@.len() as int) =~= d@);
    Some(v)
}

proof fn lemma_digits_value_prefix(d: Seq<char>, k: int)
    requires
        0 <= k <= d.len(),
        ascii_digits(d),
    ensures
        digits_value(d.take(k)) <= digits_value(d),
    decreases d.len(),
{
    if k < d.len() {
        assert(d.drop_last().take(k) =~= d.take(k));
        lemma_digits_value_prefix(d.drop_last(), k);
        assert(ascii_digits(d.drop_last()));
    } else {
        assert(d.take(k) =~= d);
    }
}

/// Whether the markers of `v` all fit.
fn markers_fit(v: &Vec<char>) -> (r: bool)
    ensures
        r == markers_fit_from(v@, 0),
{
    proof {
        reveal_strlit("BR_MARKER");
    }
    let tag = chars_of("BR_MARKER");
    let mut i: usize = 0;
    while i < v.len()
        invariant
            i <= v@.len(),
            tag@ == "BR_MARKER"@,
            markers_fit_from(v@, 0) == markers_fit_from(v@, i as int),
        decreases v@.len() - i,
    {
        proof {
            reveal_strlit("BR_MARKER");
        }
        if crate::text::matches_at(v, &tag, i) {
            let run = digit_run_len(v, i + 9);
            if run >= 1 {
                let d = sub_chars(v, i + 9, i + 9 + run);
                let n: usize = match parse_marker_count(&d) {
                    Some(n) => n,
                    None => 1,
                };
                if n > (isize::MAX as usize) / 4 {
                    return false;
                }
                i = i + 9 + run;
                continue;
            }
        }
        i = i + 1;
    }
    true
}

/// Replaces each `BR_MARKER` and the digits after it by that many `<br>`
/// tags (one when the digits are not a number `usize` holds).
pub fn expand_br_markers(html: &str) -> (r: String)
    requires
        markers_fit_from(html@, 0),
    ensures
        r@ == br_expanded_from(html@, 0),
{
    proof {
        reveal_strlit("BR_MARKER");
        reveal_strlit("<br>");
    }
    let v = chars_of(html);
    let tag = chars_of("BR_MARKER");
    let br = chars_of("<br>");
    let mut out: Vec<char> = Vec::new();
    let mut i: usize = 0;
    while i < v.len()
        invariant
            i <= v@.len(),
            tag@ == "BR_MARKER"@,
            br@ == "<br>"@,
            markers_fit_from(v@, i as int),
            out@ + br_expanded_from(v@, i as int) == br_expanded_from(v@, 0),
        decreases v@.len() - i,
    {
        proof {
            reveal_strlit("BR_MARKER");
        }
        if crate::text::matches_at(&v, &tag, i) {
            let run = digit_run_len(&v, i + 9);
            if run >= 1 {
                let d = sub_chars(&v, i + 9, i + 9 + run);
                let n: usize = match parse_marker_count(&d) {
                    Some(n) => n,
                    None => 1,
                };
                let ghost o = out@;
                let mut m: usize = 0;
                while m < n
                    invariant
                        m <= n,
                        br@ == "<br>"@,
                        out@ + brs((n - m) as nat) == o + brs(n as nat),
                    decreases n - m,
                {
                    let ghost o2 = out@;
                    crate::text::extend_chars(&mut out, &br);
                    assert(brs((n - m) as nat) == "<br>"@ + brs((n - m - 1) as nat));
                    assert(out@ + brs((n - m - 1) as nat) =~= o2 + brs((n - m) as nat));
                    m = m + 1;
                }
                i = i + 9 + run;
                continue;
            }
        }
        assert(out@.push(v@[i as int]) + br_expanded_from(v@, i + 1) =~= out@ + (seq![v@[i as int]]
            + br_expanded_from(v@, i + 1)));
        out.push(v[i]);
        i = i + 1;
    }
    assert(out@ + Seq::<char>::empty() =~= out@);
    string_of(&out)
}

// ---------------------------------------------------------------------------
// Tokens and image tags back to HTML
// ---------------------------------------------------------------------------

/// `h` after replacing, pair by pair in order, every occurrence of each
/// pair's first text by its second.
pub open spec fn replaced_all(h: Seq<char>, reps: Seq<(Seq<char>, Seq<char>)>) -> Seq<char>
    decreases reps.len(),
{
    if reps.len() == 0 {
        h
    } else {
        replaced_all(replace_all(h, reps[0].0, reps[0].1), reps.drop_first())
    }
}

/// The pairs of a list of replacements, as values.
pub open spec fn rep_pairs(v: Seq<(String, String)>) -> Seq<(Seq<char>, Seq<char>)> {
    v.map_values(|p: (String, String)| (p.0@, p.1@))
}

/// Puts back the HTML of each token (`replace_tokens_with_html`).
pub fn replace_tokens_with_html(html: String, replacements: &Vec<(String, String)>) -> (r: String)
    requires
        forall|k: int| 0 <= k < replacements@.len() ==> (#[trigger] replacements@[k]).0@.len() > 0,
    ensures
        r@ == replaced_all(html@, rep_pairs(replacements@)),
{
    let ghost reps = rep_pairs(replacements@);
    let mut cur = chars_of(html.as_str());
    let mut k: usize = 0;
    assert(reps.skip(0) =~= reps);
    while k < replacements.len()
        invariant
            k <= replacements@.len(),
            reps == rep_pairs(replacements@),
            forall|j: int| 0 <= j < replacements@.len() ==> (#[trigger] replacements@[j]).0@.len() > 0,
            replaced_all(cur@, reps.skip(k as int)) == replaced_all(html@, reps),
        decreases replacements@.len() - k,
    {
        let tok = chars_of(replacements[k].0.as_str());
        let snip = chars_of(replacements[k].1.as_str());
        assert(reps.skip(k as int)[0] == (tok@, snip@));
        assert(reps.skip(k as int).drop_first() =~= reps.skip(k + 1));
        cur = crate::text::replace_chars(&cur, &tok, &snip);
        k = k + 1;
    }
    assert(reps.skip(k as int) =~= Seq::<(Seq<char>, Seq<char>)>::empty());
    string_of(&cur)
}

/// The HTML element that shows an image from its Base64 data.
pub open spec fn img_html(b64: Seq<char>) -> Seq<char> {
    "<img src=\"data:image/*;base64,"@ + b64
        + "\" style=\"max-width:200px;max-height:200px;vertical-align:middle;\" />"@
}

/// The replacements that turn each image's tag into its element.
pub open spec fn image_reps(s: Seq<(Seq<char>, Seq<char>)>) -> Seq<(Seq<char>, Seq<char>)> {
    s.map_values(|p: (Seq<char>, Seq<char>)| (img_tag(p.0), img_html(p.1)))
}

/// `html` with the tag of each image of the template replaced by the image
/// itself.
pub open spec fn with_images(html: Seq<char>, images: Option<Seq<(Seq<char>, Seq<char>)>>) -> Seq<
    char,
> {
    match images {
        Some(s) => replaced_all(html, image_reps(s)),
        None => html,
    }
}

fn resolve_inline_images(html: String, images: &Option<Vec<Image>>) -> (r: String)
    ensures
        r@ == with_images(html@, crate::model::opt_images_view(*images)),
{
    match images {
        None => html,
        Some(v) => {
            let ghost reps = image_reps(images_view(v@));
            let mut cur = chars_of(html.as_str());
            let mut k: usize = 0;
            assert(reps.skip(0) =~= reps);
            while k < v.len()
                invariant
                    k <= v@.len(),
                    reps == image_reps(images_view(v@)),
                    replaced_all(cur@, reps.skip(k as int)) == replaced_all(html@, reps),
                decreases v@.len() - k,
            {
                proof {
                    reveal_strlit("<img src=\"data:image/*;base64,");
                    reveal_strlit("\" style=\"max-width:200px;max-height:200px;vertical-align:middle;\" />");
                }
                let tag = crate::editor::img_tag_chars(v[k].id.as_str());
                let mut el = chars_of("<img src=\"data:image/*;base64,");
                crate::text::extend_chars(&mut el, &chars_of(v[k].base64.as_str()));
                crate::text::extend_chars(
                    &mut el,
                    &chars_of("\" style=\"max-width:200px;max-height:200px;vertical-align:middle;\" />"),
                );
                assert(el@ =~= img_html(v@[k as int].base64@));
                assert(reps.skip(k as int)[0] == (tag@, el@));
                assert(reps.skip(k as int).drop_first() =~= reps.skip(k + 1));
                cur = crate::text::replace_chars(&cur, &tag, &el);
                k = k + 1;
            }
            assert(reps.skip(k as int) =~= Seq::<(Seq<char>, Seq<char>)>::empty());
            string_of(&cur)
        },
    }
}

// ---------------------------------------------------------------------------
// The whole preview
// ---------------------------------------------------------------------------

/// The text handed to the Markdown renderer before its placeholder tags
/// are set aside: normalized, blank runs compressed, newlines spaced.
pub open spec fn preview_source(text: Seq<char>) -> Seq<char> {
    spaced(compressed(normalized(text)))
}

/// The tokens paired with the HTML of the placeholders of `src`.
pub open spec fn token_pairs(toks: Seq<Seq<char>>, src: Seq<char>) -> Seq<(Seq<char>, Seq<char>)> {
    Seq::new(toks.len(), |k: int| (toks[k], ph_snippets(src, 0)[k]))
}

/// The Markdown rendering of the text with its placeholders as `toks`.
pub open spec fn preview_markdown(text: Seq<char>, toks: Seq<Seq<char>>) -> Seq<char> {
    markdown_html(ph_tokenized(preview_source(text), 0, toks))
}

/// The preview of `text` with placeholder tokens `toks` and the template's
/// images: `None` when a marker in the rendered Markdown asks for more line
/// breaks than a string can hold.
pub open spec fn preview_result(
    text: Seq<char>,
    toks: Seq<Seq<char>>,
    images: Option<Seq<(Seq<char>, Seq<char>)>>,
) -> Option<Seq<char>> {
    let md = preview_markdown(text, toks);
    if markers_fit_from(md, 0) {
        Some(
            with_images(
                replaced_all(br_expanded_from(md, 0), token_pairs(toks, preview_source(text))),
                images,
            ),
        )
    } else {
        None
    }
}

/// The images of the editor's template, as values.
pub open spec fn editor_images(e: StaticTextComponent) -> Option<Seq<(Seq<char>, Seq<char>)>> {
    match e.template {
        Some(t) => crate::model::opt_images_view(t.images),
        None => None,
    }
}

proof fn lemma_replace_not_longer(s: Seq<char>, p: Seq<char>, r: Seq<char>)
    requires
        p.len() > 0,
        r.len() <= p.len(),
    ensures
        replace_all(s, p, r).len() <= s.len(),
    decreases s.len(),
{
    if s.len() > 0 {
        if occurs_at(s, p, 0) {
            lemma_replace_not_longer(s.skip(p.len() as int), p, r);
        } else {
            lemma_replace_not_longer(s.drop_first(), p, r);
        }
    }
}

/// Whether `r` is the preview of `text` for placeholder tokens `toks`,
/// one well-formed token per placeholder.
pub open spec fn preview_for_tokens(
    text: Seq<char>,
    images: Option<Seq<(Seq<char>, Seq<char>)>>,
    toks: Seq<Seq<char>>,
    r: Option<Seq<char>>,
) -> bool {
    &&& toks.len() == ph_snippets(preview_source(text), 0).len()
    &&& forall|k: int| 0 <= k < toks.len() ==> is_ph_token(#[trigger] toks[k])
    &&& r == preview_result(text, toks, images)
}

proof fn lemma_lead_zw_bound(s: Seq<char>)
    ensures
        lead_zw(s) <= s.len(),
    decreases s.len(),
{
    if s.len() > 0 {
        lemma_lead_zw_bound(s.drop_first());
    }
}

/// The HTML preview of the editor's text (`compute_preview_html`): the
/// placeholders get random tokens on the way, and the result is the
/// preview for those tokens, whichever they are.
pub fn compute_preview_html(component: &StaticTextComponent) -> (r: Option<String>)
    requires
        component.text@.len() <= usize::MAX / 8,
    ensures
        exists|toks: Seq<Seq<char>>|
            #[trigger] preview_for_tokens(
                component.text@,
                editor_images(*component),
                toks,
                crate::model::opt_view(r),
            ),
{
    proof {
        reveal_strlit("\r\n");
        reveal_strlit("\n");
        reveal_strlit("\r");
        let t1 = replace_all(component.text@, "\r\n"@, "\n"@);
        lemma_replace_not_longer(component.text@, "\r\n"@, "\n"@);
        lemma_replace_not_longer(t1, "\r"@, "\n"@);
        lemma_lead_zw_bound(replace_all(t1, "\r"@, "\n"@));
    }
    let text = normalize_text(component.text.as_str());
    let text = compress_newlines_after_any_line(text.as_str());
    let text = preserve_single_newline_trick(text.as_str());
    let ghost src = text@;
    let (tokenized, replacements) = replace_ph_placeholders(text.as_str());
    let ghost toks = rep_tokens(replacements@);
    assert(rep_pairs(replacements@) =~= token_pairs(toks, src));
    let parsed = crate::encoding::markdown_to_html(tokenized.as_str());
    let pv = chars_of(parsed.as_str());
    if !markers_fit(&pv) {
        assert(preview_for_tokens(component.text@, editor_images(*component), toks, None));
        return None;
    }
    let expanded = expand_br_markers(parsed.as_str());
    assert forall|k: int| 0 <= k < replacements@.len() implies (#[trigger] replacements@[k]).0@.len()
        > 0 by {
        assert(is_ph_token(rep_tokens(replacements@)[k]));
    }
    let replaced = replace_tokens_with_html(expanded, &replacements);
    let images = match &component.template {
        Some(t) => match &t.images {
            Some(v) => Some(crate::model::copy_images(v)),
            None => None,
        },
        None => None,
    };
    let html = resolve_inline_images(replaced, &images);
    assert(preview_for_tokens(component.text@, editor_images(*component), toks, Some(html@)));
    Some(html)
}

} // verus!
