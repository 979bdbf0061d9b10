//! Calls into the outside crates that encode, hash, identify and render
//! text. Each function marked `external_body` here is trusted: its contract
//! restates what the crate's documentation or source shows, and is not
//! proved. The Base64 encoding and the JSON quoting are stated in full.
use vstd::prelude::*;
use base64::Engine;

verus! {

broadcast use vstd::string::group_string_axioms;

// ---------------------------------------------------------------------------
// Base64 (standard alphabet, with padding)
// ---------------------------------------------------------------------------

/// The bytes that `base64`'s `STANDARD` engine decodes from `text`, or
/// `None` when it rejects the text.
pub uninterp spec fn base64_decoding(text: Seq<char>) -> Option<Seq<u8>>;

/// The character of the standard Base64 alphabet for the six-bit value
/// `n`: `A`–`Z`, `a`–`z`, `0`–`9`, `+`, `/`.
pub open spec fn base64_digit(n: int) -> char {
    if n < 26 {
        (65 + n) as char
    } else if n < 52 {
        (97 + n - 26) as char
    } else if n < 62 {
        (48 + n - 52) as char
    } else if n == 62 {
        '+'
    } else {
        '/'
    }
}

/// Standard Base64 with padding: every group of three bytes becomes four
/// characters, six bits each, most significant first; a last group of one
/// or two bytes is filled with zero bits and padded with `=` to four.
pub open spec fn base64_encoding(b: Seq<u8>) -> Seq<char>
    decreases b.len(),
{
    if b.len() == 0 {
        Seq::<char>::empty()
    } else {
        let x = b[0] as int;
        let y = if b.len() > 1 { b[1] as int } else { 0 };
        let z = if b.len() > 2 { b[2] as int } else { 0 };
        let d0 = base64_digit(x / 4);
        let d1 = base64_digit((x % 4) * 16 + y / 16);
        let d2 = base64_digit((y % 16) * 4 + z / 64);
        let d3 = base64_digit(z % 64);
        if b.len() == 1 {
            seq![d0, d1, '=', '=']
        } else if b.len() == 2 {
            seq![d0, d1, d2, '=']
        } else {
            seq![d0, d1, d2, d3] + base64_encoding(b.skip(3))
        }
    }
}

/// A character of the standard Base64 alphabet or the padding `=`.
pub open spec fn is_base64_char(c: char) -> bool {
    ('A' <= c <= 'Z') || ('a' <= c <= 'z') || ('0' <= c <= '9') || c == '+' || c == '/' || c == '='
}

/// The bytes of `v`, when present.
pub open spec fn opt_bytes(v: Option<Vec<u8>>) -> Option<Seq<u8>> {
    match v {
        Some(b) => Some(b@),
        None => None,
    }
}

/// `base64::engine::general_purpose::STANDARD.decode`: the decoded bytes,
/// or `None` where the engine returns an error. What it decodes is named,
/// not restated.
#[verifier::external_body]
pub(crate) fn base64_decode(text: &str) -> (r: Option<Vec<u8>>)
    ensures
        opt_bytes(r) == base64_decoding(text@),
{
    base64::engine::general_purpose::STANDARD.decode(text).ok()
}

/// Every character of a Base64 encoding is of the alphabet or the padding,
/// and there are four for every started group of three bytes.
pub proof fn lemma_base64_encoding_shape(b: Seq<u8>)
    ensures
        base64_encoding(b).len() == 4 * ((b.len() + 2) / 3),
        forall|i: int|
            0 <= i < base64_encoding(b).len() ==> is_base64_char(#[trigger] base64_encoding(b)[i]),
    decreases b.len(),
{
    if b.len() >= 3 {
        lemma_base64_encoding_shape(b.skip(3));
        let e = base64_encoding(b);
        let r = base64_encoding(b.skip(3));
        assert forall|i: int| 0 <= i < e.len() implies is_base64_char(#[trigger] e[i]) by {
            if i >= 4 {
                assert(e[i] == r[i - 4]);
            }
        }
    }
}

/// `base64::engine::general_purpose::STANDARD.encode`: the standard
/// alphabet with padding, as `base64_encoding` states it; the same engine
/// decodes it back to the input.
#[verifier::external_body]
pub(crate) fn base64_encode(bytes: &[u8]) -> (r: String)
    ensures
        r@ == base64_encoding(bytes@),
        base64_decoding(r@) == Some(bytes@),
{
    base64::engine::general_purpose::STANDARD.encode(bytes)
}

// ---------------------------------------------------------------------------
// UTF-8
// ---------------------------------------------------------------------------

/// `String::from_utf8`: the text when `bytes` is valid UTF-8.
#[verifier::external_body]
pub(crate) fn utf8_text(bytes: Vec<u8>) -> (r: Option<String>)
    ensures
        r is Some <==> vstd::utf8::valid_utf8(bytes@),
        r matches Some(s) ==> s@ == vstd::utf8::decode_utf8(bytes@),
{
    String::from_utf8(bytes).ok()
}

// ---------------------------------------------------------------------------
// MD5
// ---------------------------------------------------------------------------

/// The MD5 digest of `data`, as the `md5` crate computes it.
pub uninterp spec fn md5_digest(data: Seq<u8>) -> Seq<u8>;

/// `md5::compute`: the 16-byte digest of `data`.
#[verifier::external_body]
pub(crate) fn md5_of(data: &[u8]) -> (r: Vec<u8>)
    ensures
        r@ == md5_digest(data@),
        r@.len() == 16,
{
    md5::compute(data).0.to_vec()
}

// ---------------------------------------------------------------------------
// Identifiers
// ---------------------------------------------------------------------------

/// A lower-case hexadecimal digit.
pub open spec fn is_hex_digit(c: char) -> bool {
    ('0' <= c <= '9') || ('a' <= c <= 'f')
}

/// The hyphenated form of a UUID: 36 characters, hyphens at positions 8,
/// 13, 18 and 23, lower-case hexadecimal digits elsewhere.
pub open spec fn is_hyphenated_uuid(s: Seq<char>) -> bool {
    &&& s.len() == 36
    &&& forall|i: int|
        0 <= i < 36 ==> if i == 8 || i == 13 || i == 18 || i == 23 {
            s[i] == '-'
        } else {
            is_hex_digit(#[trigger] s[i])
        }
}

/// The simple form of a UUID: 32 lower-case hexadecimal digits.
pub open spec fn is_simple_uuid(s: Seq<char>) -> bool {
    s.len() == 32 && forall|i: int| 0 <= i < 32 ==> is_hex_digit(#[trigger] s[i])
}

/// `uuid::Uuid::new_v4().to_string()`: a random identifier; only its form
/// is stated.
#[verifier::external_body]
pub(crate) fn new_uuid() -> (r: String)
    ensures
        is_hyphenated_uuid(r@),
{
    uuid::Uuid::new_v4().to_string()
}

/// `uuid::Uuid::new_v4().simple().to_string()`: a random identifier
/// without hyphens; only its form is stated.
#[verifier::external_body]
pub(crate) fn new_simple_uuid() -> (r: String)
    ensures
        is_simple_uuid(r@),
{
    uuid::Uuid::new_v4().simple().to_string()
}

// ---------------------------------------------------------------------------
// JSON strings
// ---------------------------------------------------------------------------

/// The string a JSON text denotes, when `serde_json` parses the whole text
/// as a JSON string value; `None` when it is not valid JSON or another kind
/// of value.
pub uninterp spec fn json_string_value(text: Seq<char>) -> Option<Seq<char>>;

/// `serde_json::from_str::<serde_json::Value>`, keeping the result only
/// when it is a `Value::String`.
#[verifier::external_body]
pub(crate) fn parse_json_string(text: &str) -> (r: Option<String>)
    ensures
        match r {
            Some(s) => json_string_value(text@) == Some(s@),
            None => json_string_value(text@) is None,
        },
{
    match serde_json::from_str::<serde_json::Value>(text) {
        Ok(serde_json::Value::String(s)) => Some(s),
        _ => None,
    }
}

/// The lower-case hexadecimal digit of `n < 16`.
pub open spec fn hex_digit_lower(n: int) -> char {
    if n < 10 {
        (48 + n) as char
    } else {
        (97 + n - 10) as char
    }
}

/// How `serde_json` writes one character inside a string literal: `"` and
/// `\` behind a backslash, the short escapes `\b`, `\f`, `\n`, `\r`,
/// `\t`, any other control character below U+0020 as `\u00XX` in
/// lower-case hexadecimal, and every other character as it is.
pub open spec fn json_char_escape(c: char) -> Seq<char> {
    let n = c as u32 as int;
    if c == '"' {
        seq!['\\', '"']
    } else if c == '\\' {
        seq!['\\', '\\']
    } else if n == 8 {
        seq!['\\', 'b']
    } else if n == 12 {
        seq!['\\', 'f']
    } else if c == '\n' {
        seq!['\\', 'n']
    } else if c == '\r' {
        seq!['\\', 'r']
    } else if c == '\t' {
        seq!['\\', 't']
    } else if n < 32 {
        seq!['\\', 'u', '0', '0', hex_digit_lower(n / 16), hex_digit_lower(n % 16)]
    } else {
        seq![c]
    }
}

/// The characters of `s`, each escaped as `serde_json` writes it.
pub open spec fn json_escaped(s: Seq<char>) -> Seq<char>
    decreases s.len(),
{
    if s.len() == 0 {
        Seq::<char>::empty()
    } else {
        json_char_escape(s[0]) + json_escaped(s.drop_first())
    }
}

/// The JSON text of a string value, as `serde_json` writes it: the escaped
/// characters between double quotes.
pub open spec fn json_quoted(text: Seq<char>) -> Seq<char> {
    seq!['"'] + json_escaped(text) + seq!['"']
}

/// `serde_json::to_string` of a string: a JSON string literal, quotes
/// included (serializing a string cannot fail; the empty text stands in
/// for an error that does not occur).
#[verifier::external_body]
pub(crate) fn json_string_literal(text: &str) -> (r: String)
    ensures
        r@ == json_quoted(text@),
{
    match serde_json::to_string(text) {
        Ok(t) => t,
        Err(_) => String::new(),
    }
}

// ---------------------------------------------------------------------------
// Markdown
// ---------------------------------------------------------------------------

/// The HTML that `pulldown_cmark` renders from a Markdown text with its
/// default options.
pub uninterp spec fn markdown_html(text: Seq<char>) -> Seq<char>;

/// `pulldown_cmark::html::push_html` of `Parser::new(text)` into an empty
/// string.
#[verifier::external_body]
pub(crate) fn markdown_to_html(text: &str) -> (r: String)
    ensures
        r@ == markdown_html(text@),
{
    let mut out = String::new();
    pulldown_cmark::html::push_html(&mut out, pulldown_cmark::Parser::new(text));
    out
}

// ---------------------------------------------------------------------------
// Regular-expression digits
// ---------------------------------------------------------------------------

/// Whether `c` is in the class `\d` of the `regex` crate: the Unicode
/// decimal digits of the crate's tables.
pub uninterp spec fn regex_decimal(c: char) -> bool;

/// `regex::Regex::is_match` of `^\d$` on the text of `c` alone. The crate
/// documents `\d` as the Unicode decimal digits, the ASCII ones among them.
#[verifier::external_body]
pub(crate) fn is_regex_decimal(c: char) -> (r: bool)
    ensures
        r == regex_decimal(c),
        ('0' <= c <= '9') ==> r,
{
    let mut buf = [0u8; 4];
    regex::Regex::new(r"^\d$").unwrap().is_match(c.encode_utf8(&mut buf))
}

// ---------------------------------------------------------------------------
// Number formatting
// ---------------------------------------------------------------------------

/// `digits` with a `.` between every group of three, counted from the
/// right.
pub open spec fn group_thousands(digits: Seq<char>) -> Seq<char>
    decreases digits.len(),
{
    if digits.len() <= 3 {
        digits
    } else {
        group_thousands(digits.take(digits.len() - 3)) + seq!['.'] + digits.skip(
            digits.len() - 3,
        )
    }
}

/// `num_format::ToFormattedString::to_formatted_string(&n, &Locale::es)`:
/// the decimal digits of `n` grouped by three with `.` (the separator and
/// grouping that `num_format` lists for `es`).
#[verifier::external_body]
pub(crate) fn format_count_es(n: u32) -> (r: String)
    ensures
        r@ == group_thousands(crate::text::decimal(n as nat)),
{
    num_format::ToFormattedString::to_formatted_string(&n, &num_format::Locale::es)
}

// ---------------------------------------------------------------------------
// Content types
// ---------------------------------------------------------------------------

/// The content type that `mime_guess` associates with the extension of
/// `path` (`application/octet-stream` when it knows none).
pub uninterp spec fn guessed_mime(path: Seq<char>) -> Seq<char>;

/// `mime_guess::from_path(path).first_or_octet_stream()`, as text.
#[verifier::external_body]
pub(crate) fn guess_mime(path: &str) -> (r: String)
    ensures
        r@ == guessed_mime(path@),
{
    let m = mime_guess::from_path(path).first_or_octet_stream();
    let s: &str = m.as_ref();
    s.to_string()
}

} // verus!
