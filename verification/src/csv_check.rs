//! Validation of CSV data sources: cell normalization, header titles,
//! column type inference and the search for the first invalid row.
use vstd::prelude::*;
use rayon::prelude::{IntoParallelRefIterator, ParallelIterator};
use crate::model::{ColumnCheck, PlaceholderType};
use crate::number::{is_float_literal, is_float_text, is_numeric_literal, is_numeric_text};
use crate::text::{
    chars_eq, chars_of, count_char, count_char_in, has_char, contains_char, is_whitespace,
    is_ws, lead_ws, lead_ws_len, split_char, split_chars, string_of, sub_chars, trim, trim_chars,
    extend_chars,
};

verus! {

broadcast use vstd::string::group_string_axioms;

// ---------------------------------------------------------------------------
// Cells
// ---------------------------------------------------------------------------

/// `s` without one pair of surrounding double quotes, or else without one
/// pair of surrounding single quotes.
pub open spec fn unquote(s: Seq<char>) -> Seq<char> {
    if s.len() >= 2 && s[0] == '"' && s.last() == '"' {
        s.subrange(1, s.len() - 1)
    } else if s.len() >= 2 && s[0] == '\'' && s.last() == '\'' {
        s.subrange(1, s.len() - 1)
    } else {
        s
    }
}

/// `s` with every non-breaking space replaced by a plain space.
pub open spec fn nbsp_to_space(s: Seq<char>) -> Seq<char> {
    s.map_values(|c: char| if c == '\u{a0}' { ' ' } else { c })
}

/// A cell as the validation sees it: trimmed, unquoted, with non-breaking
/// spaces made plain, and trimmed again.
pub open spec fn normalized_cell(s: Seq<char>) -> Seq<char> {
    trim(nbsp_to_space(unquote(trim(s))))
}

fn normalize_cell_chars(v: &[char]) -> (r: Vec<char>)
    ensures
        r@ == normalized_cell(v@),
{
    let t = trim_chars(v);
    let n = t.len();
    let u = if n >= 2 && ((t[0] == '"' && t[n - 1] == '"') || (t[0] == '\'' && t[n - 1] == '\'')) {
        sub_chars(&t, 1, n - 1)
    } else {
        t
    };
    let mut w: Vec<char> = Vec::new();
    let mut i: usize = 0;
    while i < u.len()
        invariant
            i <= u@.len(),
            w@ == nbsp_to_space(u@).take(i as int),
        decreases u@.len() - i,
    {
        let c = u[i];
        w.push(if c == '\u{a0}' { ' ' } else { c });
        assert(nbsp_to_space(u@).take(i + 1) =~= nbsp_to_space(u@).take(i as int).push(
            nbsp_to_space(u@)[i as int],
        ));
        i = i + 1;
    }
    assert(nbsp_to_space(u@).take(u@.len() as int) =~= nbsp_to_space(u@));
    trim_chars(&w)
}

/// Trims and normalizes a CSV cell: surrounding white space, one pair of
/// surrounding quotes and non-breaking spaces are removed, then the result
/// is trimmed again.
pub fn normalize_cell(cell: &str) -> (r: String)
    ensures
        r@ == normalized_cell(cell@),
{
    let v = chars_of(cell);
    let n = normalize_cell_chars(&v);
    string_of(&n)
}

/// Whether `value` conforms to the heuristic of `t`.
pub open spec fn value_matches(t: PlaceholderType, value: Seq<char>) -> bool {
    match t {
        PlaceholderType::Text => true,
        PlaceholderType::Number => is_float_literal(value),
        PlaceholderType::Currency => has_currency_symbol(value),
        PlaceholderType::Email => has_char(value, '@') && has_char(value, '.'),
    }
}

fn value_matches_chars(t: PlaceholderType, v: &[char]) -> (r: bool)
    ensures
        r == value_matches(t, v@),
{
    match t {
        PlaceholderType::Text => true,
        PlaceholderType::Number => is_float_text(v),
        PlaceholderType::Currency => contains_char(v, '$') || contains_char(v, '€') || contains_char(
            v,
            '£',
        ) || contains_char(v, '¥'),
        PlaceholderType::Email => contains_char(v, '@') && contains_char(v, '.'),
    }
}

/// Validates one cell against a column type: text always passes, numbers
/// must parse as a floating-point number, currencies must carry one of
/// `$`, `€`, `£`, `¥`, e-mails must hold both `@` and `.`.
pub fn validate_value(var_type: &PlaceholderType, value: &str) -> (r: bool)
    ensures
        r == value_matches(*var_type, value@),
{
    let v = chars_of(value);
    value_matches_chars(*var_type, &v)
}

// ---------------------------------------------------------------------------
// Delimiter
// ---------------------------------------------------------------------------

/// The delimiter of a header line: the candidate among `,`, `;`, tab and
/// `|` that occurs most often (the later one on a tie), and `,` when none
/// occurs at all.
pub open spec fn delimiter_of(h: Seq<char>) -> char {
    let a = count_char(h, ',');
    let b = count_char(h, ';');
    let c = count_char(h, '\t');
    let d = count_char(h, '|');
    if a == 0 && b == 0 && c == 0 && d == 0 {
        ','
    } else if d >= a && d >= b && d >= c {
        '|'
    } else if c >= a && c >= b {
        '\t'
    } else if b >= a {
        ';'
    } else {
        ','
    }
}

/// The detected delimiter is one of `,`, `;`, tab and `|`, and no other of
/// them occurs more often in the header; a candidate that does not occur is
/// chosen only when none occurs.
pub proof fn law_delimiter_is_most_frequent(h: Seq<char>)
    ensures
        delimiter_of(h) == ',' || delimiter_of(h) == ';' || delimiter_of(h) == '\t'
            || delimiter_of(h) == '|',
        count_char(h, delimiter_of(h)) >= count_char(h, ','),
        count_char(h, delimiter_of(h)) >= count_char(h, ';'),
        count_char(h, delimiter_of(h)) >= count_char(h, '\t'),
        count_char(h, delimiter_of(h)) >= count_char(h, '|'),
        count_char(h, delimiter_of(h)) == 0 ==> delimiter_of(h) == ',',
{
}

/// Detects the column delimiter of a CSV header line.
pub fn detect_delimiter(header_line: &str) -> (d: char)
    ensures
        d == delimiter_of(header_line@),
{
    let v = chars_of(header_line);
    let a = count_char_in(&v, ',');
    let b = count_char_in(&v, ';');
    let c = count_char_in(&v, '\t');
    let d = count_char_in(&v, '|');
    if a == 0 && b == 0 && c == 0 && d == 0 {
        ','
    } else if d >= a && d >= b && d >= c {
        '|'
    } else if c >= a && c >= b {
        '\t'
    } else if b >= a {
        ';'
    } else {
        ','
    }
}


// ---------------------------------------------------------------------------
// Header titles
// ---------------------------------------------------------------------------

/// `s` with every maximal run of white space replaced by one `_` (on a
/// trimmed title this is `split_whitespace` joined by `_`).
pub open spec fn collapse_ws(s: Seq<char>) -> Seq<char>
    decreases s.len(),
{
    if s.len() == 0 {
        seq![]
    } else if is_ws(s[0]) {
        let rest = s.skip(lead_ws(s) as int);
        if rest.len() < s.len() {
            seq!['_'] + collapse_ws(rest)
        } else {
            seq![]
        }
    } else {
        seq![s[0]] + collapse_ws(s.drop_first())
    }
}

proof fn lemma_lead_ws_skip(s: Seq<char>, n: int)
    requires
        0 <= n <= s.len(),
        forall|j: int| 0 <= j < n ==> is_ws(#[trigger] s[j]),
        n == s.len() || !is_ws(s[n]),
    ensures
        lead_ws(s) == n,
    decreases n,
{
    if n > 0 {
        lemma_lead_ws_skip(s.drop_first(), n - 1);
    }
}

fn collapse_ws_chars(v: &[char]) -> (r: Vec<char>)
    ensures
        r@ == collapse_ws(v@),
{
    let mut out: Vec<char> = Vec::new();
    let mut i: usize = 0;
    assert(v@.skip(0) =~= v@);
    while i < v.len()
        invariant
            i <= v@.len(),
            out@ + collapse_ws(v@.skip(i as int)) == collapse_ws(v@),
        decreases v@.len() - i,
    {
        let ghost t = v@.skip(i as int);
        if is_whitespace(v[i]) {
            let mut j = i + 1;
            while j < v.len() && is_whitespace(v[j])
                invariant
                    i < j <= v@.len(),
                    forall|k: int| i <= k < j ==> is_ws(#[trigger] v@[k]),
                decreases v@.len() - j,
            {
                j = j + 1;
            }
            proof {
                assert forall|k: int| 0 <= k < j - i implies is_ws(#[trigger] t[k]) by {
                    assert(t[k] == v@[i + k]);
                }
                if j < v.len() {
                    assert(t[j - i] == v@[j as int]);
                }
                lemma_lead_ws_skip(t, j - i);
                assert(t.skip(j - i) =~= v@.skip(j as int));
                assert(out@.push('_') + collapse_ws(v@.skip(j as int)) =~= out@ + (seq!['_']
                    + collapse_ws(t.skip(lead_ws(t) as int))));
            }
            out.push('_');
            i = j;
        } else {
            proof {
                assert(t.drop_first() =~= v@.skip(i + 1));
                assert(out@.push(v@[i as int]) + collapse_ws(v@.skip(i + 1)) =~= out@ + (seq![
                    t[0],
                ] + collapse_ws(t.drop_first())));
            }
            out.push(v[i]);
            i = i + 1;
        }
    }
    assert(v@.skip(i as int) =~= Seq::<char>::empty());
    assert(out@ + Seq::<char>::empty() =~= out@);
    out
}

/// Header message: an empty title.
pub open spec fn empty_title_msg() -> Seq<char> {
    "Header contains an empty title"@
}

/// Header message: a title that is a number.
pub open spec fn numeric_title_msg(t: Seq<char>) -> Seq<char> {
    "Header titles must be textual, but found numeric title: '"@ + t + "'"@
}

/// Header message: two titles equal after normalization.
pub open spec fn duplicate_title_msg(t: Seq<char>) -> Seq<char> {
    "Duplicate title in header after normalization: '"@ + t + "'"@
}

/// Header message: no titles at all.
pub open spec fn no_titles_msg() -> Seq<char> {
    "Header line contains no titles"@
}

/// Checks the raw titles in order, given the titles accepted so far.
pub open spec fn titles_outcome(raw: Seq<Seq<char>>, seen: Seq<Seq<char>>) -> Result<
    Seq<Seq<char>>,
    Seq<char>,
>
    decreases raw.len(),
{
    if raw.len() == 0 {
        Ok(seen)
    } else {
        let t = trim(raw[0]);
        if t.len() == 0 {
            Err(empty_title_msg())
        } else if is_numeric_literal(t) {
            Err(numeric_title_msg(t))
        } else {
            let n = collapse_ws(t);
            if seen.contains(n) {
                Err(duplicate_title_msg(n))
            } else {
                titles_outcome(raw.drop_first(), seen.push(n))
            }
        }
    }
}

proof fn lemma_titles_outcome_distinct(raw: Seq<Seq<char>>, seen: Seq<Seq<char>>)
    requires
        seen.no_duplicates(),
    ensures
        titles_outcome(raw, seen) matches Ok(ts) ==> ts.no_duplicates() && ts.len() == seen.len()
            + raw.len(),
    decreases raw.len(),
{
    if raw.len() > 0 {
        let t = trim(raw[0]);
        if t.len() > 0 && !is_numeric_literal(t) {
            let n = collapse_ws(t);
            if !seen.contains(n) {
                let s2 = seen.push(n);
                assert forall|i: int, j: int| 0 <= i < s2.len() && 0 <= j < s2.len() && i != j implies s2[i]
                    != s2[j] by {
                    if j == seen.len() {
                        assert(seen[i] != n);
                    } else if i == seen.len() {
                        assert(seen[j] != n);
                    }
                }
                lemma_titles_outcome_distinct(raw.drop_first(), s2);
            }
        }
    }
}

/// The titles of an accepted header are all different, one per cell.
pub proof fn law_header_titles_distinct(h: Seq<char>, d: char)
    ensures
        header_titles(h, d) matches Ok(ts) ==> ts.no_duplicates() && ts.len() == line_cells(h, d).len(),
{
    lemma_titles_outcome_distinct(line_cells(h, d), seq![]);
}

/// The normalized cells of a line split at `d`.
pub open spec fn line_cells(line: Seq<char>, d: char) -> Seq<Seq<char>> {
    split_char(line, d).map_values(|c: Seq<char>| normalized_cell(c))
}

/// The titles of a header line, or the reason it is rejected.
pub open spec fn header_titles(h: Seq<char>, d: char) -> Result<Seq<Seq<char>>, Seq<char>> {
    let raw = line_cells(h, d);
    if raw.len() == 0 {
        Err(no_titles_msg())
    } else {
        titles_outcome(raw, seq![])
    }
}

/// The views of a sequence of strings.
pub open spec fn views(v: Seq<String>) -> Seq<Seq<char>> {
    v.map_values(|s: String| s@)
}

fn cells_of_line(v: &[char], d: char) -> (r: Vec<Vec<char>>)
    ensures
        r@.len() == line_cells(v@, d).len(),
        forall|i: int| 0 <= i < r@.len() ==> #[trigger] r@[i]@ == line_cells(v@, d)[i],
{
    let parts = split_chars(v, d);
    let mut r: Vec<Vec<char>> = Vec::new();
    let mut i: usize = 0;
    while i < parts.len()
        invariant
            i <= parts@.len(),
            parts@.len() == split_char(v@, d).len(),
            forall|k: int| 0 <= k < parts@.len() ==> #[trigger] parts@[k]@ == split_char(v@, d)[k],
            r@.len() == i,
            forall|k: int| 0 <= k < i ==> #[trigger] r@[k]@ == line_cells(v@, d)[k],
        decreases parts@.len() - i,
    {
        let c = normalize_cell_chars(&parts[i]);
        r.push(c);
        i = i + 1;
    }
    r
}

fn contains_seq(seen: &Vec<Vec<char>>, n: &[char]) -> (r: bool)
    ensures
        r == seen@.map_values(|x: Vec<char>| x@).contains(n@),
{
    let mut i: usize = 0;
    while i < seen.len()
        invariant
            i <= seen@.len(),
            forall|k: int| 0 <= k < i ==> seen@[k]@ != n@,
        decreases seen@.len() - i,
    {
        if chars_eq(&seen[i], n) {
            assert(seen@.map_values(|x: Vec<char>| x@)[i as int] == n@);
            return true;
        }
        i = i + 1;
    }
    proof {
        let m = seen@.map_values(|x: Vec<char>| x@);
        if m.contains(n@) {
            let k = choose|k: int| 0 <= k < m.len() && m[k] == n@;
            assert(seen@[k]@ != n@);
        }
    }
    false
}

fn strings_of(v: &Vec<Vec<char>>) -> (r: Vec<String>)
    ensures
        views(r@) == v@.map_values(|x: Vec<char>| x@),
{
    let mut r: Vec<String> = Vec::new();
    let mut i: usize = 0;
    while i < v.len()
        invariant
            i <= v@.len(),
            r@.len() == i,
            forall|k: int| 0 <= k < i ==> #[trigger] r@[k]@ == v@[k]@,
        decreases v@.len() - i,
    {
        r.push(string_of(&v[i]));
        i = i + 1;
    }
    assert(views(r@) =~= v@.map_values(|x: Vec<char>| x@));
    r
}

fn message3(a: &str, b: &[char], c: &str) -> (r: String)
    ensures
        r@ == a@ + b@ + c@,
{
    let mut v = chars_of(a);
    extend_chars(&mut v, b);
    let w = chars_of(c);
    extend_chars(&mut v, &w);
    string_of(&v)
}

/// Validates the header line of a CSV file and normalizes its titles: no
/// title may be empty or numeric, runs of white space become `_`, and the
/// normalized titles must be distinct.
pub fn validate_and_normalize_titles(header_line: &str, delimiter: char) -> (r: Result<
    Vec<String>,
    String,
>)
    ensures
        match r {
            Ok(ts) => header_titles(header_line@, delimiter) == Ok::<Seq<Seq<char>>, Seq<char>>(
                views(ts@),
            ),
            Err(e) => header_titles(header_line@, delimiter) == Err::<Seq<Seq<char>>, Seq<char>>(
                e@,
            ),
        },
{
    let hv = chars_of(header_line);
    let raw = cells_of_line(&hv, delimiter);
    let ghost raw_s = line_cells(hv@, delimiter);
    if raw.len() == 0 {
        return Err("Header line contains no titles".to_string());
    }
    let mut seen: Vec<Vec<char>> = Vec::new();
    let mut i: usize = 0;
    assert(raw_s.skip(0) =~= raw_s);
    assert(seen@.map_values(|x: Vec<char>| x@) =~= Seq::<Seq<char>>::empty());
    while i < raw.len()
        invariant
            i <= raw@.len(),
            raw@.len() == raw_s.len(),
            forall|k: int| 0 <= k < raw@.len() ==> #[trigger] raw@[k]@ == raw_s[k],
            raw_s == line_cells(header_line@, delimiter),
            raw_s.len() > 0,
            titles_outcome(raw_s.skip(i as int), seen@.map_values(|x: Vec<char>| x@))
                == titles_outcome(raw_s, seq![]),
        decreases raw@.len() - i,
    {
        let ghost rest = raw_s.skip(i as int);
        let ghost sv = seen@.map_values(|x: Vec<char>| x@);
        assert(rest[0] == raw_s[i as int]);
        let t = trim_chars(&raw[i]);
        if t.len() == 0 {
            return Err("Header contains an empty title".to_string());
        }
        if is_numeric_text(&t) {
            return Err(
                message3("Header titles must be textual, but found numeric title: '", &t, "'"),
            );
        }
        let n = collapse_ws_chars(&t);
        if contains_seq(&seen, &n) {
            return Err(message3("Duplicate title in header after normalization: '", &n, "'"));
        }
        seen.push(n);
        proof {
            assert(rest.drop_first() =~= raw_s.skip(i + 1));
            assert(seen@.map_values(|x: Vec<char>| x@) =~= sv.push(collapse_ws(trim(rest[0]))));
        }
        i = i + 1;
    }
    proof {
        assert(raw_s.skip(i as int) =~= Seq::<Seq<char>>::empty());
    }
    let out = strings_of(&seen);
    Ok(out)
}

// ---------------------------------------------------------------------------
// Column inference
// ---------------------------------------------------------------------------

/// Whether `s` holds one of `$`, `€`, `£`, `¥`.
pub open spec fn has_currency_symbol(s: Seq<char>) -> bool {
    has_char(s, '$') || has_char(s, '€') || has_char(s, '£') || has_char(s, '¥')
}

/// The type inferred from a sample value: e-mail, currency, number or text,
/// tested in that order.
pub open spec fn inferred_type(val: Seq<char>) -> PlaceholderType {
    if has_char(val, '@') && has_char(val, '.') {
        PlaceholderType::Email
    } else if has_currency_symbol(val) {
        PlaceholderType::Currency
    } else if is_float_literal(val) {
        PlaceholderType::Number
    } else {
        PlaceholderType::Text
    }
}

/// A sample with both `@` and `.` is an e-mail. Any other sample that holds
/// one of `$`, `€`, `£`, `¥` is a currency, and one that holds none of them
/// is never a currency; of the rest, exactly the floating-point numbers are
/// numbers. Whatever type is inferred, the sample itself passes the check of
/// that type.
pub proof fn law_inferred_type(v: Seq<char>)
    ensures
        has_char(v, '@') && has_char(v, '.') ==> inferred_type(v) == PlaceholderType::Email,
        !(has_char(v, '@') && has_char(v, '.')) ==> (inferred_type(v) == PlaceholderType::Currency
            <==> (has_char(v, '$') || has_char(v, '€') || has_char(v, '£') || has_char(v, '¥'))),
        value_matches(inferred_type(v), v),
        inferred_type(v) == PlaceholderType::Number ==> is_float_literal(v),
        !(has_char(v, '@') && has_char(v, '.')) && !(has_char(v, '$') || has_char(v, '€')
            || has_char(v, '£') || has_char(v, '¥')) ==> (inferred_type(v)
            == PlaceholderType::Number <==> is_float_literal(v)),
{
}

fn infer_type_chars(v: &[char]) -> (t: PlaceholderType)
    ensures
        t == inferred_type(v@),
{
    if contains_char(v, '@') && contains_char(v, '.') {
        PlaceholderType::Email
    } else if contains_char(v, '$') || contains_char(v, '€') || contains_char(v, '£')
        || contains_char(v, '¥') {
        PlaceholderType::Currency
    } else if is_float_text(v) {
        PlaceholderType::Number
    } else {
        PlaceholderType::Text
    }
}

/// What column `k` of `titles` is inferred to be, given the cells of the
/// first data row.
pub open spec fn column_matches(c: ColumnCheck, title: Seq<char>, cells: Seq<Seq<char>>, k: int) -> bool {
    &&& c.title@ == title
    &&& if k < cells.len() {
        c.placeholder_type == inferred_type(trim(cells[k])) && crate::model::opt_view(c.first_row)
            == Some(cells[k])
    } else {
        c.placeholder_type == PlaceholderType::Text && c.first_row is None
    }
}

/// Infers the schema of each column from the first data row: each column
/// keeps its title, takes the type of its sample value and records that
/// value; a column missing from the row is text with no sample.
pub fn infer_column_checks(titles: &[String], second_line: &str, delimiter: char) -> (r: Vec<
    ColumnCheck,
>)
    ensures
        r@.len() == titles@.len(),
        forall|k: int|
            0 <= k < r@.len() ==> column_matches(
                #[trigger] r@[k],
                titles@[k]@,
                line_cells(second_line@, delimiter),
                k,
            ),
{
    let lv = chars_of(second_line);
    let cells = cells_of_line(&lv, delimiter);
    let mut columns: Vec<ColumnCheck> = Vec::new();
    let mut idx: usize = 0;
    while idx < titles.len()
        invariant
            idx <= titles@.len(),
            cells@.len() == line_cells(second_line@, delimiter).len(),
            forall|k: int| 0 <= k < cells@.len() ==> #[trigger] cells@[k]@ == line_cells(
                second_line@,
                delimiter,
            )[k],
            columns@.len() == idx,
            forall|k: int|
                0 <= k < idx ==> column_matches(
                    #[trigger] columns@[k],
                    titles@[k]@,
                    line_cells(second_line@, delimiter),
                    k,
                ),
        decreases titles@.len() - idx,
    {
        let col = if idx < cells.len() {
            let val = trim_chars(&cells[idx]);
            let t = infer_type_chars(&val);
            ColumnCheck {
                title: titles[idx].clone(),
                placeholder_type: t,
                first_row: Some(string_of(&cells[idx])),
            }
        } else {
            ColumnCheck {
                title: titles[idx].clone(),
                placeholder_type: PlaceholderType::Text,
                first_row: None,
            }
        };
        columns.push(col);
        idx = idx + 1;
    }
    columns
}


// ---------------------------------------------------------------------------
// Rows
// ---------------------------------------------------------------------------

/// A problem found in a row: CSV line number, column title and reason.
pub type Finding = (usize, String, String);

/// The view of a finding.
pub open spec fn finding_view(f: Option<Finding>) -> Option<(int, Seq<char>, Seq<char>)> {
    match f {
        Some((r, t, m)) => Some((r as int, t@, m@)),
        None => None,
    }
}

/// The index that a title lookup built from `titles` gives for `t` (the last
/// position of `t`, as a map filled in order keeps).
pub open spec fn last_index_of(titles: Seq<Seq<char>>, t: Seq<char>) -> Option<int>
    decreases titles.len(),
{
    if titles.len() == 0 {
        None
    } else if titles.last() == t {
        Some(titles.len() - 1)
    } else {
        last_index_of(titles.drop_last(), t)
    }
}

/// The name of a column type in messages.
pub open spec fn kind_label(t: PlaceholderType) -> Seq<char> {
    match t {
        PlaceholderType::Text => "text"@,
        PlaceholderType::Number => "number"@,
        PlaceholderType::Currency => "currency"@,
        PlaceholderType::Email => "email"@,
    }
}

/// Reason: a cell that does not conform to its column type.
pub open spec fn mismatch_msg(cell: Seq<char>, t: PlaceholderType) -> Seq<char> {
    "value '"@ + cell + "' does not match expected type: "@ + kind_label(t)
}

/// The problem, if any, of one column in a record.
pub open spec fn column_problem(
    row: int,
    record: Seq<Seq<char>>,
    col: ColumnCheck,
    ci: Option<int>,
) -> Option<(int, Seq<char>, Seq<char>)> {
    match ci {
        Some(i) => if i < 0 || i >= record.len() {
            Some((row, col.title@, "column missing in row"@))
        } else {
            let cell = normalized_cell(record[i]);
            if value_matches(col.placeholder_type, cell) {
                None
            } else {
                Some((row, col.title@, mismatch_msg(cell, col.placeholder_type)))
            }
        },
        None => Some((row, col.title@, "header title not found"@)),
    }
}

/// The first problem among the columns, checked in order.
pub open spec fn columns_problem(
    row: int,
    record: Seq<Seq<char>>,
    cols: Seq<ColumnCheck>,
    idxs: Seq<Option<int>>,
) -> Option<(int, Seq<char>, Seq<char>)>
    decreases cols.len(),
{
    if cols.len() == 0 {
        None
    } else {
        match column_problem(row, record, cols[0], idxs[0]) {
            Some(x) => Some(x),
            None => columns_problem(row, record, cols.drop_first(), idxs.drop_first()),
        }
    }
}

/// The title index of each column.
pub open spec fn column_indices(titles: Seq<Seq<char>>, cols: Seq<ColumnCheck>) -> Seq<Option<int>> {
    Seq::new(cols.len(), |k: int| last_index_of(titles, cols[k].title@))
}

/// Integer view of optional indices.
pub open spec fn opt_ints(v: Seq<Option<usize>>) -> Seq<Option<int>> {
    v.map_values(|o: Option<usize>| match o {
        Some(i) => Some(i as int),
        None => None,
    })
}

fn type_label(t: PlaceholderType) -> (r: &'static str)
    ensures
        r@ == kind_label(t),
{
    match t {
        PlaceholderType::Text => "text",
        PlaceholderType::Number => "number",
        PlaceholderType::Currency => "currency",
        PlaceholderType::Email => "email",
    }
}

/// Checks one data line against the columns, whose title indices are given.
fn check_row(
    idx: usize,
    line: &String,
    columns: &[ColumnCheck],
    indices: &[Option<usize>],
    delimiter: char,
) -> (r: Option<Finding>)
    requires
        idx <= usize::MAX - 2,
        indices@.len() == columns@.len(),
    ensures
        finding_view(r) == columns_problem(
            idx + 2,
            split_char(line@, delimiter),
            columns@,
            opt_ints(indices@),
        ),
{
    let lv = chars_of(line.as_str());
    let record = split_chars(&lv, delimiter);
    let ghost rec = split_char(line@, delimiter);
    let ghost idxs = opt_ints(indices@);
    let row = idx + 2;
    let mut k: usize = 0;
    assert(columns@.skip(0) =~= columns@);
    assert(idxs.skip(0) =~= idxs);
    while k < columns.len()
        invariant
            k <= columns@.len(),
            indices@.len() == columns@.len(),
            idxs == opt_ints(indices@),
            rec == split_char(line@, delimiter),
            record@.len() == rec.len(),
            forall|j: int| 0 <= j < record@.len() ==> #[trigger] record@[j]@ == rec[j],
            row == idx + 2,
            columns_problem(row as int, rec, columns@.skip(k as int), idxs.skip(k as int))
                == columns_problem(row as int, rec, columns@, idxs),
        decreases columns@.len() - k,
    {
        let col = &columns[k];
        assert(columns@.skip(k as int)[0] == columns@[k as int]);
        assert(idxs.skip(k as int)[0] == idxs[k as int]);
        assert(columns@.skip(k as int).drop_first() =~= columns@.skip(k + 1));
        assert(idxs.skip(k as int).drop_first() =~= idxs.skip(k + 1));
        match indices[k] {
            Some(ci) => {
                if ci >= record.len() {
                    return Some((row, col.title.clone(), "column missing in row".to_string()));
                }
                let cell = normalize_cell_chars(&record[ci]);
                if !value_matches_chars(col.placeholder_type, &cell) {
                    let mut m = chars_of("value '");
                    extend_chars(&mut m, &cell);
                    let mid = chars_of("' does not match expected type: ");
                    extend_chars(&mut m, &mid);
                    let tn = chars_of(type_label(col.placeholder_type));
                    extend_chars(&mut m, &tn);
                    return Some((row, col.title.clone(), string_of(&m)));
                }
            },
            None => {
                return Some((row, col.title.clone(), "header title not found".to_string()));
            },
        }
        k = k + 1;
    }
    None
}

/// Position of the last title equal to `t`.
fn last_index_in(titles: &[String], t: &String) -> (r: Option<usize>)
    ensures
        match r {
            Some(i) => last_index_of(views(titles@), t@) == Some(i as int),
            None => last_index_of(views(titles@), t@) is None,
        },
{
    let mut i = titles.len();
    assert(views(titles@).take(i as int) =~= views(titles@));
    while i > 0
        invariant
            i <= titles@.len(),
            last_index_of(views(titles@).take(i as int), t@) == last_index_of(views(titles@), t@),
        decreases i,
    {
        let ghost vt = views(titles@).take(i as int);
        assert(vt.drop_last() =~= views(titles@).take(i - 1));
        if titles[i - 1] == *t {
            return Some(i - 1);
        }
        i = i - 1;
    }
    None
}

/// The problem of the first row of `chunk`, in order, that has one, the
/// columns being looked up at indices `idxs`.
pub open spec fn first_problem(
    chunk: Seq<(usize, String)>,
    cols: Seq<ColumnCheck>,
    idxs: Seq<Option<int>>,
    d: char,
) -> Option<(int, Seq<char>, Seq<char>)>
    decreases chunk.len(),
{
    if chunk.len() == 0 {
        None
    } else {
        match columns_problem(chunk[0].0 + 2, split_char(chunk[0].1@, d), cols, idxs) {
            Some(x) => Some(x),
            None => first_problem(chunk.drop_first(), cols, idxs, d),
        }
    }
}

/// Searches the rows of a chunk in parallel with `rayon`'s `find_map_first`,
/// which gives the result of the first row, in the chunk's order, whose
/// check finds a problem; each row is checked by `check_row`.
#[verifier::external_body]
fn par_find_row_problem(
    chunk: &[(usize, String)],
    columns: &[ColumnCheck],
    indices: &[Option<usize>],
    delimiter: char,
) -> (r: Option<Finding>)
    requires
        indices@.len() == columns@.len(),
        forall|k: int| 0 <= k < chunk@.len() ==> (#[trigger] chunk@[k]).0 <= usize::MAX - 2,
    ensures
        finding_view(r) == first_problem(chunk@, columns@, opt_ints(indices@), delimiter),
{
    chunk.par_iter().find_map_first(|(idx, line)| check_row(*idx, line, columns, indices, delimiter))
}

/// Searches a chunk of data lines for the first row, in the chunk's order,
/// with an invalid cell, a missing cell or a column whose title the header
/// lacks, and gives its problem; `None` when every row is valid.
pub fn find_first_invalid(
    chunk: &[(usize, String)],
    columns: &[ColumnCheck],
    titles: &[String],
    delimiter: char,
) -> (r: Option<Finding>)
    requires
        forall|k: int| 0 <= k < chunk@.len() ==> (#[trigger] chunk@[k]).0 <= usize::MAX - 2,
    ensures
        finding_view(r) == first_problem(
            chunk@,
            columns@,
            column_indices(views(titles@), columns@),
            delimiter,
        ),
{
    let mut indices: Vec<Option<usize>> = Vec::new();
    let mut k: usize = 0;
    while k < columns.len()
        invariant
            k <= columns@.len(),
            indices@.len() == k,
            forall|j: int|
                0 <= j < k ==> opt_ints(indices@)[j] == last_index_of(
                    views(titles@),
                    #[trigger] columns@[j].title@,
                ),
        decreases columns@.len() - k,
    {
        let ix = last_index_in(titles, &columns[k].title);
        indices.push(ix);
        k = k + 1;
    }
    assert(opt_ints(indices@) =~= column_indices(views(titles@), columns@));
    par_find_row_problem(chunk, columns, &indices, delimiter)
}

/// The first problem of a chunk is `None` exactly when no row of the chunk
/// has a problem; otherwise it is the problem of a row of the chunk, and no
/// earlier row has one.
pub proof fn law_first_problem(
    chunk: Seq<(usize, String)>,
    cols: Seq<ColumnCheck>,
    idxs: Seq<Option<int>>,
    d: char,
)
    ensures
        first_problem(chunk, cols, idxs, d) is None <==> forall|k: int|
            0 <= k < chunk.len() ==> (columns_problem(
                (#[trigger] chunk[k]).0 + 2,
                split_char(chunk[k].1@, d),
                cols,
                idxs,
            ) is None),
        first_problem(chunk, cols, idxs, d) is Some ==> exists|k: int|
            0 <= k < chunk.len() && columns_problem(
                (#[trigger] chunk[k]).0 + 2,
                split_char(chunk[k].1@, d),
                cols,
                idxs,
            ) == first_problem(chunk, cols, idxs, d) && forall|j: int|
                0 <= j < k ==> (columns_problem(
                    (#[trigger] chunk[j]).0 + 2,
                    split_char(chunk[j].1@, d),
                    cols,
                    idxs,
                ) is None),
    decreases chunk.len(),
{
    if chunk.len() > 0 {
        let rest = chunk.drop_first();
        law_first_problem(rest, cols, idxs, d);
        assert forall|k: int| 0 < k < chunk.len() implies #[trigger] chunk[k] == rest[k - 1] by {}
        if columns_problem(chunk[0].0 + 2, split_char(chunk[0].1@, d), cols, idxs) is None {
            if first_problem(rest, cols, idxs, d) is Some {
                let k = choose|k: int|
                    0 <= k < rest.len() && columns_problem(
                        (#[trigger] rest[k]).0 + 2,
                        split_char(rest[k].1@, d),
                        cols,
                        idxs,
                    ) == first_problem(rest, cols, idxs, d) && forall|j: int|
                        0 <= j < k ==> (columns_problem(
                            (#[trigger] rest[j]).0 + 2,
                            split_char(rest[j].1@, d),
                            cols,
                            idxs,
                        ) is None);
                assert(chunk[k + 1] == rest[k]);
                assert forall|j: int| 0 <= j < k + 1 implies (columns_problem(
                    (#[trigger] chunk[j]).0 + 2,
                    split_char(chunk[j].1@, d),
                    cols,
                    idxs,
                ) is None) by {
                    if j > 0 {
                        assert(chunk[j] == rest[j - 1]);
                    }
                }
            } else {
                assert forall|k: int| 0 <= k < chunk.len() implies (columns_problem(
                    (#[trigger] chunk[k]).0 + 2,
                    split_char(chunk[k].1@, d),
                    cols,
                    idxs,
                ) is None) by {
                    if k > 0 {
                        assert(chunk[k] == rest[k - 1]);
                    }
                }
            }
        }
    }
}

/// Checks one chunk of data lines; never fails, and reports what
/// `find_first_invalid` finds.
pub fn process_chunk_sync(
    chunk: &[(usize, String)],
    columns: &[ColumnCheck],
    titles: &[String],
    delimiter: char,
) -> (r: Result<Option<Finding>, String>)
    requires
        forall|k: int| 0 <= k < chunk@.len() ==> (#[trigger] chunk@[k]).0 <= usize::MAX - 2,
    ensures
        r matches Ok(f) && finding_view(f) == first_problem(
            chunk@,
            columns@,
            column_indices(views(titles@), columns@),
            delimiter,
        ),
{
    Ok(find_first_invalid(chunk, columns, titles, delimiter))
}

} // verus!
