//! Merging a template with the rows of its data source: which file a merge
//! reads, the placeholder values of each row and their substitution into
//! the template text.
use vstd::prelude::*;
use crate::csv_check::views;
use crate::datasource::{data_file_path, stored_file_name, TemplateRecord};
use crate::encoding::{base64_decode, base64_decoding};
use crate::text::{
    chars_of, decimal, decimal_chars, extend_chars, replace_all, replace_chars, split_char,
    split_chars, string_of,
};

verus! {

broadcast use vstd::string::group_string_axioms;

/// Error: a merge needs a verified data source.
pub open spec fn not_verified_msg() -> Seq<char> {
    "Template is not verified."@
}

/// Error: a verified row without a data-source checksum.
pub open spec fn no_md5_msg() -> Seq<char> {
    "Datasource MD5 not found for verified template."@
}

/// The data file a merge reads, or why it cannot start.
pub fn merge_source(template_id: &str, record: &TemplateRecord) -> (r: Result<String, String>)
    ensures
        record.verified != 1 ==> (r matches Err(e) && e@ == not_verified_msg()),
        record.verified == 1 && record@.datasource_md5 is None ==> (r matches Err(e) && e@
            == no_md5_msg()),
        record.verified == 1 && record@.datasource_md5 is Some ==> (r matches Ok(p) && p@ == "./"@
            + stored_file_name(template_id@, record@.datasource_md5->0)),
{
    if record.verified != 1 {
        return Err("Template is not verified.".to_string());
    }
    match &record.datasource_md5 {
        None => Err("Datasource MD5 not found for verified template.".to_string()),
        Some(m) => Ok(data_file_path(template_id, m.as_str())),
    }
}

/// The placeholder values of one data line: each title paired with the
/// cell at its position, for the titles the line has a cell for.
pub open spec fn row_pairs(titles: Seq<Seq<char>>, line: Seq<char>, d: char) -> Seq<(Seq<char>, Seq<char>)> {
    let cells = split_char(line, d);
    let n = if titles.len() < cells.len() { titles.len() } else { cells.len() };
    Seq::new(n, |j: int| (titles[j], cells[j]))
}

/// The views of placeholder pairs.
pub open spec fn pairs_view(v: Seq<(String, String)>) -> Seq<(Seq<char>, Seq<char>)> {
    v.map_values(|p: (String, String)| (p.0@, p.1@))
}

/// Pairs the titles with the cells of a data line.
pub fn row_placeholders(titles: &[String], line: &str, delimiter: char) -> (r: Vec<(String, String)>)
    ensures
        pairs_view(r@) == row_pairs(views(titles@), line@, delimiter),
{
    let c = chars_of(line);
    let cells = split_chars(&c, delimiter);
    let mut r: Vec<(String, String)> = Vec::new();
    let mut j: usize = 0;
    while j < titles.len() && j < cells.len()
        invariant
            j <= titles@.len(),
            j <= cells@.len(),
            cells@.len() == split_char(line@, delimiter).len(),
            forall|k: int| 0 <= k < cells@.len() ==> #[trigger] cells@[k]@ == split_char(line@, delimiter)[k],
            r@.len() == j,
            forall|k: int|
                0 <= k < j ==> (#[trigger] r@[k]).0@ == titles@[k]@ && r@[k].1@ == split_char(
                    line@,
                    delimiter,
                )[k],
        decreases titles@.len() - j,
    {
        r.push((titles[j].clone(), string_of(&cells[j])));
        j = j + 1;
    }
    assert(pairs_view(r@) =~= row_pairs(views(titles@), line@, delimiter));
    r
}

/// The placeholder tag of a key: `{{key}}`.
pub open spec fn tag_of(key: Seq<char>) -> Seq<char> {
    "{{"@ + key + "}}"@
}

/// `text` with the tag of each key replaced by its value, pair by pair.
pub open spec fn substituted(text: Seq<char>, pairs: Seq<(Seq<char>, Seq<char>)>) -> Seq<char>
    decreases pairs.len(),
{
    if pairs.len() == 0 {
        text
    } else {
        substituted(replace_all(text, tag_of(pairs[0].0), pairs[0].1), pairs.drop_first())
    }
}

/// Substituting one pair replaces every `{{key}}` tag of the text by the
/// value, whatever the value (an empty one included).
pub proof fn law_substitute_one_pair(text: Seq<char>, k: Seq<char>, v: Seq<char>)
    ensures
        substituted(text, seq![(k, v)]) == replace_all(text, tag_of(k), v),
{
    let p = seq![(k, v)];
    let r = replace_all(text, tag_of(k), v);
    assert(p.drop_first() =~= Seq::<(Seq<char>, Seq<char>)>::empty());
    assert(substituted(r, Seq::<(Seq<char>, Seq<char>)>::empty()) == r);
    assert(p[0] == (k, v));
    assert(substituted(text, p) == substituted(r, p.drop_first()));
}

/// Substituting the pairs and then one more pair is substituting the pairs
/// and then replacing that pair's tags by its value.
pub proof fn law_substitute_then_pair(
    text: Seq<char>,
    pairs: Seq<(Seq<char>, Seq<char>)>,
    k: Seq<char>,
    v: Seq<char>,
)
    ensures
        substituted(text, pairs.push((k, v))) == replace_all(substituted(text, pairs), tag_of(k), v),
    decreases pairs.len(),
{
    if pairs.len() == 0 {
        assert(pairs.push((k, v)) =~= seq![(k, v)]);
        law_substitute_one_pair(text, k, v);
    } else {
        let q = pairs.push((k, v));
        assert(q[0] == pairs[0]);
        assert(q.drop_first() =~= pairs.drop_first().push((k, v)));
        law_substitute_then_pair(
            replace_all(text, tag_of(pairs[0].0), pairs[0].1),
            pairs.drop_first(),
            k,
            v,
        );
    }
}

/// Replaces each `{{key}}` tag of the text by its value, in the order of
/// the pairs.
pub fn substitute_placeholders(text: &str, pairs: &[(String, String)]) -> (r: String)
    ensures
        r@ == substituted(text@, pairs_view(pairs@)),
{
    let mut cur = chars_of(text);
    let open = chars_of("{{");
    let close = chars_of("}}");
    proof {
        reveal_strlit("{{");
        reveal_strlit("}}");
    }
    let ghost pv = pairs_view(pairs@);
    let mut i: usize = 0;
    assert(pv.skip(0) =~= pv);
    while i < pairs.len()
        invariant
            i <= pairs@.len(),
            pv == pairs_view(pairs@),
            open@ == "{{"@,
            close@ == "}}"@,
            open@.len() == 2,
            substituted(cur@, pv.skip(i as int)) == substituted(text@, pv),
        decreases pairs@.len() - i,
    {
        let mut tag = chars_of("{{");
        let key = chars_of(pairs[i].0.as_str());
        extend_chars(&mut tag, &key);
        extend_chars(&mut tag, &close);
        let val = chars_of(pairs[i].1.as_str());
        proof {
            assert(pv.skip(i as int)[0] == pv[i as int]);
            assert(pv.skip(i as int).drop_first() =~= pv.skip(i + 1));
            assert(tag@ == tag_of(pv[i as int].0));
        }
        cur = replace_chars(&cur, &tag, &val);
        i = i + 1;
    }
    assert(pv.skip(i as int) =~= Seq::<(Seq<char>, Seq<char>)>::empty());
    string_of(&cur)
}

/// The name of the PDF of row `i` of merge job `job_id`.
pub fn merged_pdf_name(job_id: &str, i: usize) -> (r: String)
    ensures
        r@ == job_id@ + "_"@ + decimal(i as nat) + ".pdf"@,
{
    let mut v = chars_of(job_id);
    let u = chars_of("_");
    extend_chars(&mut v, &u);
    let d = decimal_chars(i as u64);
    extend_chars(&mut v, &d);
    let e = chars_of(".pdf");
    extend_chars(&mut v, &e);
    string_of(&v)
}

/// The work for one data row of a merge: its index, its placeholder values
/// and the name of its PDF.
#[derive(Debug)]
pub struct MergeTask {
    pub row_index: usize,
    pub pairs: Vec<(String, String)>,
    pub output_name: String,
}

/// The tasks of a merge job over its data lines, one per line in order:
/// row `i` pairs the titles with the cells of line `i` and is rendered to
/// the PDF named after the job and `i`.
pub fn merge_tasks(job_id: &str, titles: &[String], lines: &[String], delimiter: char) -> (r: Vec<
    MergeTask,
>)
    ensures
        r@.len() == lines@.len(),
        forall|i: int|
            0 <= i < lines@.len() ==> {
                &&& (#[trigger] r@[i]).row_index == i
                &&& pairs_view(r@[i].pairs@) == row_pairs(views(titles@), lines@[i]@, delimiter)
                &&& r@[i].output_name@ == job_id@ + "_"@ + decimal(i as nat) + ".pdf"@
            },
{
    let mut r: Vec<MergeTask> = Vec::new();
    let mut i: usize = 0;
    while i < lines.len()
        invariant
            i <= lines@.len(),
            r@.len() == i,
            forall|k: int|
                0 <= k < i ==> {
                    &&& (#[trigger] r@[k]).row_index == k
                    &&& pairs_view(r@[k].pairs@) == row_pairs(views(titles@), lines@[k]@, delimiter)
                    &&& r@[k].output_name@ == job_id@ + "_"@ + decimal(k as nat) + ".pdf"@
                },
        decreases lines@.len() - i,
    {
        let pairs = row_placeholders(titles, lines[i].as_str(), delimiter);
        let output_name = merged_pdf_name(job_id, i);
        r.push(MergeTask { row_index: i, pairs, output_name });
        i = i + 1;
    }
    r
}

/// The error that stops a merge when the PDF of row `i` (0-based) fails;
/// rows are numbered from 1 in the message.
pub fn merge_row_error(i: usize, detail: &str) -> (r: String)
    requires
        i < usize::MAX,
    ensures
        r@ == "Failed to generate PDF for row "@ + decimal((i + 1) as nat) + ": "@ + detail@,
{
    let mut v = chars_of("Failed to generate PDF for row ");
    let d = decimal_chars((i + 1) as u64);
    extend_chars(&mut v, &d);
    let s = chars_of(": ");
    extend_chars(&mut v, &s);
    let t = chars_of(detail);
    extend_chars(&mut v, &t);
    string_of(&v)
}

/// The name of the preview PDF of a template.
pub fn preview_pdf_name(template_id: &str) -> (r: String)
    ensures
        r@ == template_id@ + ".pdf"@,
{
    let mut v = chars_of(template_id);
    let e = chars_of(".pdf");
    extend_chars(&mut v, &e);
    string_of(&v)
}

// ---------------------------------------------------------------------------
// Template images
// ---------------------------------------------------------------------------

/// The decodable images among stored rows `(id, base64)`, in order.
pub open spec fn decoded_rows(rows: Seq<(Seq<char>, Seq<char>)>) -> Seq<(Seq<char>, Seq<u8>)>
    decreases rows.len(),
{
    if rows.len() == 0 {
        seq![]
    } else {
        let rest = decoded_rows(rows.drop_last());
        match base64_decoding(rows.last().1) {
            Some(b) => rest.push((rows.last().0, b)),
            None => rest,
        }
    }
}

/// The views of image rows.
pub open spec fn image_rows_view(v: Seq<(String, String)>) -> Seq<(Seq<char>, Seq<char>)> {
    v.map_values(|p: (String, String)| (p.0@, p.1@))
}

/// The views of decoded images.
pub open spec fn decoded_view(v: Seq<(String, Vec<u8>)>) -> Seq<(Seq<char>, Seq<u8>)> {
    v.map_values(|p: (String, Vec<u8>)| (p.0@, p.1@))
}

/// Decodes the stored images of a template, dropping those whose Base64
/// text does not decode.
pub fn decode_images(rows: &[(String, String)]) -> (r: Vec<(String, Vec<u8>)>)
    ensures
        decoded_view(r@) == decoded_rows(image_rows_view(rows@)),
{
    let ghost rv = image_rows_view(rows@);
    let mut r: Vec<(String, Vec<u8>)> = Vec::new();
    let mut i: usize = 0;
    while i < rows.len()
        invariant
            i <= rows@.len(),
            rv == image_rows_view(rows@),
            decoded_view(r@) == decoded_rows(rv.take(i as int)),
        decreases rows@.len() - i,
    {
        assert(rv.take(i + 1).drop_last() =~= rv.take(i as int));
        assert(rv.take(i + 1).last() == rv[i as int]);
        match base64_decode(rows[i].1.as_str()) {
            Some(b) => {
                let ghost before = decoded_view(r@);
                r.push((rows[i].0.clone(), b));
                assert(decoded_view(r@) =~= before.push((rows@[i as int].0@, b@)));
            },
            None => {},
        }
        i = i + 1;
    }
    assert(rv.take(rows@.len() as int) =~= rv);
    r
}

/// The identifiers of decoded images.
pub fn image_ids(images: &[(String, Vec<u8>)]) -> (r: Vec<String>)
    ensures
        views(r@) == decoded_view(images@).map_values(|p: (Seq<char>, Seq<u8>)| p.0),
{
    let mut r: Vec<String> = Vec::new();
    let mut i: usize = 0;
    while i < images.len()
        invariant
            i <= images@.len(),
            r@.len() == i,
            forall|k: int| 0 <= k < i ==> #[trigger] r@[k]@ == images@[k].0@,
        decreases images@.len() - i,
    {
        r.push(images[i].0.clone());
        i = i + 1;
    }
    assert(views(r@) =~= decoded_view(images@).map_values(|p: (Seq<char>, Seq<u8>)| p.0));
    r
}

/// The bytes of the image with this identifier; the last one wins when an
/// identifier repeats, as in a map filled in order.
pub open spec fn image_lookup(images: Seq<(Seq<char>, Seq<u8>)>, id: Seq<char>) -> Option<Seq<u8>>
    decreases images.len(),
{
    if images.len() == 0 {
        None
    } else if images.last().0 == id {
        Some(images.last().1)
    } else {
        image_lookup(images.drop_last(), id)
    }
}

/// Finds the bytes of an image by identifier.
pub fn find_image<'a>(images: &'a [(String, Vec<u8>)], id: &str) -> (r: Option<&'a Vec<u8>>)
    ensures
        match r {
            Some(b) => image_lookup(decoded_view(images@), id@) == Some(b@),
            None => image_lookup(decoded_view(images@), id@) is None,
        },
{
    let ghost dv = decoded_view(images@);
    let key = id.to_string();
    let mut i = images.len();
    assert(dv.take(i as int) =~= dv);
    while i > 0
        invariant
            i <= images@.len(),
            dv == decoded_view(images@),
            key@ == id@,
            image_lookup(dv.take(i as int), id@) == image_lookup(dv, id@),
        decreases i,
    {
        assert(dv.take(i as int).drop_last() =~= dv.take(i - 1));
        assert(dv.take(i as int).last() == dv[i - 1]);
        if images[i - 1].0 == key {
            return Some(&images[i - 1].1);
        }
        i = i - 1;
    }
    None
}

} // verus!
