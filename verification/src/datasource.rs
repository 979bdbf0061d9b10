//! The life cycle of a template's CSV data source: upload, verification,
//! rollback to the last verified file, and the decisions of a verification
//! run (fast path, chunked scan, messages).
use vstd::prelude::*;
use crate::csv_check::{
    delimiter_of, detect_delimiter, find_first_invalid, finding_view, header_titles,
    infer_column_checks, column_matches, line_cells, first_problem, column_indices, views, Finding,
    validate_and_normalize_titles,
};
use crate::model::{opt_view, copy_opt_string, ColumnCheck, JobStatus};
use crate::text::{chars_of, decimal, decimal_chars, extend_chars, string_of};

verus! {

broadcast use vstd::string::group_string_axioms;

/// The data-source columns of a row of the `templates` table.
#[derive(Debug)]
pub struct TemplateRecord {
    pub id: String,
    pub datasource_md5: Option<String>,
    pub last_verified_md5: Option<String>,
    pub verified: i64,
}

/// The abstract content of a template row.
pub struct RecordView {
    pub id: Seq<char>,
    pub datasource_md5: Option<Seq<char>>,
    pub last_verified_md5: Option<Seq<char>>,
    pub verified: int,
}

impl View for TemplateRecord {
    type V = RecordView;

    open spec fn view(&self) -> RecordView {
        RecordView {
            id: self.id@,
            datasource_md5: opt_view(self.datasource_md5),
            last_verified_md5: opt_view(self.last_verified_md5),
            verified: self.verified as int,
        }
    }
}

/// An update of the data-source columns of one template row.
#[derive(Debug)]
pub enum RecordWrite {
    /// `last_verified_md5 = ?` (before an upload replaces a verified file).
    SaveLastVerified { last_verified_md5: Option<String> },
    /// `datasource_md5 = ?, verified = 0` (a new upload).
    NewUpload { md5: String },
    /// `verified = 0` (a stale flag before a full scan).
    ResetVerified,
    /// `verified = 1, last_verified_md5 = ?` (a successful verification).
    MarkVerified { verified_md5: Option<String> },
    /// `verified = 1, datasource_md5 = ?` (a rollback after a failure).
    RollBack { restored_md5: Option<String> },
}

/// The row after a write.
pub open spec fn apply_write(r: RecordView, w: RecordWrite) -> RecordView {
    match w {
        RecordWrite::SaveLastVerified { last_verified_md5 } => RecordView {
            last_verified_md5: opt_view(last_verified_md5),
            ..r
        },
        RecordWrite::NewUpload { md5 } => RecordView {
            datasource_md5: Some(md5@),
            verified: 0,
            ..r
        },
        RecordWrite::ResetVerified => RecordView { verified: 0, ..r },
        RecordWrite::MarkVerified { verified_md5 } => RecordView {
            verified: 1,
            last_verified_md5: opt_view(verified_md5),
            ..r
        },
        RecordWrite::RollBack { restored_md5 } => RecordView {
            verified: 1,
            datasource_md5: opt_view(restored_md5),
            ..r
        },
    }
}

/// The row after all writes, in order.
pub open spec fn apply_writes(r: RecordView, ws: Seq<RecordWrite>) -> RecordView
    decreases ws.len(),
{
    if ws.len() == 0 {
        r
    } else {
        apply_writes(apply_write(r, ws[0]), ws.drop_first())
    }
}

/// The row after a file with checksum `md5` is uploaded: a verified file is
/// remembered as the last verified one, the new checksum is stored and the
/// verified flag is cleared.
pub open spec fn after_upload(r: RecordView, md5: Seq<char>) -> RecordView {
    RecordView {
        last_verified_md5: if r.verified == 1 { r.datasource_md5 } else { r.last_verified_md5 },
        datasource_md5: Some(md5),
        verified: 0,
        ..r
    }
}

/// The row after a verification: on success the current file becomes the
/// last verified one; on failure the last verified file is restored. Both
/// leave the row marked verified.
pub open spec fn after_verification(r: RecordView, success: bool) -> RecordView {
    if success {
        RecordView { verified: 1, last_verified_md5: r.datasource_md5, ..r }
    } else {
        RecordView { verified: 1, datasource_md5: r.last_verified_md5, ..r }
    }
}

/// Whether a verification can skip the full scan: the current file is the
/// last verified one and the row is marked verified.
pub open spec fn is_fast_path(r: RecordView) -> bool {
    &&& r.datasource_md5 is Some
    &&& r.last_verified_md5 is Some
    &&& r.datasource_md5 == r.last_verified_md5
    &&& r.verified == 1
}

/// The writes of an upload of a file with checksum `md5`.
pub fn upload_writes(record: &TemplateRecord, md5: &String) -> (ws: Vec<RecordWrite>)
    ensures
        apply_writes(record@, ws@) == after_upload(record@, md5@),
        ws@.len() == (if record.verified == 1 { 2int } else { 1int }),
{
    let mut ws: Vec<RecordWrite> = Vec::new();
    if record.verified == 1 {
        ws.push(
            RecordWrite::SaveLastVerified {
                last_verified_md5: copy_opt_string(&record.datasource_md5),
            },
        );
    }
    ws.push(RecordWrite::NewUpload { md5: md5.clone() });
    proof {
        reveal_with_fuel(apply_writes, 3);
        if record.verified == 1 {
            assert(ws@.drop_first().drop_first() =~= Seq::<RecordWrite>::empty());
        } else {
            assert(ws@.drop_first() =~= Seq::<RecordWrite>::empty());
        }
    }
    ws
}

/// The write that records the outcome of a verification of the file read
/// in `record` (`update_template_verification`).
pub fn update_template_verification(record: &TemplateRecord, success: bool) -> (w: RecordWrite)
    ensures
        apply_write(record@, w) == after_verification(record@, success),
{
    if success {
        RecordWrite::MarkVerified { verified_md5: copy_opt_string(&record.datasource_md5) }
    } else {
        RecordWrite::RollBack { restored_md5: copy_opt_string(&record.last_verified_md5) }
    }
}

/// Uploading a new file over a verified one and then failing its
/// verification restores the file that was verified before, marked
/// verified.
pub proof fn law_failed_verification_restores_previous(r: RecordView, md5: Seq<char>)
    requires
        r.verified == 1,
    ensures
        after_verification(after_upload(r, md5), false).datasource_md5 == r.datasource_md5,
        after_verification(after_upload(r, md5), false).verified == 1,
{
}

/// A successful verification of an uploaded file makes it the last
/// verified file, so that the next verification takes the fast path.
pub proof fn law_verified_upload_takes_fast_path(r: RecordView, md5: Seq<char>)
    ensures
        after_verification(after_upload(r, md5), true).datasource_md5 == Some(md5),
        after_verification(after_upload(r, md5), true).last_verified_md5 == Some(md5),
        is_fast_path(after_verification(after_upload(r, md5), true)),
{
}

/// A freshly uploaded file is never taken as verified.
pub proof fn law_upload_requires_full_scan(r: RecordView, md5: Seq<char>)
    ensures
        !is_fast_path(after_upload(r, md5)),
{
}

// ---------------------------------------------------------------------------
// File names
// ---------------------------------------------------------------------------

/// `{id}_{md5}.csv`, the name under which an uploaded file is stored.
pub open spec fn stored_file_name(id: Seq<char>, md5: Seq<char>) -> Seq<char> {
    id + "_"@ + md5 + ".csv"@
}

/// The name under which a data source is stored.
pub fn data_file_name(template_id: &str, md5: &str) -> (r: String)
    ensures
        r@ == stored_file_name(template_id@, md5@),
{
    let mut v = chars_of(template_id);
    let u = chars_of("_");
    extend_chars(&mut v, &u);
    let m = chars_of(md5);
    extend_chars(&mut v, &m);
    let e = chars_of(".csv");
    extend_chars(&mut v, &e);
    string_of(&v)
}

/// The path of a stored data source relative to the working directory.
pub fn data_file_path(template_id: &str, md5: &str) -> (r: String)
    ensures
        r@ == "./"@ + stored_file_name(template_id@, md5@),
{
    let mut v = chars_of("./");
    let n = data_file_name(template_id, md5);
    let w = chars_of(n.as_str());
    extend_chars(&mut v, &w);
    string_of(&v)
}

// ---------------------------------------------------------------------------
// Verification plan
// ---------------------------------------------------------------------------

/// How a verification run proceeds for a template row.
#[derive(Debug)]
pub enum VerificationPlan {
    /// The file was verified before: only the header is read again.
    FastPath { path: String },
    /// A full scan; the stale verified flag is reset first when set, and
    /// there is no file to scan when the row has no checksum.
    Full { reset_flag: bool, csv_path: Option<String> },
}

/// Chooses between the fast path and a full scan.
pub fn verification_plan(record: &TemplateRecord) -> (p: VerificationPlan)
    ensures
        match p {
            VerificationPlan::FastPath { path } => is_fast_path(record@) && path@ == "./"@
                + stored_file_name(record.id@, record@.datasource_md5->0),
            VerificationPlan::Full { reset_flag, csv_path } => {
                &&& !is_fast_path(record@)
                &&& reset_flag == (record.verified != 0)
                &&& match csv_path {
                    Some(p) => record@.datasource_md5 matches Some(m) && p@ == "./"@
                        + stored_file_name(record.id@, m),
                    None => record@.datasource_md5 is None,
                }
            },
        },
{
    match (&record.datasource_md5, &record.last_verified_md5) {
        (Some(ds), Some(last)) => {
            if *ds == *last && record.verified == 1 {
                return VerificationPlan::FastPath {
                    path: data_file_path(record.id.as_str(), ds.as_str()),
                };
            }
        },
        _ => {},
    }
    let reset_flag = record.verified != 0;
    match &record.datasource_md5 {
        Some(ds) => VerificationPlan::Full {
            reset_flag,
            csv_path: Some(data_file_path(record.id.as_str(), ds.as_str())),
        },
        None => VerificationPlan::Full { reset_flag, csv_path: None },
    }
}


// ---------------------------------------------------------------------------
// Header and first data line
// ---------------------------------------------------------------------------

/// Number of trailing `\n` and `\r` characters of `s`.
pub open spec fn trailing_eol(s: Seq<char>) -> nat
    decreases s.len(),
{
    if s.len() > 0 && (s.last() == '\n' || s.last() == '\r') {
        1 + trailing_eol(s.drop_last())
    } else {
        0
    }
}

/// `s` without its trailing line-ending characters.
pub open spec fn strip_eol(s: Seq<char>) -> Seq<char> {
    s.take(s.len() - trailing_eol(s))
}

proof fn lemma_trailing_eol(s: Seq<char>, i: int)
    requires
        0 <= i <= s.len(),
        forall|j: int| i <= j < s.len() ==> (#[trigger] s[j] == '\n' || s[j] == '\r'),
        i == 0 || (s[i - 1] != '\n' && s[i - 1] != '\r'),
    ensures
        trailing_eol(s) == s.len() - i,
    decreases s.len() - i,
{
    if i < s.len() {
        lemma_trailing_eol(s.drop_last(), i);
    }
}

fn strip_eol_string(s: &str) -> (r: String)
    ensures
        r@ == strip_eol(s@),
{
    let v = chars_of(s);
    let mut i = v.len();
    while i > 0 && (v[i - 1] == '\n' || v[i - 1] == '\r')
        invariant
            i <= v@.len(),
            forall|j: int| i <= j < v@.len() ==> (#[trigger] v@[j] == '\n' || v@[j] == '\r'),
        decreases i,
    {
        i = i - 1;
    }
    proof {
        lemma_trailing_eol(v@, i as int);
    }
    let t = crate::text::sub_chars(&v, 0, i);
    string_of(&t)
}

/// Message: a file with a header and no data line.
pub open spec fn no_data_rows_msg() -> Seq<char> {
    "CSV file does not contain any data rows"@
}

/// The header line and the first data line of a file, from the first two
/// raw lines read (`None` for a second line when the file ended), without
/// their line endings.
pub fn header_and_first_row(first: &str, second: Option<&str>) -> (r: Result<(String, String), String>)
    ensures
        match second {
            None => r matches Err(e) && e@ == no_data_rows_msg(),
            Some(l) => r matches Ok((h, d)) && h@ == strip_eol(first@) && d@ == strip_eol(l@),
        },
{
    let h = strip_eol_string(first);
    match second {
        None => Err("CSV file does not contain any data rows".to_string()),
        Some(l) => Ok((h, strip_eol_string(l))),
    }
}

// ---------------------------------------------------------------------------
// Columns of a data source
// ---------------------------------------------------------------------------

/// What a verification knows about the columns after reading the header.
#[derive(Debug)]
pub struct PreparedColumns {
    pub titles: Vec<String>,
    pub delimiter: char,
    pub columns: Vec<ColumnCheck>,
}

/// Message prefix of a rejected header.
pub open spec fn header_failed_msg(e: Seq<char>) -> Seq<char> {
    "Header validation failed: "@ + e
}

fn concat2(a: &str, b: &str) -> (r: String)
    ensures
        r@ == a@ + b@,
{
    let mut v = chars_of(a);
    let w = chars_of(b);
    extend_chars(&mut v, &w);
    string_of(&v)
}

/// Reads the schema of a data source from its header line and first data
/// line: the delimiter is detected, the titles validated and normalized,
/// and the column types inferred.
pub fn prepare_columns(header_line: &str, second_line: &str) -> (r: Result<PreparedColumns, String>)
    ensures
        match r {
            Ok(p) => {
                &&& p.delimiter == delimiter_of(header_line@)
                &&& header_titles(header_line@, p.delimiter) == Ok::<Seq<Seq<char>>, Seq<char>>(
                    views(p.titles@),
                )
                &&& p.columns@.len() == p.titles@.len()
                &&& forall|k: int|
                    0 <= k < p.columns@.len() ==> column_matches(
                        #[trigger] p.columns@[k],
                        p.titles@[k]@,
                        line_cells(second_line@, p.delimiter),
                        k,
                    )
            },
            Err(e) => header_titles(header_line@, delimiter_of(header_line@)) matches Err(m) && e@
                == header_failed_msg(m),
        },
{
    let delimiter = detect_delimiter(header_line);
    match validate_and_normalize_titles(header_line, delimiter) {
        Ok(titles) => {
            let columns = infer_column_checks(&titles, second_line, delimiter);
            Ok(PreparedColumns { titles, delimiter, columns })
        },
        Err(e) => Err(concat2("Header validation failed: ", e.as_str())),
    }
}

// ---------------------------------------------------------------------------
// Scanning the data lines in chunks
// ---------------------------------------------------------------------------

/// Number of data lines checked together.
pub const CHUNK_SIZE: usize = 250000;

/// Collects data lines, numbered from 0 in the order read, into chunks of a
/// fixed size.
pub struct ChunkScan {
    chunk: Vec<(usize, String)>,
    next_index: usize,
    chunk_size: usize,
    lines: Ghost<Seq<Seq<char>>>,
}

impl ChunkScan {
    /// The lines read so far.
    pub closed spec fn lines(&self) -> Seq<Seq<char>> {
        self.lines@
    }

    /// The lines read so far that are not yet handed out in a chunk.
    pub closed spec fn pending(&self) -> Seq<(usize, String)> {
        self.chunk@
    }

    /// The size of a full chunk.
    pub closed spec fn size(&self) -> nat {
        self.chunk_size as nat
    }

    /// Consistency of the buffer with the lines read.
    pub closed spec fn wf(&self) -> bool {
        &&& self.next_index == self.lines@.len()
        &&& self.chunk_size > 0
        &&& self.chunk@.len() < self.chunk_size
        &&& self.chunk@.len() <= self.next_index
        &&& forall|k: int|
            0 <= k < self.chunk@.len() ==> (#[trigger] self.chunk@[k]).0 == self.next_index
                - self.chunk@.len() + k && self.chunk@[k].1@ == self.lines@[self.next_index
                - self.chunk@.len() + k]
    }

    /// An empty scan handing out chunks of `chunk_size` lines.
    pub fn new(chunk_size: usize) -> (s: ChunkScan)
        requires
            chunk_size > 0,
        ensures
            s.wf(),
            s.lines() == Seq::<Seq<char>>::empty(),
            s.pending().len() == 0,
            s.size() == chunk_size,
    {
        ChunkScan { chunk: Vec::new(), next_index: 0, chunk_size, lines: Ghost(Seq::empty()) }
    }

    /// Number of lines read so far.
    pub fn lines_read(&self) -> (n: usize)
        requires
            self.wf(),
        ensures
            n == self.lines().len(),
    {
        self.next_index
    }

    /// Adds the next line; when that fills a chunk, the chunk is handed out
    /// and the buffer emptied.
    pub fn push_line(&mut self, line: String) -> (full: Option<Vec<(usize, String)>>)
        requires
            old(self).wf(),
            old(self).lines().len() < usize::MAX,
        ensures
            final(self).wf(),
            final(self).lines() == old(self).lines().push(line@),
            final(self).size() == old(self).size(),
            match full {
                Some(c) => {
                    &&& c@ == old(self).pending().push((old(self).lines().len() as usize, line))
                    &&& c@.len() == final(self).size()
                    &&& final(self).pending().len() == 0
                },
                None => final(self).pending() == old(self).pending().push(
                    (old(self).lines().len() as usize, line),
                ) && final(self).pending().len() < final(self).size(),
            },
    {
        let ghost old_chunk = self.chunk@;
        let ghost line_view = line@;
        let idx = self.next_index;
        self.chunk.push((idx, line));
        self.next_index = idx + 1;
        self.lines = Ghost(self.lines@.push(line_view));
        if self.chunk.len() == self.chunk_size {
            let mut full: Vec<(usize, String)> = Vec::new();
            std::mem::swap(&mut full, &mut self.chunk);
            Some(full)
        } else {
            proof {
                assert forall|k: int| 0 <= k < self.chunk@.len() implies (#[trigger] self.chunk@[k]).0
                    == self.next_index - self.chunk@.len() + k && self.chunk@[k].1@ == self.lines@[
                    self.next_index - self.chunk@.len() + k] by {
                    if k < old_chunk.len() {
                        assert(self.chunk@[k] == old_chunk[k]);
                    }
                }
            }
            None
        }
    }

    /// Hands out the lines of a last, partial chunk.
    pub fn finish(self) -> (rest: Vec<(usize, String)>)
        requires
            self.wf(),
        ensures
            rest@ == self.pending(),
    {
        self.chunk
    }
}

/// In every state of a scan, the lines waiting for a chunk are the last
/// ones read, each numbered by its position among all the lines read, and
/// fewer than a chunk holds.
pub proof fn law_pending_lines_are_numbered(scan: &ChunkScan)
    requires
        scan.wf(),
    ensures
        scan.pending().len() < scan.size(),
        scan.pending().len() <= scan.lines().len(),
        forall|k: int|
            0 <= k < scan.pending().len() ==> (#[trigger] scan.pending()[k]).0 == scan.lines().len()
                - scan.pending().len() + k && scan.pending()[k].1@ == scan.lines()[scan.lines().len()
                - scan.pending().len() + k],
{
}

/// Failure status sent for the first invalid row found.
pub open spec fn first_invalid_msg(row: int, title: Seq<char>, reason: Seq<char>) -> Seq<char> {
    "First invalid row at: row "@ + decimal(row as nat) + ", column '"@ + title + "': "@ + reason
}

/// Error with which a verification stops at an invalid row.
pub open spec fn verification_failed_msg(row: int, title: Seq<char>, reason: Seq<char>) -> Seq<char> {
    "Verification failed: row "@ + decimal(row as nat) + ", column '"@ + title + "': "@ + reason
}

fn row_message(prefix: &str, row: usize, title: &String, reason: &String) -> (r: String)
    ensures
        r@ == prefix@ + decimal(row as nat) + ", column '"@ + title@ + "': "@ + reason@,
{
    let mut v = chars_of(prefix);
    let d = decimal_chars(row as u64);
    extend_chars(&mut v, &d);
    let a = chars_of(", column '");
    extend_chars(&mut v, &a);
    let t = chars_of(title.as_str());
    extend_chars(&mut v, &t);
    let b = chars_of("': ");
    extend_chars(&mut v, &b);
    let rs = chars_of(reason.as_str());
    extend_chars(&mut v, &rs);
    string_of(&v)
}

/// The result of checking one chunk.
#[derive(Debug)]
pub enum ChunkVerdict {
    /// Every row of the chunk is valid.
    Valid,
    /// A row is invalid: the status to report, and the error that ends the
    /// verification (after the row is rolled back).
    Invalid { failed_status: JobStatus, error: String },
}

/// Checks a chunk of data lines against the prepared columns: valid when
/// no row has a problem, else the status and error of the first row, in
/// the chunk's order, that has one.
pub fn check_chunk(chunk: &[(usize, String)], prepared: &PreparedColumns) -> (v: ChunkVerdict)
    requires
        forall|k: int| 0 <= k < chunk@.len() ==> (#[trigger] chunk@[k]).0 <= usize::MAX - 2,
    ensures
        match first_problem(
            chunk@,
            prepared.columns@,
            column_indices(views(prepared.titles@), prepared.columns@),
            prepared.delimiter,
        ) {
            None => v is Valid,
            Some((row, title, reason)) => v matches ChunkVerdict::Invalid { failed_status, error }
                && failed_status == JobStatus::Failed(failed_status->Failed_0) && (
            failed_status->Failed_0)@ == first_invalid_msg(row, title, reason) && error@
                == verification_failed_msg(row, title, reason),
        },
{
    match find_first_invalid(chunk, &prepared.columns, &prepared.titles, prepared.delimiter) {
        None => ChunkVerdict::Valid,
        Some((row, title, reason)) => {
            let s = row_message("First invalid row at: row ", row, &title, &reason);
            let e = row_message("Verification failed: row ", row, &title, &reason);
            ChunkVerdict::Invalid { failed_status: JobStatus::Failed(s), error: e }
        },
    }
}

/// The status reported after `lines_processed` lines were checked.
pub fn progress_status(lines_processed: usize) -> (s: JobStatus)
    ensures
        s == JobStatus::InProgress(lines_processed as u32),
{
    JobStatus::InProgress(lines_processed as u32)
}

// ---------------------------------------------------------------------------
// Job outcomes
// ---------------------------------------------------------------------------

/// The final status of a verification job from its outcome: the column
/// schema (as JSON) on success, the error otherwise.
pub fn verify_job_status(outcome: Result<String, String>) -> (s: JobStatus)
    ensures
        match outcome {
            Ok(j) => s matches JobStatus::Completed(c) && c@ == j@,
            Err(e) => s matches JobStatus::Failed(m) && m@ == e@,
        },
{
    match outcome {
        Ok(j) => JobStatus::Completed(j),
        Err(e) => JobStatus::Failed(e),
    }
}

/// The final status of a verification job whose worker could not be joined.
pub fn verify_join_error_status(detail: &str) -> (s: JobStatus)
    ensures
        s matches JobStatus::Failed(m) && m@ == "task join error: "@ + detail@,
{
    JobStatus::Failed(concat2("task join error: ", detail))
}

/// The final status of a merge job from its outcome.
pub fn merge_job_status(outcome: Result<(), String>) -> (s: JobStatus)
    ensures
        match outcome {
            Ok(()) => s matches JobStatus::Completed(c) && c@ == "Merge completed successfully"@,
            Err(e) => s matches JobStatus::Failed(m) && m@ == e@,
        },
{
    match outcome {
        Ok(()) => JobStatus::Completed("Merge completed successfully".to_string()),
        Err(e) => JobStatus::Failed(e),
    }
}

/// The final status of a merge job whose worker could not be joined.
pub fn merge_join_error_status(detail: &str) -> (s: JobStatus)
    ensures
        s matches JobStatus::Failed(m) && m@ == "Task join error: "@ + detail@,
{
    JobStatus::Failed(concat2("Task join error: ", detail))
}

/// Error when the database row cannot be read.
pub fn record_read_error(detail: &str) -> (r: String)
    ensures
        r@ == "Failed to get template from database: "@ + detail@,
{
    concat2("Failed to get template from database: ", detail)
}

/// Error when the stale verified flag cannot be reset.
pub fn reset_flag_error(detail: &str) -> (r: String)
    ensures
        r@ == "Failed to reset verified flag: "@ + detail@,
{
    concat2("Failed to reset verified flag: ", detail)
}

/// Error when the rollback after a missing checksum fails.
pub fn missing_md5_rollback_error(detail: &str) -> (r: String)
    ensures
        r@ == "Datasource MD5 missing; rollback failed: "@ + detail@,
{
    concat2("Datasource MD5 missing; rollback failed: ", detail)
}

/// Error when the rollback after a rejected header fails; `header_error`
/// is the full "Header validation failed: ..." message.
pub fn header_rollback_error(header_error: &str, detail: &str) -> (r: String)
    ensures
        r@ == header_error@ + "; rollback failed: "@ + detail@,
{
    let mut v = chars_of(header_error);
    let a = chars_of("; rollback failed: ");
    extend_chars(&mut v, &a);
    let d = chars_of(detail);
    extend_chars(&mut v, &d);
    string_of(&v)
}

/// What ends a verification when the record has no data file to read.
#[derive(Debug, Clone, Copy, PartialEq, Eq, Structural)]
pub enum MissingData {
    /// The record names no checksum, so no file.
    NoChecksum,
    /// The file the record names is not on disk.
    NoFile,
}

/// The error of a verification that found no data to read.
pub fn missing_data_error(kind: MissingData) -> (r: String)
    ensures
        r@ == match kind {
            MissingData::NoChecksum => "No associated data file to verify"@,
            MissingData::NoFile => "CSV file not found"@,
        },
{
    match kind {
        MissingData::NoChecksum => "No associated data file to verify".to_string(),
        MissingData::NoFile => "CSV file not found".to_string(),
    }
}

} // verus!
