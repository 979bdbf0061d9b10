//! The CSV data-source panel of the editor: the state it keeps about the
//! upload and the verification job of a template's CSV, what each event
//! does to it, and the label and look of its button.
use vstd::prelude::*;
use crate::cursor::extract_ticket_from_text;
use crate::encoding::{group_thousands, json_quoted};
use crate::model::{columns_view, opt_view, ColumnCheck, JobStatus};
use crate::styles::byte_len;
use crate::text::{chars_of, decimal, string_of, trim};

verus! {

broadcast use vstd::string::group_string_axioms;

/// The outcome of a verification, as the panel keeps it: `Ok(true)` when
/// the CSV verified, `Err` with the reason otherwise.
pub open spec fn result_view(r: Option<Result<bool, String>>) -> Option<Result<bool, Seq<char>>> {
    match r {
        Some(Ok(b)) => Some(Ok(b)),
        Some(Err(e)) => Some(Err(e@)),
        None => None,
    }
}

/// The state of the CSV panel.
pub struct CsvDataSourceComponent {
    /// Whether a verification job is running.
    pub is_verifying: bool,
    /// The outcome of the last verification.
    pub verify_result: Option<Result<bool, String>>,
    /// The ticket of the current job.
    pub job_ticket: Option<String>,
    /// The last status polled for the job.
    pub job_status: Option<JobStatus>,
    /// The columns found by a successful verification.
    pub column_checks: Option<Vec<ColumnCheck>>,
    /// The template the last verification was started for.
    pub started_for_template: Option<String>,
    /// Whether the management dialog is shown.
    pub show_modal: bool,
    /// Whether an upload is running.
    pub uploading: bool,
    /// The error of the last upload.
    pub upload_error: Option<String>,
    /// The column selected in the list.
    pub selected_column: Option<usize>,
    /// Whether the warning before an upload is shown.
    pub show_confirm_upload: bool,
}

/// What a poll of the job's status brought back.
#[derive(Debug)]
pub enum PollFetch {
    /// The request failed; the error's text.
    RequestFailed(String),
    /// The response body could not be read.
    BodyUnreadable,
    /// The body is not JSON.
    NotJson,
    /// The JSON is not a job status.
    NotJobStatus,
    /// The status of the job.
    Status(JobStatus),
}

/// What the poller reports to the panel.
#[derive(Debug)]
pub enum PollReport {
    /// A new status of the job.
    Status(JobStatus),
    /// The polling failed; the reason.
    Error(String),
}

/// What the start of a verification led to.
#[derive(Debug)]
pub enum VerifyStart {
    /// The job's ticket: polling starts.
    Ticket(String),
    /// The verification could not start; the reason.
    Failed(String),
}

impl CsvDataSourceComponent {
    /// A panel with nothing shown, nothing running and nothing known.
    pub fn new() -> (r: Self)
        ensures
            !r.is_verifying,
            r.verify_result is None,
            r.job_ticket is None,
            r.job_status is None,
            r.column_checks is None,
            r.started_for_template is None,
            !r.show_modal,
            !r.uploading,
            r.upload_error is None,
            r.selected_column is None,
            !r.show_confirm_upload,
    {
        CsvDataSourceComponent {
            is_verifying: false,
            verify_result: None,
            job_ticket: None,
            job_status: None,
            column_checks: None,
            started_for_template: None,
            show_modal: false,
            uploading: false,
            upload_error: None,
            selected_column: None,
            show_confirm_upload: false,
        }
    }

    /// The verification request ended without a job.
    pub fn verify_completed(&mut self, res: Result<bool, String>) -> (redraw: bool)
        ensures
            redraw,
            !final(self).is_verifying,
            result_view(final(self).verify_result) == result_view(Some(res)),
            final(self).job_status == old(self).job_status,
            final(self).column_checks == old(self).column_checks,
    {
        self.is_verifying = false;
        self.verify_result = Some(res);
        true
    }

    /// The job's ticket arrived: the job is pending.
    pub fn ticket_received(&mut self, ticket: String) -> (redraw: bool)
        ensures
            redraw,
            opt_view(final(self).job_ticket) == Some(ticket@),
            final(self).job_status == Some(JobStatus::Pending),
            final(self).is_verifying == old(self).is_verifying,
            final(self).verify_result == old(self).verify_result,
    {
        self.job_ticket = Some(ticket);
        self.job_status = Some(JobStatus::Pending);
        true
    }

    /// A polled status arrived: it is kept, and the job
    /// counts as running unless it completed or failed; a failure becomes
    /// the outcome. The columns of a completed job are applied apart, with
    /// `apply_completed`.
    pub fn status_updated(&mut self, status: JobStatus) -> (redraw: bool)
        ensures
            redraw,
            final(self).job_status is Some,
            final(self).job_status->0.same(status),
            final(self).is_verifying == !status.spec_is_terminal(),
            match status {
                JobStatus::Failed(m) => result_view(final(self).verify_result) == Some(
                    Err::<bool, Seq<char>>(m@),
                ),
                _ => final(self).verify_result == old(self).verify_result,
            },
            final(self).column_checks == old(self).column_checks,
    {
        self.job_status = Some(status.duplicate());
        match status {
            JobStatus::Pending | JobStatus::InProgress(_) => {
                self.is_verifying = true;
            },
            JobStatus::Completed(_) => {
                self.is_verifying = false;
            },
            JobStatus::Failed(m) => {
                self.is_verifying = false;
                self.verify_result = Some(Err(m));
            },
        }
        true
    }

    /// Applies the columns read from a completed job's payload
    /// (`apply_completed`): `parsed` is what reading the payload as a list
    /// of columns gave, or the reader's error. On success the columns are
    /// kept, the outcome is a success and a copy of them is given for the
    /// editor; otherwise they are dropped and the error is the outcome.
    pub fn apply_completed(&mut self, parsed: Result<Vec<ColumnCheck>, String>) -> (notify: Option<
        Vec<ColumnCheck>,
    >)
        ensures
            match parsed {
                Ok(cols) => {
                    &&& final(self).column_checks == Some(cols)
                    &&& final(self).verify_result == Some(Ok::<bool, String>(true))
                    &&& notify is Some
                    &&& columns_view(notify->0@) == columns_view(cols@)
                },
                Err(e) => {
                    &&& final(self).column_checks is None
                    &&& result_view(final(self).verify_result) == Some(
                        Err::<bool, Seq<char>>(deserialize_msg(e@)),
                    )
                    &&& notify is None
                },
            },
            final(self).job_status == old(self).job_status,
            final(self).is_verifying == old(self).is_verifying,
            final(self).job_ticket == old(self).job_ticket,
            final(self).started_for_template == old(self).started_for_template,
            final(self).show_modal == old(self).show_modal,
            final(self).uploading == old(self).uploading,
            final(self).upload_error == old(self).upload_error,
            final(self).selected_column == old(self).selected_column,
            final(self).show_confirm_upload == old(self).show_confirm_upload,
    {
        match parsed {
            Ok(cols) => {
                let copy = copy_columns(&cols);
                self.column_checks = Some(cols);
                self.verify_result = Some(Ok(true));
                Some(copy)
            },
            Err(e) => {
                self.column_checks = None;
                let mut m = chars_of("Deserialize ColumnCheck: ");
                crate::text::extend_chars(&mut m, &chars_of(e.as_str()));
                self.verify_result = Some(Err(string_of(&m)));
                None
            },
        }
    }

    /// Polling failed.
    pub fn verify_error(&mut self, e: String) -> (redraw: bool)
        ensures
            redraw,
            !final(self).is_verifying,
            result_view(final(self).verify_result) == Some(Err::<bool, Seq<char>>(e@)),
            final(self).job_status == old(self).job_status,
    {
        self.is_verifying = false;
        self.verify_result = Some(Err(e));
        true
    }

    /// Opens or closes the dialog, clearing the upload error.
    pub fn toggle_modal(&mut self) -> (redraw: bool)
        ensures
            redraw,
            final(self).show_modal == !old(self).show_modal,
            final(self).upload_error is None,
            final(self).uploading == old(self).uploading,
            final(self).show_confirm_upload == old(self).show_confirm_upload,
    {
        self.show_modal = !self.show_modal;
        self.upload_error = None;
        true
    }

    /// Shows the warning before an upload.
    pub fn trigger_file_picker(&mut self) -> (redraw: bool)
        ensures
            redraw,
            final(self).show_confirm_upload,
            final(self).show_modal == old(self).show_modal,
    {
        self.show_confirm_upload = true;
        true
    }

    /// The warning was accepted: it closes and the
    /// file picker opens; no redraw.
    pub fn accept_upload_warning(&mut self) -> (redraw: bool)
        ensures
            !redraw,
            !final(self).show_confirm_upload,
            final(self).show_modal == old(self).show_modal,
    {
        self.show_confirm_upload = false;
        false
    }

    /// The warning was dismissed.
    pub fn reject_upload_warning(&mut self) -> (redraw: bool)
        ensures
            redraw,
            !final(self).show_confirm_upload,
            final(self).show_modal == old(self).show_modal,
    {
        self.show_confirm_upload = false;
        true
    }

    /// A file was picked: the upload starts.
    pub fn file_picked(&mut self) -> (redraw: bool)
        ensures
            redraw,
            final(self).uploading,
            final(self).upload_error is None,
            final(self).show_modal == old(self).show_modal,
    {
        self.uploading = true;
        self.upload_error = None;
        true
    }

    /// The upload ended. On success the dialog closes and,
    /// when the panel has a template, a new verification starts for it: its
    /// identifier is given back. On failure the error is shown.
    pub fn upload_result(&mut self, res: Result<(), String>, template_id: Option<String>) -> (start: Option<
        String,
    >)
        ensures
            !final(self).uploading,
            match res {
                Ok(()) => {
                    &&& final(self).upload_error is None
                    &&& !final(self).show_modal
                    &&& opt_view(start) == opt_view(template_id)
                    &&& match template_id {
                        Some(id) => {
                            &&& final(self).is_verifying
                            &&& final(self).column_checks is None
                            &&& opt_view(final(self).started_for_template) == Some(id@)
                        },
                        None => {
                            &&& final(self).is_verifying == old(self).is_verifying
                            &&& final(self).column_checks == old(self).column_checks
                            &&& final(self).started_for_template == old(self).started_for_template
                        },
                    }
                },
                Err(e) => {
                    &&& *final(self) == (CsvDataSourceComponent {
                        uploading: false,
                        upload_error: Some(e),
                        ..*old(self)
                    })
                    &&& start is None
                },
            },
            res is Ok ==> {
                &&& final(self).verify_result == old(self).verify_result
                &&& final(self).job_ticket == old(self).job_ticket
                &&& final(self).job_status == old(self).job_status
                &&& final(self).selected_column == old(self).selected_column
                &&& final(self).show_confirm_upload == old(self).show_confirm_upload
            },
    {
        self.uploading = false;
        match res {
            Ok(()) => {
                self.upload_error = None;
                self.show_modal = false;
                match template_id {
                    Some(id) => {
                        self.is_verifying = true;
                        self.column_checks = None;
                        self.started_for_template = Some(id.clone());
                        Some(id)
                    },
                    None => None,
                }
            },
            Err(e) => {
                self.upload_error = Some(e);
                None
            },
        }
    }

    /// A column was clicked.
    pub fn select_column(&mut self, idx: usize) -> (redraw: bool)
        ensures
            redraw,
            final(self).selected_column == Some(idx),
            final(self).show_modal == old(self).show_modal,
    {
        self.selected_column = Some(idx);
        true
    }

    /// A column was double-clicked: it is selected,
    /// the dialog closes, and the column, when there is one at `idx`, is
    /// given for the editor to insert.
    pub fn double_click_column(&mut self, idx: usize) -> (col: Option<ColumnCheck>)
        ensures
            final(self).selected_column == Some(idx),
            !final(self).show_modal,
            final(self).column_checks == old(self).column_checks,
            match old(self).column_checks {
                Some(v) => if idx < v@.len() {
                    col is Some && col->0.title@ == v@[idx as int].title@ && col->0.placeholder_type
                        == v@[idx as int].placeholder_type && opt_view(col->0.first_row) == opt_view(
                        v@[idx as int].first_row,
                    )
                } else {
                    col is None
                },
                None => col is None,
            },
    {
        self.selected_column = Some(idx);
        let col = match &self.column_checks {
            Some(v) => if idx < v.len() {
                Some(v[idx].duplicate())
            } else {
                None
            },
            None => None,
        };
        self.show_modal = false;
        col
    }

    /// Starts a verification for `template_id` unless one was already
    /// started for it: the identifier to verify is given back.
    fn start_for(&mut self, template_id: Option<String>) -> (start: Option<String>)
        ensures
            match template_id {
                Some(id) => if opt_view(old(self).started_for_template) != Some(id@) {
                    &&& opt_view(start) == Some(id@)
                    &&& final(self).is_verifying
                    &&& opt_view(final(self).started_for_template) == Some(id@)
                    &&& final(self).column_checks == old(self).column_checks
                } else {
                    start is None && *final(self) == *old(self)
                },
                None => start is None && *final(self) == *old(self),
            },
    {
        match template_id {
            Some(id) => {
                let already = match &self.started_for_template {
                    Some(s) => *s == id,
                    None => false,
                };
                if already {
                    None
                } else {
                    self.is_verifying = true;
                    self.started_for_template = Some(id.clone());
                    Some(id)
                }
            },
            None => None,
        }
    }

    /// The panel's template changed: a verification starts for
    /// the new one, unless it is the same or one was already started.
    pub fn template_changed(&mut self, old_id: Option<String>, new_id: Option<String>) -> (start: Option<
        String,
    >)
        ensures
            opt_view(old_id) == opt_view(new_id) ==> start is None && *final(self) == *old(self),
            opt_view(old_id) != opt_view(new_id) ==> match new_id {
                Some(id) => if opt_view(old(self).started_for_template) != Some(id@) {
                    &&& opt_view(start) == Some(id@)
                    &&& final(self).is_verifying
                    &&& opt_view(final(self).started_for_template) == Some(id@)
                } else {
                    start is None && *final(self) == *old(self)
                },
                None => start is None && *final(self) == *old(self),
            },
    {
        let same = match (&old_id, &new_id) {
            (Some(a), Some(b)) => *a == *b,
            (None, None) => true,
            _ => false,
        };
        if same {
            return None;
        }
        self.start_for(new_id)
    }

    /// The panel was drawn (`rendered`): on the first time, a verification
    /// starts for its template unless one was already started.
    pub fn rendered(&mut self, first_render: bool, template_id: Option<String>) -> (start: Option<String>)
        ensures
            !first_render ==> start is None && *final(self) == *old(self),
            first_render ==> match template_id {
                Some(id) => if opt_view(old(self).started_for_template) != Some(id@) {
                    &&& opt_view(start) == Some(id@)
                    &&& final(self).is_verifying
                    &&& opt_view(final(self).started_for_template) == Some(id@)
                } else {
                    start is None && *final(self) == *old(self)
                },
                None => start is None && *final(self) == *old(self),
            },
    {
        if !first_render {
            return None;
        }
        self.start_for(template_id)
    }
}

/// The outcome text of a payload that is not a list of columns.
pub open spec fn deserialize_msg(e: Seq<char>) -> Seq<char> {
    "Deserialize ColumnCheck: "@ + e
}

/// A copy of a list of columns.
pub fn copy_columns(v: &Vec<ColumnCheck>) -> (r: Vec<ColumnCheck>)
    ensures
        columns_view(r@) == columns_view(v@),
        crate::editor::titles_of(r@) == crate::editor::titles_of(v@),
        r@.len() == v@.len(),
        forall|i: int|
            0 <= i < v@.len() ==> (#[trigger] r@[i]).placeholder_type == v@[i].placeholder_type
                && opt_view(r@[i].first_row) == opt_view(v@[i].first_row),
{
    let mut r: Vec<ColumnCheck> = Vec::new();
    let mut i: usize = 0;
    while i < v.len()
        invariant
            i <= v@.len(),
            r@.len() == i,
            forall|j: int| 0 <= j < i ==> (#[trigger] r@[j]).title@ == v@[j].title@,
            forall|j: int|
                0 <= j < i ==> (#[trigger] r@[j]).placeholder_type == v@[j].placeholder_type
                    && opt_view(r@[j].first_row) == opt_view(v@[j].first_row),
        decreases v@.len() - i,
    {
        r.push(v[i].duplicate());
        i = i + 1;
    }
    assert(crate::editor::titles_of(r@) =~= crate::editor::titles_of(v@));
    assert(columns_view(r@) =~= columns_view(v@));
    r
}

// ---------------------------------------------------------------------------
// Talking to the server
// ---------------------------------------------------------------------------

/// The body of the request that starts a verification: a JSON object
/// with the template's identifier under `uuid`.
pub open spec fn verify_body(id: Seq<char>) -> Seq<char> {
    "{\"uuid\":"@ + json_quoted(id) + "}"@
}

/// The body of the verification request for template `template_id`.
pub fn verify_request_body(template_id: &str) -> (r: String)
    ensures
        r@ == verify_body(template_id@),
{
    let lit = crate::encoding::json_string_literal(template_id);
    let mut v = chars_of("{\"uuid\":");
    crate::text::extend_chars(&mut v, &chars_of(lit.as_str()));
    crate::text::extend_chars(&mut v, &chars_of("}"));
    string_of(&v)
}

/// The `json` part of an upload: the template's identifier as written,
/// without escaping.
pub open spec fn upload_json(id: Seq<char>) -> Seq<char> {
    "{\"template_id\":\""@ + id + "\"}"@
}

/// The `json` part of the upload form for template `template_id` (none
/// gives the empty identifier).
pub fn upload_form_json(template_id: &Option<String>) -> (r: String)
    ensures
        r@ == upload_json(
            match template_id {
                Some(t) => t@,
                None => Seq::<char>::empty(),
            },
        ),
{
    let mut v = chars_of("{\"template_id\":\"");
    match template_id {
        Some(t) => crate::text::extend_chars(&mut v, &chars_of(t.as_str())),
        None => {},
    }
    crate::text::extend_chars(&mut v, &chars_of("\"}"));
    string_of(&v)
}

/// `HTTP <status>: <text>`, the report of a refused request.
pub open spec fn http_error_msg(status: u16, text: Seq<char>) -> Seq<char> {
    "HTTP "@ + decimal(status as nat) + ": "@ + text
}

fn http_error(status: u16, text: &str) -> (r: String)
    ensures
        r@ == http_error_msg(status, text@),
{
    let mut v = chars_of("HTTP ");
    crate::text::extend_chars(&mut v, &crate::text::decimal_chars(status as u64));
    crate::text::extend_chars(&mut v, &chars_of(": "));
    crate::text::extend_chars(&mut v, &chars_of(text));
    string_of(&v)
}

/// What the answer to the verification request leads to: with status 200,
/// the trimmed body is the ticket, unless it is empty; any other status is
/// reported with the body.
pub fn verify_response(status: u16, text: &str) -> (r: VerifyStart)
    ensures
        status == 200 && trim(text@).len() > 0 ==> (r matches VerifyStart::Ticket(t) && t@ == trim(
            text@,
        )),
        status == 200 && trim(text@).len() == 0 ==> (r matches VerifyStart::Failed(m) && m@
            == "Empty ticket returned from verify endpoint"@),
        status != 200 ==> (r matches VerifyStart::Failed(m) && m@ == http_error_msg(status, text@)),
{
    if status == 200 {
        match extract_ticket_from_text(text) {
            Some(t) => VerifyStart::Ticket(t),
            None => VerifyStart::Failed(
                String::from_str("Empty ticket returned from verify endpoint"),
            ),
        }
    } else {
        VerifyStart::Failed(http_error(status, text))
    }
}

/// What the answer to an upload leads to: success for a status from 200
/// to 299, else the status and body.
pub fn upload_response(status: u16, text: &str) -> (r: Result<(), String>)
    ensures
        200 <= status < 300 ==> r is Ok,
        !(200 <= status < 300) ==> (r matches Err(m) && m@ == http_error_msg(status, text@)),
{
    if 200 <= status && status < 300 {
        Ok(())
    } else {
        Err(http_error(status, text))
    }
}

/// `Network error, status <status>`, the report of an upload that failed
/// on the way.
pub fn upload_network_error(status: u16) -> (r: String)
    ensures
        r@ == "Network error, status "@ + decimal(status as nat),
{
    let mut v = chars_of("Network error, status ");
    crate::text::extend_chars(&mut v, &crate::text::decimal_chars(status as u64));
    string_of(&v)
}

/// What one poll of the job's status reports, and whether polling stops:
/// a status is reported and polling goes on until it is final; any failure
/// is reported and stops it.
pub fn poll_decision(fetch: PollFetch) -> (r: (PollReport, bool))
    ensures
        match fetch {
            PollFetch::Status(s) => r.0 matches PollReport::Status(t) && t.same(s) && r.1
                == s.spec_is_terminal(),
            PollFetch::RequestFailed(e) => r.0 matches PollReport::Error(m) && m@ == e@ && r.1,
            PollFetch::BodyUnreadable => r.0 matches PollReport::Error(m) && m@
                == "Could not read response body"@ && r.1,
            PollFetch::NotJson => r.0 matches PollReport::Error(m) && m@
                == "Response is not valid JSON"@ && r.1,
            PollFetch::NotJobStatus => r.0 matches PollReport::Error(m) && m@
                == "Could not parse job status"@ && r.1,
        },
{
    match fetch {
        PollFetch::Status(s) => {
            let done = s.is_terminal();
            (PollReport::Status(s), done)
        },
        PollFetch::RequestFailed(e) => (PollReport::Error(e), true),
        PollFetch::BodyUnreadable => (
            PollReport::Error(String::from_str("Could not read response body")),
            true,
        ),
        PollFetch::NotJson => (PollReport::Error(String::from_str("Response is not valid JSON")), true),
        PollFetch::NotJobStatus => (
            PollReport::Error(String::from_str("Could not parse job status")),
            true,
        ),
    }
}

/// The address polled for job `ticket`.
pub fn status_url(ticket: &str) -> (r: String)
    ensures
        r@ == "/api/data_sources/csv/status/"@ + ticket@,
{
    let mut v = chars_of("/api/data_sources/csv/status/");
    crate::text::extend_chars(&mut v, &chars_of(ticket));
    string_of(&v)
}

// ---------------------------------------------------------------------------
// The panel's button
// ---------------------------------------------------------------------------

/// The label of the panel's button: the job's status when there is one,
/// else the outcome of the verification.
pub open spec fn status_label(
    status: Option<JobStatus>,
    verifying: bool,
    result: Option<Result<bool, Seq<char>>>,
) -> Seq<char> {
    match status {
        Some(JobStatus::Pending) => "Verificando CSV..."@,
        Some(JobStatus::InProgress(n)) => "Líneas verificadas: "@ + group_thousands(decimal(n as nat)),
        Some(JobStatus::Completed(_)) => "CSV Verificado"@,
        Some(JobStatus::Failed(m)) => "Error: "@ + m@,
        None => if verifying {
            "Verificando CSV..."@
        } else {
            match result {
                Some(Ok(true)) => "CSV Verificado"@,
                Some(Err(e)) => "Error: "@ + e,
                _ => "CSV"@,
            }
        },
    }
}

/// Whether the panel shows an error: the job failed or the outcome is one.
pub open spec fn shows_error(status: Option<JobStatus>, result: Option<Result<bool, Seq<char>>>) -> bool {
    (status matches Some(JobStatus::Failed(_))) || (result matches Some(Err(_)))
}

/// The CSS classes of the button: `limited` for a label longer than 30
/// bytes, `error` when it shows an error.
pub open spec fn button_classes(label: Seq<char>, error: bool) -> Seq<char> {
    (if byte_len(label) > 30 {
        "icon-btn limited"@
    } else {
        "icon-btn"@
    }) + (if error {
        " error"@
    } else {
        Seq::<char>::empty()
    })
}

impl CsvDataSourceComponent {
    /// The label of the panel's button.
    pub fn status_text(&self) -> (r: String)
        ensures
            r@ == status_label(self.job_status, self.is_verifying, result_view(self.verify_result)),
    {
        match &self.job_status {
            Some(JobStatus::Pending) => String::from_str("Verificando CSV..."),
            Some(JobStatus::InProgress(n)) => {
                let mut v = chars_of("Líneas verificadas: ");
                let g = crate::encoding::format_count_es(*n);
                crate::text::extend_chars(&mut v, &chars_of(g.as_str()));
                string_of(&v)
            },
            Some(JobStatus::Completed(_)) => String::from_str("CSV Verificado"),
            Some(JobStatus::Failed(m)) => {
                let mut v = chars_of("Error: ");
                crate::text::extend_chars(&mut v, &chars_of(m.as_str()));
                string_of(&v)
            },
            None => if self.is_verifying {
                String::from_str("Verificando CSV...")
            } else {
                match &self.verify_result {
                    Some(Ok(true)) => String::from_str("CSV Verificado"),
                    Some(Err(e)) => {
                        let mut v = chars_of("Error: ");
                        crate::text::extend_chars(&mut v, &chars_of(e.as_str()));
                        string_of(&v)
                    },
                    _ => String::from_str("CSV"),
                }
            },
        }
    }

    /// Whether the panel shows an error.
    pub fn is_error(&self) -> (r: bool)
        ensures
            r == shows_error(self.job_status, result_view(self.verify_result)),
    {
        let failed = match &self.job_status {
            Some(JobStatus::Failed(_)) => true,
            _ => false,
        };
        let err = match &self.verify_result {
            Some(Err(_)) => true,
            _ => false,
        };
        failed || err
    }

    /// The CSS classes of the panel's button.
    pub fn button_class(&self) -> (r: String)
        requires
            status_label(self.job_status, self.is_verifying, result_view(self.verify_result)).len()
                <= usize::MAX / 8,
        ensures
            r@ == button_classes(
                status_label(self.job_status, self.is_verifying, result_view(self.verify_result)),
                shows_error(self.job_status, result_view(self.verify_result)),
            ),
    {
        let label = self.status_text();
        let c = chars_of(label.as_str());
        proof {
            crate::styles::lemma_byte_len_bound(c@);
        }
        let n = crate::styles::byte_len_of(&c, 0, c.len());
        assert(c@.subrange(0, c@.len() as int) =~= c@);
        let mut v = if n > 30 {
            chars_of("icon-btn limited")
        } else {
            chars_of("icon-btn")
        };
        if self.is_error() {
            crate::text::extend_chars(&mut v, &chars_of(" error"));
        } else {
            assert(v@ + Seq::<char>::empty() =~= v@);
        }
        string_of(&v)
    }
}

// ---------------------------------------------------------------------------
// The dialog
// ---------------------------------------------------------------------------

impl CsvDataSourceComponent {
    /// The label of the upload button: busy while uploading.
    pub fn upload_button_label(&self) -> (r: String)
        ensures
            r@ == if self.uploading {
                " Subiendo..."@
            } else {
                " Subir archivo"@
            },
    {
        if self.uploading {
            String::from_str(" Subiendo...")
        } else {
            String::from_str(" Subir archivo")
        }
    }

    /// The tooltip of the upload button.
    pub fn upload_button_title(&self) -> (r: String)
        ensures
            r@ == if self.uploading {
                "Subiendo..."@
            } else {
                "Subir archivo"@
            },
    {
        if self.uploading {
            String::from_str("Subiendo...")
        } else {
            String::from_str("Subir archivo")
        }
    }
}

/// The tooltip of a column in the list.
pub fn column_tooltip(title: &str) -> (r: String)
    ensures
        r@ == "Haz doble click en '"@ + title@ + "' para insertarla en la plantilla"@,
{
    let mut v = chars_of("Haz doble click en '");
    crate::text::extend_chars(&mut v, &chars_of(title));
    crate::text::extend_chars(&mut v, &chars_of("' para insertarla en la plantilla"));
    string_of(&v)
}

/// The accessible label of a column in the list.
pub fn column_aria_label(title: &str) -> (r: String)
    ensures
        r@ == "Insertar columna "@ + title@,
{
    let mut v = chars_of("Insertar columna ");
    crate::text::extend_chars(&mut v, &chars_of(title));
    string_of(&v)
}

} // verus!
