//! The data model shared by the server and the editor: templates, images,
//! data sources, column schemas, jobs and merge progress.
use vstd::prelude::*;

verus! {

/// Progress of a background job.
#[derive(Debug, Clone)]
pub enum JobStatus {
    Pending,
    InProgress(u32),
    Completed(String),
    Failed(String),
}

/// The data type inferred for a data-source column.
#[derive(Debug, Clone, Copy, PartialEq, Eq, Structural)]
pub enum PlaceholderType {
    /// Generic text, the fallback.
    Text,
    /// An integer or decimal number.
    Number,
    /// A value carrying a currency symbol.
    Currency,
    /// A value holding both `@` and `.`.
    Email,
}

/// The inferred schema of one CSV column: its normalized title, its type
/// and the value it holds in the first data row.
#[derive(Debug, Clone)]
pub struct ColumnCheck {
    pub title: String,
    pub placeholder_type: PlaceholderType,
    pub first_row: Option<String>,
}

/// Links a template to its external data.
#[derive(Debug, Clone)]
pub struct DataSource {
    pub template_id: String,
}

/// An image attached to a template, as Base64 text.
#[derive(Debug, Clone)]
pub struct Image {
    pub id: String,
    pub base64: String,
}

/// The state of a whole merge job.
#[derive(Debug)]
pub enum MergeJobState {
    Pending,
    InProgress(u32),
    Completed(u32),
    Failed(String),
}

/// The state of one row of a merge job.
#[derive(Debug)]
pub enum MergeTaskState {
    Pending,
    Processing,
    Completed,
    Failed(String),
}

/// A merge job and its per-row tasks.
#[derive(Debug)]
pub struct MergeJob {
    pub job_id: String,
    pub template_id: String,
    pub state: MergeJobState,
    pub tasks: Vec<MergeTask>,
}

/// The processing of one CSV row within a merge job.
#[derive(Debug)]
pub struct MergeTask {
    pub row_index: usize,
    pub state: MergeTaskState,
    pub error: Option<String>,
}

/// A named, typed field available to templates.
#[derive(Debug)]
pub struct PlaceHolder {
    pub title: String,
    pub placeholder_type: PlaceholderType,
}

/// The content of a template: identifier, text and images.
#[derive(Debug, Clone)]
pub struct Template {
    pub id: String,
    pub text: String,
    pub images: Option<Vec<Image>>,
}

/// A typed variable.
#[derive(Debug)]
pub struct Variable {
    pub id: String,
    pub var_type: VariableType,
}

/// The types a variable can have.
#[derive(Debug, Clone, Copy, PartialEq, Eq, Structural)]
pub enum VariableType {
    Text,
    Number,
    Currency,
    Email,
}

/// Body of a request to verify the CSV of a template.
#[derive(Debug)]
pub struct VerifyCsvRequest {
    pub uuid: String,
}

/// Body of a request to start a merge.
#[derive(Debug)]
pub struct StartMergeRequest {
    pub template_id: String,
}

/// A status change of one job, sent by a worker to the job table.
#[derive(Debug)]
pub struct JobUpdate {
    pub job_id: String,
    pub status: JobStatus,
}

/// Progress reported by the merge worker.
#[derive(Debug)]
pub enum MergeUpdate {
    /// The overall status of the job.
    Job(JobStatus),
    /// One row of `total_rows` was rendered.
    Task { row_index: usize, total_rows: usize },
}

/// The view of an optional string.
pub open spec fn opt_view(o: Option<String>) -> Option<Seq<char>> {
    match o {
        Some(s) => Some(s@),
        None => None,
    }
}

/// A copy of an optional string.
pub fn copy_opt_string(o: &Option<String>) -> (r: Option<String>)
    ensures
        opt_view(r) == opt_view(*o),
{
    match o {
        Some(s) => Some(s.clone()),
        None => None,
    }
}

/// A job status as values.
pub enum StatusView {
    Pending,
    InProgress(u32),
    Completed(Seq<char>),
    Failed(Seq<char>),
}

/// The values of a job status.
pub open spec fn status_view(s: JobStatus) -> StatusView {
    match s {
        JobStatus::Pending => StatusView::Pending,
        JobStatus::InProgress(n) => StatusView::InProgress(n),
        JobStatus::Completed(m) => StatusView::Completed(m@),
        JobStatus::Failed(m) => StatusView::Failed(m@),
    }
}

impl JobStatus {
    /// A copy of this status.
    pub fn duplicate(&self) -> (r: JobStatus)
        ensures
            r.same(*self),
    {
        match self {
            JobStatus::Pending => JobStatus::Pending,
            JobStatus::InProgress(n) => JobStatus::InProgress(*n),
            JobStatus::Completed(s) => JobStatus::Completed(s.clone()),
            JobStatus::Failed(s) => JobStatus::Failed(s.clone()),
        }
    }

    /// Equality of statuses by their contents.
    pub open spec fn same(self, other: JobStatus) -> bool {
        match (self, other) {
            (JobStatus::Pending, JobStatus::Pending) => true,
            (JobStatus::InProgress(a), JobStatus::InProgress(b)) => a == b,
            (JobStatus::Completed(a), JobStatus::Completed(b)) => a@ == b@,
            (JobStatus::Failed(a), JobStatus::Failed(b)) => a@ == b@,
            _ => false,
        }
    }

    /// Whether the job has reached a final state.
    pub open spec fn spec_is_terminal(self) -> bool {
        self is Completed || self is Failed
    }

    /// Whether the job has reached a final state (completed or failed).
    pub fn is_terminal(&self) -> (r: bool)
        ensures
            r == self.spec_is_terminal(),
    {
        match self {
            JobStatus::Completed(_) | JobStatus::Failed(_) => true,
            _ => false,
        }
    }
}

/// A column schema as plain values: title, type and first-row value.
pub open spec fn column_view(c: ColumnCheck) -> (Seq<char>, PlaceholderType, Option<Seq<char>>) {
    (c.title@, c.placeholder_type, opt_view(c.first_row))
}

/// A list of column schemas as plain values.
pub open spec fn columns_view(v: Seq<ColumnCheck>) -> Seq<(Seq<char>, PlaceholderType, Option<Seq<char>>)> {
    v.map_values(|c: ColumnCheck| column_view(c))
}

impl ColumnCheck {
    /// A copy of this column schema.
    pub fn duplicate(&self) -> (r: ColumnCheck)
        ensures
            column_view(r) == column_view(*self),
            r.title@ == self.title@,
            r.placeholder_type == self.placeholder_type,
            opt_view(r.first_row) == opt_view(self.first_row),
    {
        ColumnCheck {
            title: self.title.clone(),
            placeholder_type: self.placeholder_type,
            first_row: copy_opt_string(&self.first_row),
        }
    }
}

/// An image as values: identifier and Base64 text.
pub open spec fn image_view(i: Image) -> (Seq<char>, Seq<char>) {
    (i.id@, i.base64@)
}

/// A list of images as values.
pub open spec fn images_view(v: Seq<Image>) -> Seq<(Seq<char>, Seq<char>)> {
    v.map_values(|i: Image| image_view(i))
}

/// An optional list of images as values.
pub open spec fn opt_images_view(o: Option<Vec<Image>>) -> Option<Seq<(Seq<char>, Seq<char>)>> {
    match o {
        Some(v) => Some(images_view(v@)),
        None => None,
    }
}

/// A template as values.
pub struct TemplateView {
    pub id: Seq<char>,
    pub text: Seq<char>,
    pub images: Option<Seq<(Seq<char>, Seq<char>)>>,
}

/// The values of a template.
pub open spec fn template_view(t: Template) -> TemplateView {
    TemplateView { id: t.id@, text: t.text@, images: opt_images_view(t.images) }
}

/// A copy of a list of images.
pub fn copy_images(v: &Vec<Image>) -> (r: Vec<Image>)
    ensures
        images_view(r@) == images_view(v@),
{
    let mut r: Vec<Image> = Vec::new();
    let mut i: usize = 0;
    while i < v.len()
        invariant
            i <= v@.len(),
            images_view(r@) == images_view(v@.take(i as int)),
        decreases v@.len() - i,
    {
        r.push(v[i].duplicate());
        assert(images_view(v@.take(i + 1)) =~= images_view(v@.take(i as int)).push(image_view(v@[i as int])));
        assert(images_view(r@) =~= images_view(v@.take(i as int)).push(image_view(v@[i as int])));
        i = i + 1;
    }
    assert(v@.take(v@.len() as int) =~= v@);
    r
}

impl Template {
    /// A copy of this template.
    pub fn duplicate(&self) -> (r: Template)
        ensures
            template_view(r) == template_view(*self),
    {
        let images = match &self.images {
            Some(v) => Some(copy_images(v)),
            None => None,
        };
        Template { id: self.id.clone(), text: self.text.clone(), images }
    }
}

impl Image {
    /// A copy of this image.
    pub fn duplicate(&self) -> (r: Image)
        ensures
            r.id@ == self.id@,
            r.base64@ == self.base64@,
    {
        Image { id: self.id.clone(), base64: self.base64.clone() }
    }
}

} // verus!
