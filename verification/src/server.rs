//! The server's own rules: the table of background jobs and what a status
//! request is answered, the embedded front-end files, and how saving and
//! loading a template treat its identifier and images.
use vstd::prelude::*;
use crate::model::{
    image_view, images_view, opt_images_view, status_view, template_view, DataSource, Image,
    JobStatus, JobUpdate, StatusView, Template, TemplateView,
};
use crate::text::{chars_of, string_of, trim};

verus! {

broadcast use vstd::string::group_string_axioms;

// ---------------------------------------------------------------------------
// The table of jobs
// ---------------------------------------------------------------------------

/// The status of every known job, by identifier.
pub struct JobTable {
    entries: Vec<(String, JobStatus)>,
    statuses: Ghost<Map<Seq<char>, StatusView>>,
}

impl View for JobTable {
    type V = Map<Seq<char>, StatusView>;

    closed spec fn view(&self) -> Map<Seq<char>, StatusView> {
        self.statuses@
    }
}

impl JobTable {
    /// Each identifier occurs once, and the statuses are those of the
    /// entries.
    pub closed spec fn wf(&self) -> bool {
        &&& forall|i: int, j: int|
            0 <= i < j < self.entries@.len() ==> (#[trigger] self.entries@[i]).0@
                != (#[trigger] self.entries@[j]).0@
        &&& forall|k: Seq<char>|
            #[trigger] self.statuses@.contains_key(k) <==> exists|i: int|
                0 <= i < self.entries@.len() && (#[trigger] self.entries@[i]).0@ == k
        &&& forall|i: int|
            0 <= i < self.entries@.len() ==> self.statuses@[(#[trigger] self.entries@[i]).0@]
                == status_view(self.entries@[i].1)
    }

    /// An empty table.
    pub fn new() -> (t: Self)
        ensures
            t.wf(),
            t@ == Map::<Seq<char>, StatusView>::empty(),
    {
        JobTable { entries: Vec::new(), statuses: Ghost(Map::empty()) }
    }

    fn find(&self, id: &str) -> (r: Option<usize>)
        requires
            self.wf(),
        ensures
            match r {
                Some(i) => i < self.entries@.len() && self.entries@[i as int].0@ == id@,
                None => !self@.contains_key(id@),
            },
    {
        let mut i: usize = 0;
        while i < self.entries.len()
            invariant
                self.wf(),
                i <= self.entries@.len(),
                forall|j: int| 0 <= j < i ==> (#[trigger] self.entries@[j]).0@ != id@,
            decreases self.entries@.len() - i,
        {
            if crate::cursor::same_text(self.entries[i].0.as_str(), id) {
                return Some(i);
            }
            i = i + 1;
        }
        None
    }

    /// Records `status` as the status of job `id` (`insert`).
    pub fn insert(&mut self, id: String, status: JobStatus)
        requires
            old(self).wf(),
        ensures
            final(self).wf(),
            final(self)@ == old(self)@.insert(id@, status_view(status)),
    {
        let ghost m = self.statuses@.insert(id@, status_view(status));
        let ghost k = id@;
        match self.find(id.as_str()) {
            Some(i) => {
                self.entries.set(i, (id, status));
                self.statuses = Ghost(m);
                assert forall|j: int|
                    0 <= j < self.entries@.len() implies m[(#[trigger] self.entries@[j]).0@]
                    == status_view(self.entries@[j].1) by {
                    if j != i {
                        assert(old(self).entries@[j].0@ != old(self).entries@[i as int].0@);
                    }
                }
                assert forall|kk: Seq<char>| #[trigger] m.contains_key(kk) implies exists|j: int|
                    0 <= j < self.entries@.len() && (#[trigger] self.entries@[j]).0@ == kk by {
                    if kk == k {
                        assert(self.entries@[i as int].0@ == kk);
                    } else {
                        let j = choose|j: int|
                            0 <= j < old(self).entries@.len() && (#[trigger] old(self).entries@[j]).0@
                                == kk;
                        assert(self.entries@[j].0@ == kk);
                    }
                }
            },
            None => {
                let n = self.entries.len();
                self.entries.push((id, status));
                self.statuses = Ghost(m);
                assert forall|kk: Seq<char>| #[trigger] m.contains_key(kk) implies exists|j: int|
                    0 <= j < self.entries@.len() && (#[trigger] self.entries@[j]).0@ == kk by {
                    if kk == k {
                        assert(self.entries@[n as int].0@ == kk);
                    } else {
                        let j = choose|j: int|
                            0 <= j < old(self).entries@.len() && (#[trigger] old(self).entries@[j]).0@
                                == kk;
                        assert(self.entries@[j].0@ == kk);
                    }
                }
                assert forall|a: int, b: int|
                    0 <= a < b < self.entries@.len() implies (#[trigger] self.entries@[a]).0@
                    != (#[trigger] self.entries@[b]).0@ by {
                    if b == n {
                        assert(old(self).statuses@.contains_key(old(self).entries@[a].0@));
                    }
                }
            },
        }
    }

    /// The status of job `id`, if the table knows it (`get`).
    pub fn get(&self, id: &str) -> (r: Option<JobStatus>)
        requires
            self.wf(),
        ensures
            match r {
                Some(s) => self@.contains_key(id@) && self@[id@] == status_view(s),
                None => !self@.contains_key(id@),
            },
    {
        match self.find(id) {
            Some(i) => {
                let s = self.entries[i].1.duplicate();
                proof {
                    assert(self.entries@[i as int].0@ == id@);
                }
                Some(s)
            },
            None => None,
        }
    }

    /// Applies a status change sent by a worker.
    pub fn apply_update(&mut self, update: JobUpdate)
        requires
            old(self).wf(),
        ensures
            final(self).wf(),
            final(self)@ == old(self)@.insert(update.job_id@, status_view(update.status)),
    {
        self.insert(update.job_id, update.status);
    }
}

/// A status read back right after it was recorded is that status, and the
/// other jobs keep theirs.
pub proof fn law_read_after_record(
    m: Map<Seq<char>, StatusView>,
    id: Seq<char>,
    s: StatusView,
    other: Seq<char>,
)
    requires
        other != id,
    ensures
        m.insert(id, s).contains_key(id),
        m.insert(id, s)[id] == s,
        m.insert(id, s).contains_key(other) == m.contains_key(other),
        m.contains_key(other) ==> m.insert(id, s)[other] == m[other],
{
}

/// The answer to a status request.
#[derive(Debug)]
pub enum StatusReply {
    /// 200, with the job's status.
    Found(JobStatus),
    /// 404, with this text.
    NotFound(String),
}

/// What a status request for job `job_id` is answered:
/// the job's status, or `Job ID not found`.
pub fn status_reply(table: &JobTable, job_id: &str) -> (r: StatusReply)
    requires
        table.wf(),
    ensures
        table@.contains_key(job_id@) ==> (r matches StatusReply::Found(s) && status_view(s)
            == table@[job_id@]),
        !table@.contains_key(job_id@) ==> (r matches StatusReply::NotFound(m) && m@
            == "Job ID not found"@),
{
    match table.get(job_id) {
        Some(s) => StatusReply::Found(s),
        None => StatusReply::NotFound(String::from_str("Job ID not found")),
    }
}

// ---------------------------------------------------------------------------
// Embedded front-end files
// ---------------------------------------------------------------------------

/// How many `/` lead `s`.
pub open spec fn lead_slashes(s: Seq<char>) -> nat
    decreases s.len(),
{
    if s.len() > 0 && s[0] == '/' {
        1 + lead_slashes(s.drop_first())
    } else {
        0
    }
}

/// The embedded file a request path asks for: the path without its
/// leading slashes, `index.html` when nothing is left.
pub open spec fn embedded_file(path: Seq<char>) -> Seq<char> {
    if lead_slashes(path) >= path.len() {
        "index.html"@
    } else {
        path.skip(lead_slashes(path) as int)
    }
}

/// The embedded file for request path `path`.
pub fn embedded_file_path(path: &str) -> (r: String)
    ensures
        r@ == embedded_file(path@),
{
    let c = chars_of(path);
    let mut i: usize = 0;
    assert(c@.skip(0) =~= c@);
    while i < c.len() && c[i] == '/'
        invariant
            i <= c@.len(),
            lead_slashes(c@) == i + lead_slashes(c@.skip(i as int)),
        decreases c@.len() - i,
    {
        assert(c@.skip(i as int).drop_first() =~= c@.skip(i + 1));
        i = i + 1;
    }
    assert(lead_slashes(c@.skip(i as int)) == 0);
    if i >= c.len() {
        String::from_str("index.html")
    } else {
        string_of(&crate::text::sub_chars(&c, i, c.len()))
    }
}

/// The content type an embedded file is served with: the one its name
/// suggests.
pub fn embedded_content_type(file_path: &str) -> (r: String)
    ensures
        r@ == crate::encoding::guessed_mime(file_path@),
{
    crate::encoding::guess_mime(file_path)
}

// ---------------------------------------------------------------------------
// Saving a template
// ---------------------------------------------------------------------------

/// What saving does to the stored images of the template.
#[derive(Debug)]
pub enum ImageSync {
    /// The template has no images: all stored ones go.
    DeleteAll,
    /// The stored images missing from the template go, then each image of
    /// the template is written (replacing one of the same identifier), in
    /// order.
    Sync { delete: Vec<String>, upsert: Vec<(String, String)> },
}

/// The stored images after writing `s`, in order, over `m`.
pub open spec fn written(m: Map<Seq<char>, Seq<char>>, s: Seq<(Seq<char>, Seq<char>)>) -> Map<
    Seq<char>,
    Seq<char>,
>
    decreases s.len(),
{
    if s.len() == 0 {
        m
    } else {
        written(m, s.drop_last()).insert(s.last().0, s.last().1)
    }
}

/// The stored images after deleting the identifiers `ids`.
pub open spec fn deleted(m: Map<Seq<char>, Seq<char>>, ids: Seq<Seq<char>>) -> Map<Seq<char>, Seq<char>> {
    m.remove_keys(ids.to_set())
}

/// The identifiers of a list of images.
pub open spec fn image_ids(s: Seq<(Seq<char>, Seq<char>)>) -> Seq<Seq<char>> {
    s.map_values(|p: (Seq<char>, Seq<char>)| p.0)
}

/// The synchronization for a template whose images are `images`, with
/// `existing` stored: the stored identifiers absent
/// from the images are deleted, every image is written.
pub fn image_sync_plan(images: &Option<Vec<Image>>, existing: &Vec<String>) -> (plan: ImageSync)
    ensures
        match images {
            None => plan is DeleteAll,
            Some(v) => match plan {
                ImageSync::Sync { delete, upsert } => {
                    &&& upsert@.map_values(|p: (String, String)| (p.0@, p.1@)) == images_view(v@)
                    &&& delete@.map_values(|s: String| s@) == existing@.map_values(|s: String| s@).filter(
                        |k: Seq<char>| !image_ids(images_view(v@)).contains(k),
                    )
                },
                ImageSync::DeleteAll => false,
            },
        },
{
    match images {
        None => ImageSync::DeleteAll,
        Some(v) => {
            let ghost ids = image_ids(images_view(v@));
            let ghost ex = existing@.map_values(|s: String| s@);
            let mut delete: Vec<String> = Vec::new();
            proof {
                reveal(Seq::filter);
                assert(ex.take(0) =~= Seq::<Seq<char>>::empty());
            }
            let mut i: usize = 0;
            while i < existing.len()
                invariant
                    i <= existing@.len(),
                    ids == image_ids(images_view(v@)),
                    ex == existing@.map_values(|s: String| s@),
                    delete@.map_values(|s: String| s@) == ex.take(i as int).filter(
                        |k: Seq<char>| !ids.contains(k),
                    ),
                decreases existing@.len() - i,
            {
                let keep = image_listed(v, existing[i].as_str());
                proof {
                    reveal(Seq::filter);
                }
                let ghost before = delete@.map_values(|s: String| s@);
                assert(ex.take(i + 1).drop_last() =~= ex.take(i as int));
                assert(ex.take(i + 1).last() == existing@[i as int]@);
                if !keep {
                    delete.push(existing[i].clone());
                    assert(delete@.map_values(|s: String| s@) =~= before.push(existing@[i as int]@));
                }
                i = i + 1;
            }
            assert(ex.take(existing@.len() as int) =~= ex);
            let mut upsert: Vec<(String, String)> = Vec::new();
            let mut j: usize = 0;
            while j < v.len()
                invariant
                    j <= v@.len(),
                    upsert@.map_values(|p: (String, String)| (p.0@, p.1@)) == images_view(
                        v@.take(j as int),
                    ),
                decreases v@.len() - j,
            {
                let ghost before = upsert@.map_values(|p: (String, String)| (p.0@, p.1@));
                upsert.push((v[j].id.clone(), v[j].base64.clone()));
                assert(upsert@.map_values(|p: (String, String)| (p.0@, p.1@)) =~= before.push(
                    image_view(v@[j as int]),
                ));
                assert(images_view(v@.take(j + 1)) =~= images_view(v@.take(j as int)).push(
                    image_view(v@[j as int]),
                ));
                j = j + 1;
            }
            assert(v@.take(v@.len() as int) =~= v@);
            ImageSync::Sync { delete, upsert }
        },
    }
}

fn image_listed(v: &Vec<Image>, id: &str) -> (r: bool)
    ensures
        r == image_ids(images_view(v@)).contains(id@),
{
    let mut i: usize = 0;
    while i < v.len()
        invariant
            i <= v@.len(),
            forall|j: int| 0 <= j < i ==> image_ids(images_view(v@))[j] != id@,
        decreases v@.len() - i,
    {
        if crate::cursor::same_text(v[i].id.as_str(), id) {
            assert(image_ids(images_view(v@))[i as int] == id@);
            return true;
        }
        i = i + 1;
    }
    false
}

proof fn lemma_written_dom(m: Map<Seq<char>, Seq<char>>, s: Seq<(Seq<char>, Seq<char>)>, k: Seq<char>)
    ensures
        written(m, s).contains_key(k) <==> (m.contains_key(k) || image_ids(s).contains(k)),
    decreases s.len(),
{
    if s.len() > 0 {
        lemma_written_dom(m, s.drop_last(), k);
        assert(image_ids(s.drop_last()) =~= image_ids(s).drop_last());
        if image_ids(s).contains(k) && k != s.last().0 {
            let i = choose|i: int| 0 <= i < image_ids(s).len() && image_ids(s)[i] == k;
            assert(image_ids(s.drop_last())[i] == k);
        }
        if image_ids(s.drop_last()).contains(k) {
            let i = choose|i: int| 0 <= i < image_ids(s.drop_last()).len() && image_ids(s.drop_last())[i] == k;
            assert(image_ids(s)[i] == k);
        }
        assert(image_ids(s)[s.len() - 1] == s.last().0);
    }
}

proof fn lemma_written_same(
    m1: Map<Seq<char>, Seq<char>>,
    m2: Map<Seq<char>, Seq<char>>,
    s: Seq<(Seq<char>, Seq<char>)>,
    k: Seq<char>,
)
    requires
        image_ids(s).contains(k),
    ensures
        written(m1, s).contains_key(k),
        written(m2, s).contains_key(k),
        written(m1, s)[k] == written(m2, s)[k],
    decreases s.len(),
{
    lemma_written_dom(m1, s, k);
    lemma_written_dom(m2, s, k);
    if s.last().0 != k {
        assert(image_ids(s.drop_last()) =~= image_ids(s).drop_last());
        let i = choose|i: int| 0 <= i < image_ids(s).len() && image_ids(s)[i] == k;
        assert(i != s.len() - 1);
        assert(image_ids(s.drop_last())[i] == k);
        lemma_written_same(m1, m2, s.drop_last(), k);
    }
}

/// After saving, the stored images of the template are exactly its images
/// (the last one written wins for a repeated identifier), whatever was
/// stored before.
pub proof fn law_saved_images_mirror_template(
    stored: Map<Seq<char>, Seq<char>>,
    existing: Seq<Seq<char>>,
    images: Seq<(Seq<char>, Seq<char>)>,
)
    requires
        stored.dom() == existing.to_set(),
    ensures
        written(
            deleted(stored, existing.filter(|k: Seq<char>| !image_ids(images).contains(k))),
            images,
        ) == written(Map::<Seq<char>, Seq<char>>::empty(), images),
{
    let ids = image_ids(images);
    let d = deleted(stored, existing.filter(|k: Seq<char>| !ids.contains(k)));
    let e = Map::<Seq<char>, Seq<char>>::empty();
    assert forall|k: Seq<char>| d.contains_key(k) implies ids.contains(k) by {
        assert(existing.to_set().contains(k));
        if !ids.contains(k) {
            let i = choose|i: int| 0 <= i < existing.len() && existing[i] == k;
            existing.lemma_filter_contains(|k: Seq<char>| !ids.contains(k), i);
            assert(existing.filter(|k: Seq<char>| !ids.contains(k)).to_set().contains(k));
        }
    }
    assert forall|k: Seq<char>| #[trigger] written(d, images).contains_key(k) <==> written(e, images).contains_key(k) by {
        lemma_written_dom(d, images, k);
        lemma_written_dom(e, images, k);
    }
    assert forall|k: Seq<char>| #[trigger] written(d, images).contains_key(k) implies written(d, images)[k] == written(e, images)[k] by {
        lemma_written_dom(d, images, k);
        lemma_written_same(d, e, images, k);
    }
    assert(written(d, images) =~= written(e, images));
}

/// A template may be saved only with an identifier that is not blank.
pub fn check_template_id(id: &str) -> (r: Result<(), String>)
    ensures
        trim(id@).len() > 0 ==> r is Ok,
        trim(id@).len() == 0 ==> (r matches Err(m) && m@ == "Template id cannot be empty"@),
{
    let c = chars_of(id);
    if crate::text::trim_chars(&c).len() == 0 {
        Err(String::from_str("Template id cannot be empty"))
    } else {
        Ok(())
    }
}

// ---------------------------------------------------------------------------
// Loading a template
// ---------------------------------------------------------------------------

/// The template loaded from its row and its stored images: no image list
/// when there are none.
pub fn assemble_template(id: String, text: String, images: Vec<Image>) -> (t: Template)
    ensures
        template_view(t) == (TemplateView {
            id: id@,
            text: text@,
            images: if images@.len() == 0 {
                None
            } else {
                Some(images_view(images@))
            },
        }),
{
    if images.len() == 0 {
        Template { id, text, images: None }
    } else {
        Template { id, text, images: Some(images) }
    }
}

/// `prefix` followed by `detail`.
pub open spec fn prefixed(prefix: Seq<char>, detail: Seq<char>) -> Seq<char> {
    prefix + detail
}

fn with_prefix(prefix: &str, detail: &str) -> (r: String)
    ensures
        r@ == prefixed(prefix@, detail@),
{
    let mut v = chars_of(prefix);
    crate::text::extend_chars(&mut v, &chars_of(detail));
    string_of(&v)
}

/// The body of a failed template load (503).
pub fn template_load_error(detail: &str) -> (r: String)
    ensures
        r@ == prefixed("Error retrieving template: "@, detail@),
{
    with_prefix("Error retrieving template: ", detail)
}

/// The body of a failed save (503).
pub fn template_save_error(detail: &str) -> (r: String)
    ensures
        r@ == prefixed("Error saving template: "@, detail@),
{
    with_prefix("Error saving template: ", detail)
}

// ---------------------------------------------------------------------------
// Uploading a data source
// ---------------------------------------------------------------------------

/// The parts of an upload form are complete: the `json` part gave the data
/// source and a `file` part came.
pub fn check_upload_parts(data_source: Option<DataSource>, file_received: bool) -> (r: Result<
    DataSource,
    String,
>)
    ensures
        data_source is None ==> (r matches Err(m) && m@ == "Missing 'json' part in multipart form"@),
        data_source is Some && !file_received ==> (r matches Err(m) && m@
            == "Missing 'file' part in multipart form"@),
        data_source is Some && file_received ==> (r matches Ok(d) && d.template_id@
            == data_source->0.template_id@),
{
    match data_source {
        None => Err(String::from_str("Missing 'json' part in multipart form")),
        Some(ds) => if file_received {
            Ok(ds)
        } else {
            Err(String::from_str("Missing 'file' part in multipart form"))
        },
    }
}

/// The hexadecimal MD5 digest of an uploaded file's bytes.
pub fn upload_md5(data: &[u8]) -> (r: String)
    ensures
        r@ == crate::cursor::hex_lower(crate::encoding::md5_digest(data@)),
{
    crate::cursor::md5_hex_of_bytes(data)
}

} // verus!
