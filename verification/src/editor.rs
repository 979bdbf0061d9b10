//! The state of the template editor and what each user action does to it:
//! text edits with an undo/redo history, style snippets, inline images,
//! data placeholders, saving and the PDF preview.
use vstd::prelude::*;
use crate::cursor::{byte_idx_of_utf16, compute_md5, md5_hex, same_text, utf16_len, utf16_len_prefix, utf16_width};
use crate::encoding::{base64_encoding, is_hyphenated_uuid, new_uuid};
use crate::tags::{ph_match_at, ph_title};
use vstd::utf8::encode_utf8;
use crate::model::{
    image_view, images_view, opt_images_view, opt_view, template_view, ColumnCheck, Image, Template,
    TemplateView,
};
use crate::styles::{byte_len, char_at_byte};
use crate::text::{chars_of, find_sub, occurs_at, replace_all, string_of, sub_chars};

verus! {

broadcast use vstd::string::group_string_axioms;

/// The texts of a list of strings.
pub open spec fn texts(h: Seq<String>) -> Seq<Seq<char>> {
    h.map_values(|s: String| s@)
}

/// The editor's state: the text, its snapshots for undo/redo, the active
/// tab, the template being edited, the selected image, the PDF viewer and
/// the MD5 of the text when it was last loaded or saved.
pub struct StaticTextComponent {
    /// Current content of the text area.
    pub text: String,
    /// Snapshots of the text, oldest first.
    pub history: Vec<String>,
    /// The snapshot the editor stands at.
    pub history_index: usize,
    /// `"editor"` or `"preview"`.
    pub active_tab: String,
    /// The template the text belongs to, once created or loaded.
    pub template: Option<Template>,
    /// The image shown in the image dialog.
    pub selected_image_id: Option<String>,
    /// The address the PDF viewer shows.
    pub pdf_url: Option<String>,
    /// Whether the PDF is still loading.
    pub pdf_loading: bool,
    /// Whether the first-render initialization has run.
    pub loaded: bool,
    /// MD5 of the text at the last load or save.
    pub original_md5: Option<String>,
}

/// The editing history of the editor as values: the text, the snapshots
/// and the index of the current snapshot.
pub struct EditView {
    pub text: Seq<char>,
    pub history: Seq<Seq<char>>,
    pub index: int,
}

/// The history after the text is replaced by `t`: when it differs, the
/// snapshots after the current one are dropped and `t` becomes the last
/// one, where the editor then stands.
pub open spec fn edited(v: EditView, t: Seq<char>) -> EditView {
    if v.text == t {
        v
    } else {
        EditView { text: t, history: v.history.take(v.index + 1).push(t), index: v.index + 1 }
    }
}

/// The history after an undo: one snapshot back, when there is one.
pub open spec fn undone(v: EditView) -> EditView {
    if v.index > 0 {
        EditView { text: v.history[v.index - 1], history: v.history, index: v.index - 1 }
    } else {
        v
    }
}

/// The history after a redo: one snapshot forward, when there is one.
pub open spec fn redone(v: EditView) -> EditView {
    if v.index + 1 < v.history.len() {
        EditView { text: v.history[v.index + 1], history: v.history, index: v.index + 1 }
    } else {
        v
    }
}

/// A history whose index points at a snapshot.
pub open spec fn valid_history(v: EditView) -> bool {
    0 <= v.index < v.history.len()
}

impl StaticTextComponent {
    /// The history is never empty and its index points into it.
    pub open spec fn wf(&self) -> bool {
        self.history@.len() > 0 && self.history_index < self.history@.len()
    }

    /// The editing history of this state.
    pub open spec fn edit_view(&self) -> EditView {
        EditView { text: self.text@, history: texts(self.history@), index: self.history_index as int }
    }

    /// A fresh editor: empty text, one empty snapshot, the editor tab, no
    /// template, nothing selected, no PDF, not loaded, no saved digest.
    pub fn new() -> (r: Self)
        ensures
            r.wf(),
            r.edit_view() == (EditView {
                text: Seq::<char>::empty(),
                history: seq![Seq::<char>::empty()],
                index: 0,
            }),
            r.active_tab@ == "editor"@,
            r.template is None,
            r.selected_image_id is None,
            r.pdf_url is None,
            !r.pdf_loading,
            !r.loaded,
            r.original_md5 is None,
    {
        let mut history: Vec<String> = Vec::new();
        history.push(String::new());
        let r = StaticTextComponent {
            text: String::new(),
            history,
            history_index: 0,
            active_tab: String::from_str("editor"),
            template: None,
            selected_image_id: None,
            pdf_url: None,
            pdf_loading: false,
            loaded: false,
            original_md5: None,
        };
        assert(texts(r.history@) =~= seq![Seq::<char>::empty()]);
        r
    }

    /// Replaces the text with `new_text`, recording it in the history when
    /// it differs. Always asks for a redraw.
    pub fn update_text(&mut self, new_text: String) -> (redraw: bool)
        requires
            old(self).wf(),
            old(self).history_index + 2 <= usize::MAX,
        ensures
            redraw,
            final(self).wf(),
            final(self).edit_view() == edited(old(self).edit_view(), new_text@),
            final(self).template == old(self).template,
            final(self).original_md5 == old(self).original_md5,
            final(self).active_tab == old(self).active_tab,
            final(self).selected_image_id == old(self).selected_image_id,
            final(self).pdf_url == old(self).pdf_url,
            final(self).pdf_loading == old(self).pdf_loading,
            final(self).loaded == old(self).loaded,
    {
        if self.text != new_text {
            self.text = new_text.clone();
            self.history.truncate(self.history_index + 1);
            self.history.push(new_text);
            self.history_index = self.history.len() - 1;
            assert(texts(self.history@) =~= texts(old(self).history@).take(
                old(self).history_index + 1,
            ).push(self.text@));
        }
        true
    }

    /// Steps back one snapshot, when there is one before the current.
    pub fn undo(&mut self) -> (redraw: bool)
        requires
            old(self).wf(),
        ensures
            redraw,
            final(self).wf(),
            final(self).edit_view() == undone(old(self).edit_view()),
            final(self).history == old(self).history,
            final(self).template == old(self).template,
            final(self).original_md5 == old(self).original_md5,
            final(self).active_tab == old(self).active_tab,
            final(self).selected_image_id == old(self).selected_image_id,
            final(self).pdf_url == old(self).pdf_url,
            final(self).pdf_loading == old(self).pdf_loading,
            final(self).loaded == old(self).loaded,
    {
        if self.history_index > 0 {
            self.history_index = self.history_index - 1;
            self.text = self.history[self.history_index].clone();
        }
        true
    }

    /// Steps forward one snapshot, when there is one after the current.
    pub fn redo(&mut self) -> (redraw: bool)
        requires
            old(self).wf(),
        ensures
            redraw,
            final(self).wf(),
            final(self).edit_view() == redone(old(self).edit_view()),
            final(self).history == old(self).history,
            final(self).template == old(self).template,
            final(self).original_md5 == old(self).original_md5,
            final(self).active_tab == old(self).active_tab,
            final(self).selected_image_id == old(self).selected_image_id,
            final(self).pdf_url == old(self).pdf_url,
            final(self).pdf_loading == old(self).pdf_loading,
            final(self).loaded == old(self).loaded,
    {
        if self.history_index < self.history.len() - 1 {
            self.history_index = self.history_index + 1;
            self.text = self.history[self.history_index].clone();
        }
        true
    }

    /// Switches to tab `tab`; the result says whether the text area must be
    /// resized, which it must when the editor tab is shown.
    pub fn set_tab(&mut self, tab: String) -> (resize: bool)
        ensures
            final(self).active_tab@ == tab@,
            resize == (tab@ == "editor"@),
            final(self).text == old(self).text,
            final(self).history == old(self).history,
            final(self).history_index == old(self).history_index,
            final(self).template == old(self).template,
            final(self).original_md5 == old(self).original_md5,
    {
        let editor = String::from_str("editor");
        self.active_tab = tab;
        self.active_tab == editor
    }
}

/// Undo right after an edit that changed the text brings back the snapshot
/// the editor stood at before the edit.
pub proof fn law_undo_after_edit(v: EditView, t: Seq<char>)
    requires
        valid_history(v),
        v.text != t,
    ensures
        undone(edited(v, t)).text == v.history[v.index],
        undone(edited(v, t)).index == v.index,
{
}

/// Redo right after an undo that moved returns to the snapshot the editor
/// stood at, with the same history.
pub proof fn law_redo_after_undo(v: EditView)
    requires
        valid_history(v),
        v.index > 0,
    ensures
        redone(undone(v)).text == v.history[v.index],
        redone(undone(v)).index == v.index,
        redone(undone(v)).history == v.history,
{
}

/// An edit that changes the text leaves nothing to redo.
pub proof fn law_edit_clears_redo(v: EditView, t: Seq<char>)
    requires
        valid_history(v),
        v.text != t,
    ensures
        redone(edited(v, t)) == edited(v, t),
        valid_history(edited(v, t)),
{
}

/// Every action keeps the history valid.
pub proof fn law_history_stays_valid(v: EditView, t: Seq<char>)
    requires
        valid_history(v),
    ensures
        valid_history(edited(v, t)),
        valid_history(undone(v)),
        valid_history(redone(v)),
{
}

// ---------------------------------------------------------------------------
// Editing at the selection
// ---------------------------------------------------------------------------

/// `s` with the characters from `a` up to `b` replaced by `piece`.
pub open spec fn spliced(s: Seq<char>, a: int, b: int, piece: Seq<char>) -> Seq<char> {
    s.take(a) + piece + s.skip(b)
}

/// The marker put before the selection, the marker put after it, and the
/// text put between them when nothing is selected, for a style button.
pub open spec fn style_markers(style: Seq<char>) -> (Seq<char>, Seq<char>, Seq<char>) {
    if style == "bold"@ {
        ("**"@, "**"@, "texto"@)
    } else if style == "italic"@ {
        ("*"@, "*"@, "texto"@)
    } else if style == "bolditalic"@ {
        ("***"@, "***"@, "texto"@)
    } else if style == "normal"@ {
        (Seq::<char>::empty(), Seq::<char>::empty(), "texto"@)
    } else if style == "bulleted_list"@ {
        ("- "@, Seq::<char>::empty(), "texto"@)
    } else if style == "image"@ {
        ("[img:"@, "]"@, "url"@)
    } else {
        (Seq::<char>::empty(), Seq::<char>::empty(), Seq::<char>::empty())
    }
}

/// The characters selected between UTF-16 units `s16` and `e16` of `s`, as
/// a start and an end index (an end before the start selects nothing).
pub open spec fn selection_chars(s: Seq<char>, s16: int, e16: int) -> (int, int) {
    let a = insert_index(s, s16);
    let b = insert_index(s, e16);
    if b < a {
        (a, a)
    } else {
        (a, b)
    }
}

/// What a style wraps: the selected text, or the style's stand-in text when
/// the selection is empty.
pub open spec fn style_inner(s: Seq<char>, style: Seq<char>, s16: int, e16: int) -> Seq<char> {
    let (a, b) = selection_chars(s, s16, e16);
    if a == b {
        style_markers(style).2
    } else {
        s.subrange(a, b)
    }
}

/// The text after applying `style` to the selection from UTF-16 unit `s16`
/// to `e16`: the selected text (or the stand-in) wrapped in the style's
/// markers.
pub open spec fn styled(s: Seq<char>, style: Seq<char>, s16: int, e16: int) -> Seq<char> {
    let (a, b) = selection_chars(s, s16, e16);
    let (pre, post, _) = style_markers(style);
    spliced(s, a, b, pre + style_inner(s, style, s16, e16) + post)
}

fn markers_of(style: &str) -> (r: (Vec<char>, Vec<char>, Vec<char>))
    ensures
        (r.0@, r.1@, r.2@) == style_markers(style@),
        r.0@.len() <= 5,
        r.1@.len() <= 3,
        r.2@.len() <= 5,
{
    proof {
        reveal_strlit("bold");
        reveal_strlit("italic");
        reveal_strlit("bolditalic");
        reveal_strlit("normal");
        reveal_strlit("bulleted_list");
        reveal_strlit("image");
        reveal_strlit("**");
        reveal_strlit("*");
        reveal_strlit("***");
        reveal_strlit("- ");
        reveal_strlit("[img:");
        reveal_strlit("]");
        reveal_strlit("texto");
        reveal_strlit("url");
    }
    if same_text(style, "bold") {
        (chars_of("**"), chars_of("**"), chars_of("texto"))
    } else if same_text(style, "italic") {
        (chars_of("*"), chars_of("*"), chars_of("texto"))
    } else if same_text(style, "bolditalic") {
        (chars_of("***"), chars_of("***"), chars_of("texto"))
    } else if same_text(style, "normal") {
        (Vec::new(), Vec::new(), chars_of("texto"))
    } else if same_text(style, "bulleted_list") {
        (chars_of("- "), Vec::new(), chars_of("texto"))
    } else if same_text(style, "image") {
        (chars_of("[img:"), chars_of("]"), chars_of("url"))
    } else {
        (Vec::new(), Vec::new(), Vec::new())
    }
}

/// The selection of `s` between UTF-16 units `s16` and `e16`, in characters.
fn selection_of(c: &Vec<char>, s16: usize, e16: usize) -> (r: (usize, usize))
    requires
        c@.len() <= usize::MAX / 8,
    ensures
        (r.0 as int, r.1 as int) == selection_chars(c@, s16 as int, e16 as int),
        r.0 <= r.1 <= c@.len(),
{
    let a = crate::cursor::chars_in_units(c, s16);
    let b = crate::cursor::chars_in_units(c, e16);
    if b < a {
        (a, a)
    } else {
        (a, b)
    }
}

fn splice_chars(c: &Vec<char>, a: usize, b: usize, piece: &Vec<char>) -> (t: Vec<char>)
    requires
        a <= c@.len(),
        b <= c@.len(),
    ensures
        t@ == spliced(c@, a as int, b as int, piece@),
{
    let mut t = sub_chars(c, 0, a);
    crate::text::extend_chars(&mut t, piece);
    let rest = sub_chars(c, b, c.len());
    crate::text::extend_chars(&mut t, &rest);
    assert(t@ =~= spliced(c@, a as int, b as int, piece@));
    t
}

impl StaticTextComponent {
    /// Everything but the text is as in `o`.
    pub open spec fn same_but_text(&self, o: &Self) -> bool {
        &&& self.history == o.history
        &&& self.history_index == o.history_index
        &&& self.active_tab == o.active_tab
        &&& self.template == o.template
        &&& self.selected_image_id == o.selected_image_id
        &&& self.pdf_url == o.pdf_url
        &&& self.pdf_loading == o.pdf_loading
        &&& self.loaded == o.loaded
        &&& self.original_md5 == o.original_md5
    }

    /// Wraps the selection from UTF-16 unit `start_utf16` to `end_utf16` in
    /// the markers of `style` (an empty selection gets the style's stand-in
    /// text), and gives the selection, in UTF-16 units, that then covers the
    /// wrapped text.
    pub fn apply_style(&mut self, style: &str, start_utf16: usize, end_utf16: usize) -> (sel: (
        u32,
        u32,
    ))
        requires
            old(self).text@.len() <= usize::MAX / 32,
        ensures
            final(self).text@ == styled(old(self).text@, style@, start_utf16 as int, end_utf16 as int),
            final(self).same_but_text(old(self)),
            ({
                let (a, _) = selection_chars(old(self).text@, start_utf16 as int, end_utf16 as int);
                let x = a + style_markers(style@).0.len();
                let y = x + style_inner(old(self).text@, style@, start_utf16 as int, end_utf16 as int).len();
                sel == (utf16_len(final(self).text@.take(x)) as u32, utf16_len(
                    final(self).text@.take(y),
                ) as u32)
            }),
    {
        let c = chars_of(self.text.as_str());
        let (a, b) = selection_of(&c, start_utf16, end_utf16);
        let (pre, post, stand_in) = markers_of(style);
        let inner = if a == b {
            stand_in
        } else {
            sub_chars(&c, a, b)
        };
        let mut piece = pre.clone();
        crate::text::extend_chars(&mut piece, &inner);
        crate::text::extend_chars(&mut piece, &post);
        let t = splice_chars(&c, a, b, &piece);
        self.text = string_of(&t);
        let x = a + pre.len();
        let y = x + inner.len();
        (utf16_len_prefix(&t, x) as u32, utf16_len_prefix(&t, y) as u32)
    }

    /// Inserts the tag of a new image, `[img:ID]` with a fresh identifier,
    /// over the selection, and gives that identifier.
    pub fn file_selected(&mut self, start_utf16: usize, end_utf16: usize) -> (id: String)
        requires
            old(self).text@.len() <= usize::MAX / 8,
        ensures
            is_hyphenated_uuid(id@),
            ({
                let (a, b) = selection_chars(old(self).text@, start_utf16 as int, end_utf16 as int);
                final(self).text@ == spliced(old(self).text@, a, b, img_tag(id@))
            }),
            final(self).same_but_text(old(self)),
    {
        let id = new_uuid();
        let c = chars_of(self.text.as_str());
        let (a, b) = selection_of(&c, start_utf16, end_utf16);
        let tag = img_tag_chars(id.as_str());
        let t = splice_chars(&c, a, b, &tag);
        self.text = string_of(&t);
        id
    }
}

/// The inline tag of image `id`.
pub open spec fn img_tag(id: Seq<char>) -> Seq<char> {
    "[img:"@ + id + "]"@
}

pub(crate) fn img_tag_chars(id: &str) -> (r: Vec<char>)
    ensures
        r@ == img_tag(id@),
        r@.len() > 0,
{
    proof {
        reveal_strlit("[img:");
        reveal_strlit("]");
    }
    let mut r = chars_of("[img:");
    let idc = chars_of(id);
    crate::text::extend_chars(&mut r, &idc);
    r.push(']');
    assert(r@ =~= img_tag(id@));
    r
}

// ---------------------------------------------------------------------------
// Images of the template
// ---------------------------------------------------------------------------

/// The images of `s` but those with identifier `id`, in order.
pub open spec fn images_without(s: Seq<(Seq<char>, Seq<char>)>, id: Seq<char>) -> Seq<
    (Seq<char>, Seq<char>),
>
    decreases s.len(),
{
    if s.len() == 0 {
        s
    } else if s.last().0 != id {
        images_without(s.drop_last(), id).push(s.last())
    } else {
        images_without(s.drop_last(), id)
    }
}

/// The images of `s` whose tag occurs in `text`, in order.
pub open spec fn images_in_text(s: Seq<(Seq<char>, Seq<char>)>, text: Seq<char>) -> Seq<
    (Seq<char>, Seq<char>),
>
    decreases s.len(),
{
    if s.len() == 0 {
        s
    } else if find_sub(text, img_tag(s.last().0)) is Some {
        images_in_text(s.drop_last(), text).push(s.last())
    } else {
        images_in_text(s.drop_last(), text)
    }
}

/// Removing an image leaves no image with its identifier, and keeps every
/// other image.
pub proof fn law_deleted_image_is_gone(s: Seq<(Seq<char>, Seq<char>)>, id: Seq<char>)
    ensures
        forall|i: int| 0 <= i < images_without(s, id).len() ==> (#[trigger] images_without(s, id)[i]).0 != id,
        forall|j: int| 0 <= j < s.len() && (#[trigger] s[j]).0 != id ==> images_without(s, id).contains(s[j]),
    decreases s.len(),
{
    if s.len() > 0 {
        let r = images_without(s.drop_last(), id);
        law_deleted_image_is_gone(s.drop_last(), id);
        assert forall|j: int| 0 <= j < s.len() && (#[trigger] s[j]).0 != id implies images_without(s, id).contains(s[j]) by {
            if j < s.len() - 1 {
                assert(s.drop_last()[j] == s[j]);
                let k = choose|k: int| 0 <= k < r.len() && r[k] == s[j];
                if s.last().0 != id {
                    assert(images_without(s, id)[k] == s[j]);
                }
            } else {
                assert(images_without(s, id)[r.len() as int] == s[j]);
            }
        }
    }
}

/// Synchronizing keeps exactly the images whose tag is in the text.
pub proof fn law_kept_images_are_referenced(s: Seq<(Seq<char>, Seq<char>)>, text: Seq<char>)
    ensures
        forall|i: int|
            0 <= i < images_in_text(s, text).len() ==> find_sub(
                text,
                img_tag((#[trigger] images_in_text(s, text)[i]).0),
            ) is Some,
        forall|j: int|
            0 <= j < s.len() && find_sub(text, img_tag((#[trigger] s[j]).0)) is Some
                ==> images_in_text(s, text).contains(s[j]),
    decreases s.len(),
{
    if s.len() > 0 {
        let r = images_in_text(s.drop_last(), text);
        law_kept_images_are_referenced(s.drop_last(), text);
        assert forall|j: int|
            0 <= j < s.len() && find_sub(text, img_tag((#[trigger] s[j]).0)) is Some implies images_in_text(
            s,
            text,
        ).contains(s[j]) by {
            if j < s.len() - 1 {
                assert(s.drop_last()[j] == s[j]);
                let k = choose|k: int| 0 <= k < r.len() && r[k] == s[j];
                if find_sub(text, img_tag(s.last().0)) is Some {
                    assert(images_in_text(s, text)[k] == s[j]);
                }
            } else {
                assert(images_in_text(s, text)[r.len() as int] == s[j]);
            }
        }
    }
}

/// The images of `v` but those with identifier `id`.
fn remove_image(v: &Vec<Image>, id: &str) -> (r: Vec<Image>)
    ensures
        images_view(r@) == images_without(images_view(v@), id@),
{
    let mut r: Vec<Image> = Vec::new();
    let mut i: usize = 0;
    while i < v.len()
        invariant
            i <= v@.len(),
            images_view(r@) == images_without(images_view(v@.take(i as int)), id@),
        decreases v@.len() - i,
    {
        let ghost before = images_view(v@.take(i as int));
        assert(images_view(v@.take(i + 1)).drop_last() =~= before);
        assert(images_view(v@.take(i + 1)).last() == image_view(v@[i as int]));
        if !same_text(v[i].id.as_str(), id) {
            r.push(v[i].duplicate());
            assert(images_view(r@) =~= images_without(before, id@).push(image_view(v@[i as int])));
        }
        i = i + 1;
    }
    assert(v@.take(v@.len() as int) =~= v@);
    r
}

/// The images of `v` whose tag occurs in `text`.
fn referenced_images(v: &Vec<Image>, text: &Vec<char>) -> (r: Vec<Image>)
    ensures
        images_view(r@) == images_in_text(images_view(v@), text@),
{
    let mut r: Vec<Image> = Vec::new();
    let mut i: usize = 0;
    assert(text@.skip(0) =~= text@);
    while i < v.len()
        invariant
            i <= v@.len(),
            text@.skip(0) == text@,
            images_view(r@) == images_in_text(images_view(v@.take(i as int)), text@),
        decreases v@.len() - i,
    {
        let ghost before = images_view(v@.take(i as int));
        assert(images_view(v@.take(i + 1)).drop_last() =~= before);
        assert(images_view(v@.take(i + 1)).last() == image_view(v@[i as int]));
        let tag = img_tag_chars(v[i].id.as_str());
        if crate::text::find_sub_from(text, &tag, 0).is_some() {
            r.push(v[i].duplicate());
            assert(images_view(r@) =~= images_in_text(before, text@).push(image_view(v@[i as int])));
        }
        i = i + 1;
    }
    assert(v@.take(v@.len() as int) =~= v@);
    r
}

/// A template with identifier `id`, text `text` and no images.
pub open spec fn bare_template(id: Seq<char>, text: Seq<char>) -> TemplateView {
    TemplateView { id, text, images: None }
}

/// A new template, with a fresh identifier, empty text and no images
/// (`create_empty_template`).
pub fn create_empty_template() -> (t: Template)
    ensures
        is_hyphenated_uuid(t.id@),
        template_view(t) == bare_template(t.id@, Seq::<char>::empty()),
{
    Template { id: new_uuid(), text: String::new(), images: None }
}

impl StaticTextComponent {
    /// Everything but the text and the template is as in `o`.
    pub open spec fn same_but_content(&self, o: &Self) -> bool {
        &&& self.history == o.history
        &&& self.history_index == o.history_index
        &&& self.active_tab == o.active_tab
        &&& self.selected_image_id == o.selected_image_id
        &&& self.pdf_url == o.pdf_url
        &&& self.pdf_loading == o.pdf_loading
        &&& self.loaded == o.loaded
        &&& self.original_md5 == o.original_md5
    }

    /// Synchronizes the template with the text: its text
    /// becomes the editor's and it keeps only the images whose tag is in
    /// the text; without a template, one with no identifier and no images
    /// is made. Asks for no redraw.
    pub fn auto_resize(&mut self) -> (redraw: bool)
        ensures
            !redraw,
            final(self).text == old(self).text,
            final(self).same_but_content(old(self)),
            final(self).template is Some,
            template_view(final(self).template->0) == match old(self).template {
                Some(t) => TemplateView {
                    id: t.id@,
                    text: old(self).text@,
                    images: match opt_images_view(t.images) {
                        Some(s) => Some(images_in_text(s, old(self).text@)),
                        None => None,
                    },
                },
                None => bare_template(Seq::<char>::empty(), old(self).text@),
            },
    {
        let tpl = self.template.take();
        match tpl {
            Some(t) => {
                let c = chars_of(self.text.as_str());
                let images = match &t.images {
                    Some(v) => Some(referenced_images(v, &c)),
                    None => None,
                };
                self.template = Some(Template { id: t.id, text: self.text.clone(), images });
            },
            None => {
                self.template = Some(
                    Template { id: String::new(), text: self.text.clone(), images: None },
                );
            },
        }
        false
    }

    /// Adds image `id` with Base64 data `base64` to the template, making a
    /// template (no identifier, the editor's text) when there is none.
    /// Asks for no redraw.
    pub fn add_image_to_template(&mut self, id: String, base64: String) -> (redraw: bool)
        ensures
            !redraw,
            final(self).text == old(self).text,
            final(self).same_but_content(old(self)),
            final(self).template is Some,
            template_view(final(self).template->0) == match old(self).template {
                Some(t) => TemplateView {
                    id: t.id@,
                    text: t.text@,
                    images: Some(
                        match opt_images_view(t.images) {
                            Some(s) => s.push((id@, base64@)),
                            None => seq![(id@, base64@)],
                        },
                    ),
                },
                None => TemplateView {
                    id: Seq::<char>::empty(),
                    text: old(self).text@,
                    images: Some(seq![(id@, base64@)]),
                },
            },
    {
        let image = Image { id, base64 };
        let ghost iv = image_view(image);
        let tpl = self.template.take();
        match tpl {
            Some(t) => {
                let images = match t.images {
                    Some(v) => {
                        let mut v = v;
                        let ghost old_v = v@;
                        v.push(image);
                        assert(images_view(v@) =~= images_view(old_v).push(iv));
                        v
                    },
                    None => {
                        let v = vec![image];
                        assert(images_view(v@) =~= seq![iv]);
                        v
                    },
                };
                self.template = Some(Template { id: t.id, text: t.text, images: Some(images) });
            },
            None => {
                let v = vec![image];
                assert(images_view(v@) =~= seq![iv]);
                self.template = Some(
                    Template { id: String::new(), text: self.text.clone(), images: Some(v) },
                );
            },
        }
        false
    }

    /// Selects image `id` for the image dialog.
    pub fn open_image_dialog(&mut self, id: String) -> (redraw: bool)
        ensures
            redraw,
            opt_view(final(self).selected_image_id) == Some(id@),
            final(self).text == old(self).text,
            final(self).template == old(self).template,
            final(self).history == old(self).history,
            final(self).history_index == old(self).history_index,
            final(self).original_md5 == old(self).original_md5,
    {
        self.selected_image_id = Some(id);
        true
    }

    /// Removes image `id`: with a template, from its images
    /// and, every tag of it, from the text, which the template then takes;
    /// in any case the selection is cleared.
    pub fn delete_image(&mut self, id: &str) -> (redraw: bool)
        ensures
            redraw,
            final(self).selected_image_id is None,
            final(self).history == old(self).history,
            final(self).history_index == old(self).history_index,
            final(self).active_tab == old(self).active_tab,
            final(self).pdf_url == old(self).pdf_url,
            final(self).pdf_loading == old(self).pdf_loading,
            final(self).loaded == old(self).loaded,
            final(self).original_md5 == old(self).original_md5,
            match old(self).template {
                Some(t) => {
                    &&& final(self).text@ == replace_all(old(self).text@, img_tag(id@), Seq::<char>::empty())
                    &&& final(self).template is Some
                    &&& template_view(final(self).template->0) == (TemplateView {
                        id: t.id@,
                        text: final(self).text@,
                        images: match opt_images_view(t.images) {
                            Some(s) => Some(images_without(s, id@)),
                            None => None,
                        },
                    })
                },
                None => final(self).text == old(self).text && final(self).template is None,
            },
    {
        let tpl = self.template.take();
        match tpl {
            Some(t) => {
                let images = match &t.images {
                    Some(v) => Some(remove_image(v, id)),
                    None => None,
                };
                let c = chars_of(self.text.as_str());
                let tag = img_tag_chars(id);
                let empty: Vec<char> = Vec::new();
                let nc = crate::text::replace_chars(&c, &tag, &empty);
                self.text = string_of(&nc);
                self.template = Some(Template { id: t.id, text: self.text.clone(), images });
            },
            None => {},
        }
        self.selected_image_id = None;
        true
    }
}

// ---------------------------------------------------------------------------
// Saving and unsaved changes
// ---------------------------------------------------------------------------

/// The value of the page's unsaved-changes flag: with a saved digest,
/// whether the text's digest differs from it; without one, whether there
/// is any text.
pub open spec fn dirty_flag(orig: Option<Seq<char>>, text: Seq<char>) -> bool {
    match orig {
        Some(o) => o != md5_hex(text),
        None => text.len() > 0,
    }
}

/// Whether the editor tab shows its unsaved-changes mark: only with a saved
/// digest that differs from the text's.
pub open spec fn unsaved_mark(orig: Option<Seq<char>>, text: Seq<char>) -> bool {
    match orig {
        Some(o) => o != md5_hex(text),
        None => false,
    }
}

/// The digest recorded for an optional template.
pub open spec fn template_digest(t: Option<Template>) -> Option<Seq<char>> {
    match t {
        Some(t) => Some(md5_hex(t.text@)),
        None => None,
    }
}

/// A text whose digest was just recorded has no unsaved changes.
pub proof fn law_recorded_text_is_clean(text: Seq<char>)
    ensures
        !dirty_flag(Some(md5_hex(text)), text),
        !unsaved_mark(Some(md5_hex(text)), text),
{
}

/// The template to save: the editor's, or a new one without identifier and
/// images holding the text.
pub open spec fn template_to_save(t: Option<Template>, text: Seq<char>) -> TemplateView {
    match t {
        Some(t) => template_view(t),
        None => bare_template(Seq::<char>::empty(), text),
    }
}

impl StaticTextComponent {
    /// Whether there are unsaved changes, as the page's flag records them.
    pub fn is_dirty(&self) -> (r: bool)
        ensures
            r == dirty_flag(opt_view(self.original_md5), self.text@),
    {
        match &self.original_md5 {
            Some(orig) => {
                let current = compute_md5(self.text.as_str());
                *orig != current
            },
            None => !self.text.as_str().is_empty(),
        }
    }

    /// Whether the editor tab shows its unsaved-changes mark.
    pub fn shows_unsaved_mark(&self) -> (r: bool)
        ensures
            r == unsaved_mark(opt_view(self.original_md5), self.text@),
    {
        match &self.original_md5 {
            Some(orig) => {
                let current = compute_md5(self.text.as_str());
                *orig != current
            },
            None => false,
        }
    }

    /// Makes sure there is a template with an identifier, and gives a copy
    /// of it to send: without a template, one holding the text is
    /// made; without an identifier, it gets a fresh one.
    pub fn prepare_save(&mut self) -> (t: Template)
        ensures
            final(self).text == old(self).text,
            final(self).same_but_content(old(self)),
            final(self).template is Some,
            template_view(t) == template_view(final(self).template->0),
            template_view(t).text == template_to_save(old(self).template, old(self).text@).text,
            template_view(t).images == template_to_save(old(self).template, old(self).text@).images,
            if template_to_save(old(self).template, old(self).text@).id.len() == 0 {
                is_hyphenated_uuid(template_view(t).id)
            } else {
                template_view(t).id == template_to_save(old(self).template, old(self).text@).id
            },
    {
        let tpl = self.template.take();
        let mut t = match tpl {
            Some(t) => t,
            None => Template { id: String::new(), text: self.text.clone(), images: None },
        };
        if t.id.as_str().is_empty() {
            t.id = new_uuid();
        }
        let copy = t.duplicate();
        self.template = Some(t);
        copy
    }

    /// Replaces the template and records the digest of its text as the
    /// saved one.
    pub fn set_template(&mut self, t: Option<Template>) -> (redraw: bool)
        ensures
            redraw,
            final(self).template == t,
            opt_view(final(self).original_md5) == template_digest(t),
            final(self).text == old(self).text,
            final(self).history == old(self).history,
            final(self).history_index == old(self).history_index,
            final(self).active_tab == old(self).active_tab,
    {
        self.original_md5 = match &t {
            Some(tpl) => Some(compute_md5(tpl.text.as_str())),
            None => None,
        };
        self.template = t;
        true
    }

    /// Records the digest of the current text as the saved one:
    /// the editor then has no unsaved changes.
    pub fn save_succeeded(&mut self) -> (redraw: bool)
        ensures
            redraw,
            opt_view(final(self).original_md5) == Some(md5_hex(old(self).text@)),
            !dirty_flag(opt_view(final(self).original_md5), final(self).text@),
            !unsaved_mark(opt_view(final(self).original_md5), final(self).text@),
            final(self).text == old(self).text,
            final(self).template == old(self).template,
            final(self).history == old(self).history,
            final(self).history_index == old(self).history_index,
    {
        self.original_md5 = Some(compute_md5(self.text.as_str()));
        proof {
            law_recorded_text_is_clean(self.text@);
        }
        true
    }
}

// ---------------------------------------------------------------------------
// The PDF viewer
// ---------------------------------------------------------------------------

/// What asking for the PDF led to.
#[derive(Debug, Clone, Copy, PartialEq, Eq, Structural)]
pub enum PdfOpen {
    /// There is no template: nothing to render.
    NoTemplate,
    /// The template must be saved first (no identifier, or changed text).
    SaveFirst,
    /// The viewer opens on the template's PDF.
    Show,
}

/// The toast shown when the PDF cannot be opened.
pub open spec fn pdf_toast(r: PdfOpen) -> Option<Seq<char>> {
    match r {
        PdfOpen::NoTemplate => Some("No hay plantilla cargada."@),
        PdfOpen::SaveFirst => Some("Guarda la plantilla antes de generar el PDF."@),
        PdfOpen::Show => None,
    }
}

impl PdfOpen {
    /// The toast to show for this outcome, if any.
    pub fn toast(&self) -> (r: Option<String>)
        ensures
            opt_view(r) == pdf_toast(*self),
    {
        match self {
            PdfOpen::NoTemplate => Some(String::from_str("No hay plantilla cargada.")),
            PdfOpen::SaveFirst => Some(
                String::from_str("Guarda la plantilla antes de generar el PDF."),
            ),
            PdfOpen::Show => None,
        }
    }
}

/// The address of the PDF of template `id`, with `ts` against caching.
pub open spec fn pdf_address(id: Seq<char>, ts: nat) -> Seq<char> {
    "/api/templates/pdf/"@ + id + "?t="@ + crate::text::decimal(ts)
}

/// Whether the PDF of `t` may be shown: the template has an identifier
/// and the text is the one last saved.
pub open spec fn pdf_ready(t: Template, orig: Option<Seq<char>>, text: Seq<char>) -> bool {
    t.id@.len() > 0 && orig == Some(md5_hex(text))
}

impl StaticTextComponent {
    /// Opens the PDF viewer on the saved template; `now_ms` is
    /// the time used to bypass caches. Nothing changes unless it shows.
    pub fn open_pdf(&mut self, now_ms: u64) -> (r: PdfOpen)
        ensures
            r == match old(self).template {
                None => PdfOpen::NoTemplate,
                Some(t) => if pdf_ready(t, opt_view(old(self).original_md5), old(self).text@) {
                    PdfOpen::Show
                } else {
                    PdfOpen::SaveFirst
                },
            },
            r is Show ==> final(self).pdf_loading && opt_view(final(self).pdf_url) == Some(
                pdf_address(old(self).template->0.id@, now_ms as nat),
            ),
            r is Show ==> final(self).same_but_pdf(old(self)),
            !(r is Show) ==> *final(self) == *old(self),
    {
        match &self.template {
            None => PdfOpen::NoTemplate,
            Some(t) => {
                if t.id.as_str().is_empty() {
                    return PdfOpen::SaveFirst;
                }
                let current = compute_md5(self.text.as_str());
                match &self.original_md5 {
                    Some(orig) => {
                        if *orig != current {
                            return PdfOpen::SaveFirst;
                        }
                    },
                    None => {
                        return PdfOpen::SaveFirst;
                    },
                }
                let url = pdf_url_of(t.id.as_str(), now_ms);
                self.pdf_url = Some(url);
                self.pdf_loading = true;
                PdfOpen::Show
            },
        }
    }

    /// Everything but the PDF viewer is as in `o`.
    pub open spec fn same_but_pdf(&self, o: &Self) -> bool {
        &&& self.text == o.text
        &&& self.history == o.history
        &&& self.history_index == o.history_index
        &&& self.active_tab == o.active_tab
        &&& self.template == o.template
        &&& self.selected_image_id == o.selected_image_id
        &&& self.loaded == o.loaded
        &&& self.original_md5 == o.original_md5
    }

    /// The PDF finished loading.
    pub fn pdf_loaded(&mut self) -> (redraw: bool)
        ensures
            redraw,
            !final(self).pdf_loading,
            final(self).pdf_url == old(self).pdf_url,
            final(self).same_but_pdf(old(self)),
    {
        self.pdf_loading = false;
        true
    }

    /// The PDF viewer was closed.
    pub fn close_pdf_dialog(&mut self) -> (redraw: bool)
        ensures
            redraw,
            !final(self).pdf_loading,
            final(self).pdf_url is None,
            final(self).same_but_pdf(old(self)),
    {
        self.pdf_url = None;
        self.pdf_loading = false;
        true
    }
}

fn pdf_url_of(id: &str, ts: u64) -> (r: String)
    ensures
        r@ == pdf_address(id@, ts as nat),
{
    let mut v = chars_of("/api/templates/pdf/");
    let idc = chars_of(id);
    crate::text::extend_chars(&mut v, &idc);
    let q = chars_of("?t=");
    crate::text::extend_chars(&mut v, &q);
    let d = crate::text::decimal_chars(ts);
    crate::text::extend_chars(&mut v, &d);
    assert(v@ =~= pdf_address(id@, ts as nat));
    string_of(&v)
}

/// Whether the placeholder found at `j`, if any, has a title in `allowed`.
pub open spec fn title_allowed_at(s: Seq<char>, j: int, allowed: Seq<Seq<char>>) -> bool {
    match ph_match_at(s, j) {
        Some((colon, close, e)) => allowed.contains(ph_title(s, j, colon)),
        None => true,
    }
}

proof fn lemma_pruned_from_keeps(s: Seq<char>, allowed: Seq<Seq<char>>, i: int)
    requires
        0 <= i <= s.len(),
        forall|j: int| 0 <= j < s.len() ==> #[trigger] title_allowed_at(s, j, allowed),
    ensures
        pruned_from(s, i, allowed) == s.skip(i),
    decreases s.len() - i,
{
    if i >= s.len() {
        assert(s.skip(i) =~= Seq::<char>::empty());
    } else {
        assert(title_allowed_at(s, i, allowed));
        match ph_match_at(s, i) {
            Some((colon, close, e)) => {
                lemma_pruned_from_keeps(s, allowed, e);
                assert(s.subrange(i, e) + s.skip(e) =~= s.skip(i));
            },
            None => {
                lemma_pruned_from_keeps(s, allowed, i + 1);
                assert(seq![s[i]] + s.skip(i + 1) =~= s.skip(i));
            },
        }
    }
}

/// Pruning keeps the text as it is when every placeholder's title is still
/// a column.
pub proof fn law_pruning_keeps_allowed(s: Seq<char>, allowed: Seq<Seq<char>>)
    requires
        forall|j: int| 0 <= j < s.len() ==> #[trigger] title_allowed_at(s, j, allowed),
    ensures
        pruned(s, allowed) == s,
{
    lemma_pruned_from_keeps(s, allowed, 0);
    assert(s.skip(0) =~= s);
}

// ---------------------------------------------------------------------------
// Data placeholders
// ---------------------------------------------------------------------------

/// The tag of a data placeholder: the column's title and the Base64 of the
/// UTF-8 bytes of its sample value.
pub open spec fn placeholder_tag(title: Seq<char>, value: Seq<char>) -> Seq<char> {
    "[ph:"@ + title + ":"@ + base64_encoding(encode_utf8(value)) + "]"@
}

/// The sample value of a column: its first-row value, or nothing.
pub open spec fn sample_value(c: ColumnCheck) -> Seq<char> {
    match c.first_row {
        Some(v) => v@,
        None => Seq::<char>::empty(),
    }
}

/// The character index at which a UTF-16 offset lands.
pub open spec fn insert_index(s: Seq<char>, k: int) -> int {
    crate::cursor::chars_within_units(s, k) as int
}

/// The titles of a list of columns.
pub open spec fn titles_of(cols: Seq<ColumnCheck>) -> Seq<Seq<char>> {
    cols.map_values(|c: ColumnCheck| c.title@)
}

/// `s` from index `i` on, with every placeholder tag whose title is not in
/// `allowed` removed.
pub open spec fn pruned_from(s: Seq<char>, i: int, allowed: Seq<Seq<char>>) -> Seq<char>
    decreases s.len() - i,
{
    if i < 0 || i >= s.len() {
        Seq::<char>::empty()
    } else {
        match ph_match_at(s, i) {
            Some((colon, close, e)) => if e > i {
                (if allowed.contains(ph_title(s, i, colon)) {
                    s.subrange(i, e)
                } else {
                    Seq::<char>::empty()
                }) + pruned_from(s, e, allowed)
            } else {
                Seq::<char>::empty()
            },
            None => seq![s[i]] + pruned_from(s, i + 1, allowed),
        }
    }
}

/// `s` with every placeholder tag whose title is not in `allowed` removed.
pub open spec fn pruned(s: Seq<char>, allowed: Seq<Seq<char>>) -> Seq<char> {
    pruned_from(s, 0, allowed)
}

proof fn lemma_encode_utf8_len(c: Seq<char>)
    ensures
        encode_utf8(c).len() <= 4 * c.len(),
    decreases c.len(),
{
    if c.len() > 0 {
        lemma_encode_utf8_len(c.drop_first());
    }
}

fn title_allowed(cols: &Vec<ColumnCheck>, title: &Vec<char>) -> (r: bool)
    ensures
        r == titles_of(cols@).contains(title@),
{
    let mut i: usize = 0;
    while i < cols.len()
        invariant
            i <= cols@.len(),
            forall|j: int| 0 <= j < i ==> titles_of(cols@)[j] != title@,
        decreases cols@.len() - i,
    {
        let t = chars_of(cols[i].title.as_str());
        if crate::text::chars_eq(&t, title) {
            assert(titles_of(cols@)[i as int] == title@);
            return true;
        }
        i = i + 1;
    }
    false
}

fn prune_chars(c: &Vec<char>, cols: &Vec<ColumnCheck>) -> (r: Vec<char>)
    ensures
        r@ == pruned(c@, titles_of(cols@)),
{
    let ghost allowed = titles_of(cols@);
    let mut out: Vec<char> = Vec::new();
    let mut i: usize = 0;
    while i < c.len()
        invariant
            i <= c@.len(),
            allowed == titles_of(cols@),
            out@ + pruned_from(c@, i as int, allowed) == pruned(c@, allowed),
        decreases c@.len() - i,
    {
        match crate::tags::ph_match_in(c, i) {
            Some((colon, close, e)) => {
                let ghost o = out@;
                let title = sub_chars(c, i + 4, colon);
                let keep = title_allowed(cols, &title);
                if keep {
                    let tag = sub_chars(c, i, e);
                    crate::text::extend_chars(&mut out, &tag);
                }
                proof {
                    let piece = if keep {
                        c@.subrange(i as int, e as int)
                    } else {
                        Seq::<char>::empty()
                    };
                    assert(out@ =~= o + piece);
                    assert(pruned_from(c@, i as int, allowed) == piece + pruned_from(c@, e as int, allowed));
                    assert(out@ + pruned_from(c@, e as int, allowed) =~= o + (piece + pruned_from(
                        c@,
                        e as int,
                        allowed,
                    )));
                }
                i = e;
            },
            None => {
                assert(out@.push(c@[i as int]) + pruned_from(c@, i + 1, allowed) =~= out@ + (seq![
                    c@[i as int],
                ] + pruned_from(c@, i + 1, allowed)));
                out.push(c[i]);
                i = i + 1;
            },
        }
    }
    assert(out@ + Seq::<char>::empty() =~= out@);
    out
}

impl StaticTextComponent {
    /// Inserts the placeholder tag of column `col` at the cursor, given in
    /// UTF-16 units, and gives the cursor position just after the tag.
    pub fn insert_csv_placeholder(&mut self, col: &ColumnCheck, utf16_pos: usize) -> (new_pos: u32)
        requires
            old(self).text@.len() + col.title@.len() + 8 * sample_value(*col).len() + 16
                <= usize::MAX / 8,
        ensures
            final(self).text@ == spliced(
                old(self).text@,
                insert_index(old(self).text@, utf16_pos as int),
                insert_index(old(self).text@, utf16_pos as int),
                placeholder_tag(col.title@, sample_value(*col)),
            ),
            new_pos == utf16_len(
                final(self).text@.take(
                    insert_index(old(self).text@, utf16_pos as int) + placeholder_tag(
                        col.title@,
                        sample_value(*col),
                    ).len(),
                ),
            ) as u32,
            final(self).same_but_text(old(self)),
            crate::layout::placeholder_text(
                col.title@ + ":"@ + base64_encoding(encode_utf8(sample_value(*col))),
            ) == Some(sample_value(*col)),
    {
        proof {
            reveal_strlit("[ph:");
            reveal_strlit(":");
            reveal_strlit("]");
        }
        let c = chars_of(self.text.as_str());
        let ins = crate::cursor::chars_in_units(&c, utf16_pos);
        let value = match &col.first_row {
            Some(v) => v.clone(),
            None => String::new(),
        };
        let b64 = crate::encoding::base64_encode(value.as_str().as_bytes());
        proof {
            lemma_encode_utf8_len(value@);
            assert(value@ == sample_value(*col));
            crate::encoding::lemma_base64_encoding_shape(encode_utf8(value@));
            assert forall|i: int| 0 <= i < b64@.len() implies b64@[i] != ':' by {
                assert(crate::encoding::is_base64_char(b64@[i]));
            }
            assert(":"@ =~= seq![':']);
            crate::layout::lemma_placeholder_round_trip(col.title@, b64@, value@);
        }
        let mut tag = chars_of("[ph:");
        let tc = chars_of(col.title.as_str());
        crate::text::extend_chars(&mut tag, &tc);
        tag.push(':');
        let bc = chars_of(b64.as_str());
        crate::text::extend_chars(&mut tag, &bc);
        tag.push(']');
        assert(tag@ =~= placeholder_tag(col.title@, sample_value(*col)));
        let t = splice_chars(&c, ins, ins, &tag);
        self.text = string_of(&t);
        let p = utf16_len_prefix(&t, ins + tag.len());
        p as u32
    }

    /// Removes the placeholder tags whose title is no longer among the
    /// columns `cols`; the template takes the new
    /// text. The result says whether the text changed.
    pub fn csv_columns_updated(&mut self, cols: &Vec<ColumnCheck>) -> (changed: bool)
        ensures
            changed == (pruned(old(self).text@, titles_of(cols@)) != old(self).text@),
            changed ==> final(self).text@ == pruned(old(self).text@, titles_of(cols@)),
            changed ==> match old(self).template {
                Some(t) => final(self).template is Some && template_view(final(self).template->0)
                    == (TemplateView {
                    id: t.id@,
                    text: final(self).text@,
                    images: opt_images_view(t.images),
                }),
                None => final(self).template is None,
            },
            !changed ==> *final(self) == *old(self),
            final(self).same_but_content(old(self)),
    {
        let c = chars_of(self.text.as_str());
        let nc = prune_chars(&c, cols);
        if crate::text::chars_eq(&nc, &c) {
            return false;
        }
        self.text = string_of(&nc);
        let tpl = self.template.take();
        match tpl {
            Some(t) => {
                self.template = Some(Template { id: t.id, text: self.text.clone(), images: t.images });
            },
            None => {},
        }
        true
    }
}

// ---------------------------------------------------------------------------
// Loading, notices and dialogs
// ---------------------------------------------------------------------------

/// What the first drawing of the editor starts.
#[derive(Debug, Clone, Copy, PartialEq, Eq, Structural)]
pub enum LoadStart {
    /// Nothing: not the first drawing, or already done.
    Nothing,
    /// The template named by the page is fetched.
    Fetch,
    /// No template was named: a new one was made.
    Created,
}

impl StaticTextComponent {
    /// The first drawing (`rendered`): once, the editor either fetches the
    /// template it was given or, without one, makes a new template.
    pub fn first_render(&mut self, first_render: bool, has_template_id: bool) -> (r: LoadStart)
        ensures
            !(first_render && !old(self).loaded) ==> r == LoadStart::Nothing && *final(self)
                == *old(self),
            first_render && !old(self).loaded ==> {
                &&& final(self).loaded
                &&& final(self).text == old(self).text
                &&& final(self).history == old(self).history
                &&& final(self).history_index == old(self).history_index
                &&& final(self).original_md5 == old(self).original_md5
                &&& if has_template_id {
                    r == LoadStart::Fetch && final(self).template == old(self).template
                } else {
                    &&& r == LoadStart::Created
                    &&& final(self).template is Some
                    &&& is_hyphenated_uuid(final(self).template->0.id@)
                    &&& template_view(final(self).template->0) == bare_template(
                        final(self).template->0.id@,
                        Seq::<char>::empty(),
                    )
                }
            },
    {
        if !(first_render && !self.loaded) {
            return LoadStart::Nothing;
        }
        self.loaded = true;
        if has_template_id {
            LoadStart::Fetch
        } else {
            self.template = Some(create_empty_template());
            LoadStart::Created
        }
    }
}

/// A notice shown to the user.
#[derive(Debug)]
pub enum Toast {
    TemplateLoaded,
    TemplateCreated,
    TemplateLoadFailed,
    TemplateSaved,
    SaveFailed(String),
    ImageTooLarge,
}

/// The text of a notice.
pub open spec fn toast_text(t: Toast) -> Seq<char> {
    match t {
        Toast::TemplateLoaded => "Plantilla cargada correctamente."@,
        Toast::TemplateCreated => "No se proporcionó ID de plantilla. Se creó una nueva."@,
        Toast::TemplateLoadFailed => "Error cargando plantilla. Se creó una nueva."@,
        Toast::TemplateSaved => "Plantilla guardada correctamente."@,
        Toast::SaveFailed(e) => "Error al guardar la plantilla: "@ + e@,
        Toast::ImageTooLarge => "El archivo es demasiado grande (máx. 4 MB)."@,
    }
}

impl Toast {
    /// The text of this notice.
    pub fn text(&self) -> (r: String)
        ensures
            r@ == toast_text(*self),
    {
        match self {
            Toast::TemplateLoaded => String::from_str("Plantilla cargada correctamente."),
            Toast::TemplateCreated => String::from_str(
                "No se proporcionó ID de plantilla. Se creó una nueva.",
            ),
            Toast::TemplateLoadFailed => String::from_str("Error cargando plantilla. Se creó una nueva."),
            Toast::TemplateSaved => String::from_str("Plantilla guardada correctamente."),
            Toast::SaveFailed(e) => {
                let mut v = chars_of("Error al guardar la plantilla: ");
                crate::text::extend_chars(&mut v, &chars_of(e.as_str()));
                string_of(&v)
            },
            Toast::ImageTooLarge => String::from_str("El archivo es demasiado grande (máx. 4 MB)."),
        }
    }
}

/// The largest image, in bytes, the editor accepts.
pub const MAX_IMAGE_FILE_SIZE: u64 = 4000000;

/// Whether an image of `size` bytes is refused: it is larger than the
/// largest accepted.
pub fn image_too_large(size: u64) -> (r: bool)
    ensures
        r == (size > MAX_IMAGE_FILE_SIZE),
{
    size > MAX_IMAGE_FILE_SIZE
}

/// What the image dialog shows.
#[derive(Debug)]
pub enum ImageDialogContent {
    /// The selected image: its identifier and the address of its data.
    Image { id: String, src: String },
    /// The selected image is not among the template's.
    NotFound,
    /// The template has no images.
    NoImages,
    /// No image is selected, or there is no template.
    NoSelection,
}

/// What the image dialog shows, as values.
pub enum ImageDialogView {
    Image(Seq<char>, Seq<char>),
    NotFound,
    NoImages,
    NoSelection,
}

/// The values of the image dialog's content.
pub open spec fn dialog_content_view(c: ImageDialogContent) -> ImageDialogView {
    match c {
        ImageDialogContent::Image { id, src } => ImageDialogView::Image(id@, src@),
        ImageDialogContent::NotFound => ImageDialogView::NotFound,
        ImageDialogContent::NoImages => ImageDialogView::NoImages,
        ImageDialogContent::NoSelection => ImageDialogView::NoSelection,
    }
}

/// The first image of `s` with identifier `id`.
pub open spec fn first_image(s: Seq<(Seq<char>, Seq<char>)>, id: Seq<char>) -> Option<Seq<char>>
    decreases s.len(),
{
    if s.len() == 0 {
        None
    } else if s[0].0 == id {
        Some(s[0].1)
    } else {
        first_image(s.drop_first(), id)
    }
}

/// The data address of an image.
pub open spec fn image_src(b64: Seq<char>) -> Seq<char> {
    "data:image/*;base64,"@ + b64
}

impl StaticTextComponent {
    /// What the image dialog should show, as values.
    pub open spec fn image_dialog_view(&self) -> ImageDialogView {
        match (self.selected_image_id, self.template) {
            (Some(id), Some(t)) => match opt_images_view(t.images) {
                Some(s) => match first_image(s, id@) {
                    Some(b) => ImageDialogView::Image(id@, image_src(b)),
                    None => ImageDialogView::NotFound,
                },
                None => ImageDialogView::NoImages,
            },
            _ => ImageDialogView::NoSelection,
        }
    }

    /// What the image dialog shows.
    pub fn image_dialog_content(&self) -> (r: ImageDialogContent)
        ensures
            dialog_content_view(r) == self.image_dialog_view(),
    {
        match (&self.selected_image_id, &self.template) {
            (Some(id), Some(t)) => match &t.images {
                Some(v) => {
                    let mut i: usize = 0;
                    assert(images_view(v@).skip(0) =~= images_view(v@));
                    while i < v.len()
                        invariant
                            i <= v@.len(),
                            self.selected_image_id == Some(*id),
                            self.template == Some(*t),
                            t.images == Some(*v),
                            first_image(images_view(v@), id@) == first_image(
                                images_view(v@).skip(i as int),
                                id@,
                            ),
                        decreases v@.len() - i,
                    {
                        assert(images_view(v@).skip(i as int)[0] == image_view(v@[i as int]));
                        if same_text(v[i].id.as_str(), id.as_str()) {
                            let mut src = chars_of("data:image/*;base64,");
                            crate::text::extend_chars(&mut src, &chars_of(v[i].base64.as_str()));
                            assert(first_image(images_view(v@).skip(i as int), id@) == Some(
                                v@[i as int].base64@,
                            ));
                            let src_s = string_of(&src);
                            let id_s = id.clone();
                            assert(src_s@ == image_src(v@[i as int].base64@));
                            assert(id_s@ == id@);
                            assert(first_image(images_view(v@), id@) == Some(v@[i as int].base64@));
                            return ImageDialogContent::Image { id: id_s, src: src_s };
                        }
                        assert(images_view(v@).skip(i as int).drop_first() =~= images_view(v@).skip(
                            i + 1,
                        ));
                        i = i + 1;
                    }
                    ImageDialogContent::NotFound
                },
                None => ImageDialogContent::NoImages,
            },
            _ => ImageDialogContent::NoSelection,
        }
    }

    /// The style of the PDF frame: hidden while the PDF loads.
    pub fn pdf_frame_style(&self) -> (r: String)
        ensures
            r@ == if self.pdf_loading {
                "width:100%;height:100%;border:none;background:#fff;border-radius:4px;visibility:hidden;"@
            } else {
                "width:100%;height:100%;border:none;background:#fff;border-radius:4px;visibility:visible;"@
            },
    {
        if self.pdf_loading {
            String::from_str(
                "width:100%;height:100%;border:none;background:#fff;border-radius:4px;visibility:hidden;",
            )
        } else {
            String::from_str(
                "width:100%;height:100%;border:none;background:#fff;border-radius:4px;visibility:visible;",
            )
        }
    }
}

impl StaticTextComponent {
    /// The classes of the button of tab `tab`: `active` when it is shown.
    pub fn tab_class(&self, tab: &str) -> (r: String)
        ensures
            r@ == if self.active_tab@ == tab@ {
                "tab-btn active"@
            } else {
                "tab-btn"@
            },
    {
        if same_text(self.active_tab.as_str(), tab) {
            String::from_str("tab-btn active")
        } else {
            String::from_str("tab-btn")
        }
    }
}

} // verus!
