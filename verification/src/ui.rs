//! Small pieces of the page: the sheet the editor sits on, the sliding
//! top sheets of the dialogs, and toolbar buttons.
use vstd::prelude::*;
use crate::text::{chars_of, decimal, string_of};

verus! {

broadcast use vstd::string::group_string_axioms;

/// The style of the page-sized grid with `columns` columns and `rows` rows
/// (`WorkspaceGrid::view`).
pub open spec fn grid_style(columns: nat, rows: nat) -> Seq<char> {
    "display: grid;\n             grid-template-columns: repeat("@ + decimal(columns)
        + ", 1fr);\n             grid-template-rows: repeat("@ + decimal(rows)
        + ", 1fr);\n             width: 19.59cm;\n             height: 27.94cm;\n             margin: auto;\n             padding: 10mm;\n             background: white;\n             box-shadow: 0 0 8px #ccc;"@
}

/// The style of the workspace grid.
pub fn workspace_grid_style(columns: usize, rows: usize) -> (r: String)
    ensures
        r@ == grid_style(columns as nat, rows as nat),
{
    let mut v = chars_of("display: grid;\n             grid-template-columns: repeat(");
    assert(columns as u64 == columns);
    assert(rows as u64 == rows);
    crate::text::extend_chars(&mut v, &crate::text::decimal_chars(columns as u64));
    crate::text::extend_chars(&mut v, &chars_of(", 1fr);\n             grid-template-rows: repeat("));
    crate::text::extend_chars(&mut v, &crate::text::decimal_chars(rows as u64));
    crate::text::extend_chars(
        &mut v,
        &chars_of(
            ", 1fr);\n             width: 19.59cm;\n             height: 27.94cm;\n             margin: auto;\n             padding: 10mm;\n             background: white;\n             box-shadow: 0 0 8px #ccc;",
        ),
    );
    string_of(&v)
}

/// A fresh element identifier for a top sheet: `id-` and a UUID
/// (`YwMaterialTopSheet::create`).
pub fn top_sheet_id() -> (r: String)
    ensures
        r@.len() == 39,
        r@.take(3) == "id-"@,
        crate::encoding::is_hyphenated_uuid(r@.skip(3)),
{
    proof {
        reveal_strlit("id-");
    }
    let u = crate::encoding::new_uuid();
    let mut v = chars_of("id-");
    crate::text::extend_chars(&mut v, &chars_of(u.as_str()));
    assert(v@.take(3) =~= "id-"@);
    assert(v@.skip(3) =~= u@);
    string_of(&v)
}

/// The script that shows (`open`) or hides a top sheet with element
/// identifier `id`.
pub open spec fn top_sheet_script_text(id: Seq<char>, open: bool) -> Seq<char> {
    "document.querySelector('#"@ + id + (if open {
        "').classList.add('"@
    } else {
        "').classList.remove('"@
    }) + "show')"@
}

/// The script that shows or hides a top sheet.
pub fn top_sheet_script(id: &str, open: bool) -> (r: String)
    ensures
        r@ == top_sheet_script_text(id@, open),
{
    let mut v = chars_of("document.querySelector('#");
    crate::text::extend_chars(&mut v, &chars_of(id));
    if open {
        crate::text::extend_chars(&mut v, &chars_of("').classList.add('"));
    } else {
        crate::text::extend_chars(&mut v, &chars_of("').classList.remove('"));
    }
    crate::text::extend_chars(&mut v, &chars_of("show')"));
    string_of(&v)
}

/// The class of a toolbar button.
pub fn icon_button_class(wide: bool) -> (r: String)
    ensures
        r@ == (if wide {
            "icon-btn wide"@
        } else {
            "icon-btn"@
        }),
{
    if wide {
        String::from_str("icon-btn wide")
    } else {
        String::from_str("icon-btn")
    }
}

/// The root of the page: one editor on a page-sized sheet.
pub struct App;

impl App {
    /// The application (`App::create`).
    pub fn create() -> (r: App) {
        App
    }

    /// The columns and rows of the sheet the editor sits on (`App::view`).
    pub fn grid_size(&self) -> (r: (usize, usize))
        ensures
            r == (1usize, 3usize),
    {
        (1, 3)
    }

    /// The template the page opens (`App::view`).
    pub fn template_id(&self) -> (r: String)
        ensures
            r@ == "329a252d-5241-4df0-91b0-4a3e831a2b35"@,
    {
        String::from_str("329a252d-5241-4df0-91b0-4a3e831a2b35")
    }
}

/// The page-sized grid that holds the editor.
pub struct WorkspaceGrid;

impl WorkspaceGrid {
    /// The grid (`WorkspaceGrid::create`).
    pub fn create() -> (r: WorkspaceGrid) {
        WorkspaceGrid
    }

    /// Its style for `columns` columns and `rows` rows
    /// (`WorkspaceGrid::view`).
    pub fn style(&self, columns: usize, rows: usize) -> (r: String)
        ensures
            r@ == grid_style(columns as nat, rows as nat),
    {
        workspace_grid_style(columns, rows)
    }
}

/// A sheet that slides in from the top, known by its element identifier.
pub struct YwMaterialTopSheet {
    pub id: String,
}

impl YwMaterialTopSheet {
    /// A sheet with a fresh identifier (`YwMaterialTopSheet::create`).
    pub fn create() -> (r: YwMaterialTopSheet)
        ensures
            r.id@.len() == 39,
            r.id@.take(3) == "id-"@,
            crate::encoding::is_hyphenated_uuid(r.id@.skip(3)),
    {
        YwMaterialTopSheet { id: top_sheet_id() }
    }
}

} // verus!
