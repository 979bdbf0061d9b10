use templify::model::{DataSource, Image, JobStatus, JobUpdate};
use templify::server::{
    assemble_template, check_template_id, check_upload_parts, embedded_content_type,
    embedded_file_path, image_sync_plan, status_reply, template_load_error, template_save_error,
    upload_md5, ImageSync, JobTable, StatusReply,
};
use templify::ui::{
    icon_button_class, top_sheet_id, top_sheet_script, workspace_grid_style, App, WorkspaceGrid,
    YwMaterialTopSheet,
};

#[test]
fn job_status_read_back_after_recording() {
    let mut t = JobTable::new();
    t.insert("a".to_string(), JobStatus::Pending);
    t.insert("b".to_string(), JobStatus::InProgress(5));
    t.apply_update(JobUpdate { job_id: "a".to_string(), status: JobStatus::Completed("ok".to_string()) });
    assert!(matches!(t.get("a"), Some(JobStatus::Completed(m)) if m == "ok"));
    assert!(matches!(t.get("b"), Some(JobStatus::InProgress(5))));
    assert!(t.get("c").is_none());
}

#[test]
fn unknown_job_is_not_found() {
    let mut t = JobTable::new();
    match status_reply(&t, "x") {
        StatusReply::NotFound(m) => assert_eq!(m, "Job ID not found"),
        _ => panic!("expected not found"),
    }
    t.insert("x".to_string(), JobStatus::Failed("e".to_string()));
    match status_reply(&t, "x") {
        StatusReply::Found(JobStatus::Failed(m)) => assert_eq!(m, "e"),
        _ => panic!("expected the status"),
    }
}

#[test]
fn embedded_files() {
    assert_eq!(embedded_file_path("/"), "index.html");
    assert_eq!(embedded_file_path(""), "index.html");
    assert_eq!(embedded_file_path("//app.js"), "app.js");
    assert_eq!(embedded_file_path("/css/a.css"), "css/a.css");
    assert_eq!(embedded_content_type("app.js"), "text/javascript");
    assert_eq!(embedded_content_type("index.html"), "text/html");
    assert_eq!(embedded_content_type("blob.zzz"), "application/octet-stream");
}

fn img(id: &str, b: &str) -> Image {
    Image { id: id.to_string(), base64: b.to_string() }
}

#[test]
fn saving_without_images_deletes_all() {
    assert!(matches!(image_sync_plan(&None, &vec!["a".to_string()]), ImageSync::DeleteAll));
}

#[test]
fn saving_deletes_orphans_and_writes_images() {
    let plan = image_sync_plan(
        &Some(vec![img("b", "B"), img("c", "C")]),
        &vec!["a".to_string(), "b".to_string(), "z".to_string()],
    );
    match plan {
        ImageSync::Sync { delete, upsert } => {
            assert_eq!(delete, vec!["a".to_string(), "z".to_string()]);
            assert_eq!(
                upsert,
                vec![("b".to_string(), "B".to_string()), ("c".to_string(), "C".to_string())]
            );
        }
        _ => panic!("expected a sync"),
    }
}

#[test]
fn template_identifier_must_not_be_blank() {
    assert_eq!(check_template_id("  \t"), Err("Template id cannot be empty".to_string()));
    assert_eq!(check_template_id(""), Err("Template id cannot be empty".to_string()));
    assert!(check_template_id(" t ").is_ok());
}

#[test]
fn loaded_template_without_images_has_none() {
    let t = assemble_template("t".to_string(), "x".to_string(), vec![]);
    assert!(t.images.is_none());
    let u = assemble_template("t".to_string(), "x".to_string(), vec![img("a", "A")]);
    assert_eq!(u.images.unwrap().len(), 1);
    assert_eq!(template_load_error("Template not found"), "Error retrieving template: Template not found");
    assert_eq!(template_save_error("busy"), "Error saving template: busy");
}

#[test]
fn upload_needs_both_parts() {
    assert_eq!(
        check_upload_parts(None, true).unwrap_err(),
        "Missing 'json' part in multipart form"
    );
    let ds = DataSource { template_id: "t".to_string() };
    assert_eq!(
        check_upload_parts(Some(ds), false).unwrap_err(),
        "Missing 'file' part in multipart form"
    );
    let ds = DataSource { template_id: "t".to_string() };
    assert_eq!(check_upload_parts(Some(ds), true).unwrap().template_id, "t");
}

#[test]
fn uploaded_file_digest() {
    assert_eq!(upload_md5(b"abc"), "900150983cd24fb0d6963f7d28e17f72");
    assert_eq!(upload_md5(b""), "d41d8cd98f00b204e9800998ecf8427e");
}

#[test]
fn page_pieces() {
    let s = workspace_grid_style(1, 3);
    assert!(s.starts_with("display: grid;"));
    assert!(s.contains("grid-template-columns: repeat(1, 1fr);"));
    assert!(s.contains("grid-template-rows: repeat(3, 1fr);"));
    assert!(s.ends_with("box-shadow: 0 0 8px #ccc;"));
    let id = top_sheet_id();
    assert_eq!(id.len(), 39);
    assert!(id.starts_with("id-"));
    assert_eq!(
        top_sheet_script("x", true),
        "document.querySelector('#x').classList.add('show')"
    );
    assert_eq!(
        top_sheet_script("x", false),
        "document.querySelector('#x').classList.remove('show')"
    );
    assert_eq!(icon_button_class(true), "icon-btn wide");
    assert_eq!(icon_button_class(false), "icon-btn");
}

#[test]
fn root_grid_and_sheets() {
    let app = App::create();
    assert_eq!(app.grid_size(), (1, 3));
    assert_eq!(app.template_id(), "329a252d-5241-4df0-91b0-4a3e831a2b35");
    let g = WorkspaceGrid::create();
    assert_eq!(g.style(2, 1), workspace_grid_style(2, 1));
    let a = YwMaterialTopSheet::create();
    let b = YwMaterialTopSheet::create();
    assert!(a.id.starts_with("id-"));
    assert_ne!(a.id, b.id);
}
