use templify::csv_source::{
    poll_decision, status_url, upload_form_json, upload_network_error, upload_response,
    verify_request_body, verify_response, CsvDataSourceComponent, PollFetch, PollReport,
    VerifyStart,
};
use templify::model::{ColumnCheck, JobStatus, PlaceholderType};

fn col(title: &str) -> ColumnCheck {
    ColumnCheck {
        title: title.to_string(),
        placeholder_type: PlaceholderType::Text,
        first_row: Some("v".to_string()),
    }
}

#[test]
fn fresh_panel_label() {
    let p = CsvDataSourceComponent::new();
    assert_eq!(p.status_text(), "CSV");
    assert!(!p.is_error());
    assert_eq!(p.button_class(), "icon-btn");
}

#[test]
fn labels_follow_the_job() {
    let mut p = CsvDataSourceComponent::new();
    p.is_verifying = true;
    assert_eq!(p.status_text(), "Verificando CSV...");
    p.ticket_received("t1".to_string());
    assert_eq!(p.job_ticket.as_deref(), Some("t1"));
    assert_eq!(p.status_text(), "Verificando CSV...");
    p.status_updated(JobStatus::InProgress(1234567));
    assert!(p.is_verifying);
    assert_eq!(p.status_text(), "Líneas verificadas: 1.234.567");
    assert_eq!(p.button_class(), "icon-btn");
    p.status_updated(JobStatus::Completed("[]".to_string()));
    assert!(!p.is_verifying);
    assert_eq!(p.status_text(), "CSV Verificado");
}

#[test]
fn failed_job_shows_error() {
    let mut p = CsvDataSourceComponent::new();
    p.status_updated(JobStatus::Failed("mal".to_string()));
    assert!(!p.is_verifying);
    assert_eq!(p.status_text(), "Error: mal");
    assert!(p.is_error());
    assert_eq!(p.button_class(), "icon-btn error");
    assert_eq!(p.verify_result, Some(Err("mal".to_string())));
}

#[test]
fn long_error_label_is_limited() {
    let mut p = CsvDataSourceComponent::new();
    p.verify_error("no se pudo leer el archivo enviado".to_string());
    assert_eq!(p.status_text(), "Error: no se pudo leer el archivo enviado");
    assert_eq!(p.button_class(), "icon-btn limited error");
}

#[test]
fn outcome_without_job_status() {
    let mut p = CsvDataSourceComponent::new();
    p.verify_completed(Ok(true));
    assert_eq!(p.status_text(), "CSV Verificado");
    p.verify_completed(Ok(false));
    assert_eq!(p.status_text(), "CSV");
    p.verify_completed(Err("HTTP 500: x".to_string()));
    assert_eq!(p.status_text(), "Error: HTTP 500: x");
}

#[test]
fn completed_columns_are_applied() {
    let mut p = CsvDataSourceComponent::new();
    let notify = p.apply_completed(Ok(vec![col("A"), col("B")]));
    let cols = notify.unwrap();
    assert_eq!(cols.len(), 2);
    assert_eq!(cols[1].title, "B");
    assert_eq!(p.verify_result, Some(Ok(true)));
    assert_eq!(p.column_checks.as_ref().unwrap().len(), 2);
}

#[test]
fn unreadable_columns_are_an_error() {
    let mut p = CsvDataSourceComponent::new();
    p.column_checks = Some(vec![col("A")]);
    assert!(p.apply_completed(Err("expected value".to_string())).is_none());
    assert!(p.column_checks.is_none());
    assert_eq!(p.verify_result, Some(Err("Deserialize ColumnCheck: expected value".to_string())));
}

#[test]
fn dialog_and_warning_flow() {
    let mut p = CsvDataSourceComponent::new();
    p.upload_error = Some("old".to_string());
    p.toggle_modal();
    assert!(p.show_modal);
    assert!(p.upload_error.is_none());
    p.trigger_file_picker();
    assert!(p.show_confirm_upload);
    assert!(!p.accept_upload_warning());
    assert!(!p.show_confirm_upload);
    p.trigger_file_picker();
    assert!(p.reject_upload_warning());
    assert!(!p.show_confirm_upload);
    p.file_picked();
    assert!(p.uploading);
}

#[test]
fn successful_upload_restarts_verification() {
    let mut p = CsvDataSourceComponent::new();
    p.show_modal = true;
    p.uploading = true;
    p.column_checks = Some(vec![col("A")]);
    let start = p.upload_result(Ok(()), Some("tpl".to_string()));
    assert_eq!(start.as_deref(), Some("tpl"));
    assert!(!p.uploading && !p.show_modal);
    assert!(p.is_verifying);
    assert!(p.column_checks.is_none());
    assert_eq!(p.started_for_template.as_deref(), Some("tpl"));
}

#[test]
fn failed_upload_keeps_dialog() {
    let mut p = CsvDataSourceComponent::new();
    p.show_modal = true;
    p.uploading = true;
    assert!(p.upload_result(Err("HTTP 500: x".to_string()), Some("tpl".to_string())).is_none());
    assert!(p.show_modal);
    assert!(!p.uploading);
    assert_eq!(p.upload_error.as_deref(), Some("HTTP 500: x"));
}

#[test]
fn double_click_gives_the_column() {
    let mut p = CsvDataSourceComponent::new();
    p.show_modal = true;
    p.column_checks = Some(vec![col("A"), col("B")]);
    let c = p.double_click_column(1).unwrap();
    assert_eq!(c.title, "B");
    assert_eq!(p.selected_column, Some(1));
    assert!(!p.show_modal);
    assert!(p.double_click_column(5).is_none());
    p.select_column(0);
    assert_eq!(p.selected_column, Some(0));
}

#[test]
fn verification_starts_once_per_template() {
    let mut p = CsvDataSourceComponent::new();
    assert_eq!(p.rendered(true, Some("a".to_string())).as_deref(), Some("a"));
    assert!(p.is_verifying);
    assert!(p.rendered(true, Some("a".to_string())).is_none());
    assert!(p.rendered(false, Some("b".to_string())).is_none());
    assert!(p.template_changed(Some("a".to_string()), Some("a".to_string())).is_none());
    assert!(p.template_changed(Some("b".to_string()), Some("a".to_string())).is_none());
    assert_eq!(p.template_changed(Some("a".to_string()), Some("b".to_string())).as_deref(), Some("b"));
    assert!(p.template_changed(Some("b".to_string()), None).is_none());
}

#[test]
fn verify_answers() {
    match verify_response(200, "  ticket-1 \n") {
        VerifyStart::Ticket(t) => assert_eq!(t, "ticket-1"),
        _ => panic!("expected ticket"),
    }
    match verify_response(200, "   ") {
        VerifyStart::Failed(m) => assert_eq!(m, "Empty ticket returned from verify endpoint"),
        _ => panic!("expected failure"),
    }
    match verify_response(404, "nope") {
        VerifyStart::Failed(m) => assert_eq!(m, "HTTP 404: nope"),
        _ => panic!("expected failure"),
    }
}

#[test]
fn upload_answers() {
    assert!(upload_response(204, "").is_ok());
    assert_eq!(upload_response(503, "down"), Err("HTTP 503: down".to_string()));
    assert_eq!(upload_network_error(0), "Network error, status 0");
}

#[test]
fn polling_decisions() {
    let (r, done) = poll_decision(PollFetch::Status(JobStatus::InProgress(3)));
    assert!(matches!(r, PollReport::Status(JobStatus::InProgress(3))));
    assert!(!done);
    let (_, done) = poll_decision(PollFetch::Status(JobStatus::Completed("x".to_string())));
    assert!(done);
    let (r, done) = poll_decision(PollFetch::NotJson);
    assert!(done);
    match r {
        PollReport::Error(m) => assert_eq!(m, "Response is not valid JSON"),
        _ => panic!("expected error"),
    }
    match poll_decision(PollFetch::NotJobStatus).0 {
        PollReport::Error(m) => assert_eq!(m, "Could not parse job status"),
        _ => panic!("expected error"),
    }
    match poll_decision(PollFetch::BodyUnreadable).0 {
        PollReport::Error(m) => assert_eq!(m, "Could not read response body"),
        _ => panic!("expected error"),
    }
    match poll_decision(PollFetch::RequestFailed("timeout".to_string())).0 {
        PollReport::Error(m) => assert_eq!(m, "timeout"),
        _ => panic!("expected error"),
    }
}

#[test]
fn request_bodies_and_addresses() {
    assert_eq!(verify_request_body("abc"), "{\"uuid\":\"abc\"}");
    assert_eq!(verify_request_body("a\"b"), "{\"uuid\":\"a\\\"b\"}");
    assert_eq!(upload_form_json(&Some("t1".to_string())), "{\"template_id\":\"t1\"}");
    assert_eq!(upload_form_json(&None), "{\"template_id\":\"\"}");
    assert_eq!(status_url("j1"), "/api/data_sources/csv/status/j1");
}

#[test]
fn dialog_texts() {
    let mut p = CsvDataSourceComponent::new();
    assert_eq!(p.upload_button_label(), " Subir archivo");
    assert_eq!(p.upload_button_title(), "Subir archivo");
    p.file_picked();
    assert_eq!(p.upload_button_label(), " Subiendo...");
    assert_eq!(p.upload_button_title(), "Subiendo...");
    assert_eq!(
        templify::csv_source::column_tooltip("Nombre"),
        "Haz doble click en 'Nombre' para insertarla en la plantilla"
    );
    assert_eq!(templify::csv_source::column_aria_label("Nombre"), "Insertar columna Nombre");
}

#[test]
fn small_counts_are_not_grouped() {
    let mut p = CsvDataSourceComponent::new();
    p.status_updated(JobStatus::InProgress(999));
    assert_eq!(p.status_text(), "Líneas verificadas: 999");
    p.status_updated(JobStatus::InProgress(1000));
    assert_eq!(p.status_text(), "Líneas verificadas: 1.000");
}
