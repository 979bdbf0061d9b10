use templify::csv_check::{
    detect_delimiter, find_first_invalid, infer_column_checks, normalize_cell,
    validate_and_normalize_titles, validate_value,
};
use templify::datasource::{
    header_rollback_error, merge_join_error_status, missing_data_error, missing_md5_rollback_error,
    record_read_error, reset_flag_error, MissingData, check_chunk, data_file_name, header_and_first_row, merge_job_status, prepare_columns,
    progress_status, update_template_verification, upload_writes, verification_plan,
    verify_join_error_status, verify_job_status, ChunkScan, ChunkVerdict, RecordWrite,
    TemplateRecord, VerificationPlan,
};
use templify::merge::{
    merge_row_error, merge_source, merge_tasks, merged_pdf_name, preview_pdf_name, row_placeholders,
    substitute_placeholders,
};
use templify::model::{ColumnCheck, JobStatus, PlaceholderType};
use templify::number::is_float_text;

fn s(v: &str) -> String {
    v.to_string()
}

#[test]
fn cells_are_trimmed_and_unquoted() {
    assert_eq!(normalize_cell(" \"a b\" "), "a b");
    assert_eq!(normalize_cell("'x'"), "x");
    assert_eq!(normalize_cell("\"x'"), "\"x'");
    assert_eq!(normalize_cell("a\u{a0}b"), "a b");
    assert_eq!(normalize_cell("\" \u{a0}y \""), "y");
}

#[test]
fn values_against_types() {
    assert!(validate_value(&PlaceholderType::Text, "anything"));
    assert!(validate_value(&PlaceholderType::Number, "3.5"));
    assert!(validate_value(&PlaceholderType::Number, "-1e3"));
    assert!(validate_value(&PlaceholderType::Number, "inf"));
    assert!(!validate_value(&PlaceholderType::Number, "abc"));
    assert!(validate_value(&PlaceholderType::Currency, "$5"));
    assert!(validate_value(&PlaceholderType::Currency, "3,50 €"));
    assert!(validate_value(&PlaceholderType::Currency, "£1"));
    assert!(validate_value(&PlaceholderType::Currency, "¥100"));
    assert!(!validate_value(&PlaceholderType::Currency, "5"));
    assert!(validate_value(&PlaceholderType::Email, "a@b.c"));
    assert!(!validate_value(&PlaceholderType::Email, "a@b"));
}

#[test]
fn float_grammar() {
    for ok in ["1", "1.", ".5", "+2.5E-3", "NaN", "infinity", "-Inf", "007"] {
        let v: Vec<char> = ok.chars().collect();
        assert!(is_float_text(&v), "{}", ok);
        assert!(ok.parse::<f64>().is_ok());
    }
    for bad in ["", ".", "e5", "1e", "1.2.3", "0x10", " 1", "in"] {
        let v: Vec<char> = bad.chars().collect();
        assert!(!is_float_text(&v), "{}", bad);
        assert!(bad.parse::<f64>().is_err());
    }
}

#[test]
fn delimiter_detection() {
    assert_eq!(detect_delimiter("a;b;c"), ';');
    assert_eq!(detect_delimiter("a\tb"), '\t');
    assert_eq!(detect_delimiter("a|b|c,d"), '|');
    assert_eq!(detect_delimiter("a,b;c"), ';');
    assert_eq!(detect_delimiter("abc"), ',');
}

#[test]
fn header_titles_are_normalized() {
    assert_eq!(
        validate_and_normalize_titles(" First  Name ,\"Age\"", ','),
        Ok(vec![s("First_Name"), s("Age")])
    );
    assert_eq!(
        validate_and_normalize_titles("a,,b", ','),
        Err(s("Header contains an empty title"))
    );
    assert_eq!(
        validate_and_normalize_titles("a,12", ','),
        Err(s("Header titles must be textual, but found numeric title: '12'"))
    );
    assert_eq!(
        validate_and_normalize_titles("a,1.5e3", ','),
        Err(s("Header titles must be textual, but found numeric title: '1.5e3'"))
    );
    assert_eq!(
        validate_and_normalize_titles("inf,NaN,Infinity", ','),
        Ok(vec![s("inf"), s("NaN"), s("Infinity")])
    );
    assert_eq!(
        validate_and_normalize_titles("a b,a  b", ','),
        Err(s("Duplicate title in header after normalization: 'a_b'"))
    );
}

#[test]
fn column_types_from_first_row() {
    let titles = vec![s("A"), s("B"), s("C"), s("D"), s("E")];
    let cols = infer_column_checks(&titles, "x@y.z,$5,12, hola ", ',');
    assert_eq!(cols.len(), 5);
    assert_eq!(cols[0].placeholder_type, PlaceholderType::Email);
    assert_eq!(cols[1].placeholder_type, PlaceholderType::Currency);
    assert_eq!(cols[2].placeholder_type, PlaceholderType::Number);
    assert_eq!(cols[3].placeholder_type, PlaceholderType::Text);
    assert_eq!(cols[3].first_row.as_deref(), Some("hola"));
    assert_eq!(cols[4].placeholder_type, PlaceholderType::Text);
    assert!(cols[4].first_row.is_none());
}

fn column(title: &str, t: PlaceholderType) -> ColumnCheck {
    ColumnCheck { title: s(title), placeholder_type: t, first_row: None }
}

#[test]
fn invalid_rows_are_found() {
    let cols = vec![column("A", PlaceholderType::Number), column("B", PlaceholderType::Text)];
    let titles = vec![s("A"), s("B")];
    assert!(find_first_invalid(&[(0, s("1,x"))], &cols, &titles, ',').is_none());
    assert_eq!(
        find_first_invalid(&[(0, s("x,y"))], &cols, &titles, ','),
        Some((2, s("A"), s("value 'x' does not match expected type: number")))
    );
    assert_eq!(
        find_first_invalid(&[(3, s("1"))], &cols, &titles, ','),
        Some((5, s("B"), s("column missing in row")))
    );
    let other = vec![column("Z", PlaceholderType::Text)];
    assert_eq!(
        find_first_invalid(&[(0, s("1"))], &other, &titles, ','),
        Some((2, s("Z"), s("header title not found")))
    );
}

#[test]
fn first_invalid_row_in_order() {
    let cols = vec![column("A", PlaceholderType::Number), column("B", PlaceholderType::Text)];
    let titles = vec![s("A"), s("B")];
    let mut chunk: Vec<(usize, String)> = (0..500).map(|i| (i, format!("{},x", i))).collect();
    chunk[123].1 = s("q,x");
    chunk[400].1 = s("w,x");
    chunk[499].1 = s("7");
    for _ in 0..5 {
        assert_eq!(
            find_first_invalid(&chunk, &cols, &titles, ','),
            Some((125, s("A"), s("value 'q' does not match expected type: number")))
        );
    }
}

#[test]
fn chunk_verdicts() {
    let prepared = prepare_columns("A;B", "1;x").unwrap();
    assert_eq!(prepared.delimiter, ';');
    assert!(matches!(check_chunk(&[(0, s("2;y"))], &prepared), ChunkVerdict::Valid));
    match check_chunk(&[(7, s("q;y"))], &prepared) {
        ChunkVerdict::Invalid { failed_status: JobStatus::Failed(m), error } => {
            assert_eq!(
                m,
                "First invalid row at: row 9, column 'A': value 'q' does not match expected type: number"
            );
            assert_eq!(
                error,
                "Verification failed: row 9, column 'A': value 'q' does not match expected type: number"
            );
        }
        other => panic!("unexpected {:?}", other),
    }
    assert_eq!(
        prepare_columns("a,,b", "1").unwrap_err(),
        "Header validation failed: Header contains an empty title"
    );
}

#[test]
fn header_and_first_row_lines() {
    assert_eq!(
        header_and_first_row("a,b\r\n", Some("1,2\n")),
        Ok((s("a,b"), s("1,2")))
    );
    assert_eq!(
        header_and_first_row("a,b\n", None),
        Err(s("CSV file does not contain any data rows"))
    );
}

#[test]
fn chunks_of_lines() {
    let mut scan = ChunkScan::new(2);
    assert!(scan.push_line(s("a")).is_none());
    let full = scan.push_line(s("b")).unwrap();
    assert_eq!(full, vec![(0, s("a")), (1, s("b"))]);
    assert!(scan.push_line(s("c")).is_none());
    assert_eq!(scan.lines_read(), 3);
    assert_eq!(scan.finish(), vec![(2, s("c"))]);
}

fn record(verified: i64, ds: Option<&str>, last: Option<&str>) -> TemplateRecord {
    TemplateRecord {
        id: s("t"),
        datasource_md5: ds.map(s),
        last_verified_md5: last.map(s),
        verified,
    }
}

#[test]
fn upload_of_verified_source_keeps_rollback_point() {
    let ws = upload_writes(&record(1, Some("m1"), None), &s("m2"));
    assert_eq!(ws.len(), 2);
    assert!(matches!(&ws[0], RecordWrite::SaveLastVerified { last_verified_md5: Some(m) } if m == "m1"));
    assert!(matches!(&ws[1], RecordWrite::NewUpload { md5 } if md5 == "m2"));
    let ws = upload_writes(&record(0, Some("m1"), None), &s("m2"));
    assert_eq!(ws.len(), 1);
}

#[test]
fn verification_outcome_writes() {
    let ok = update_template_verification(&record(0, Some("m2"), Some("m1")), true);
    assert!(matches!(ok, RecordWrite::MarkVerified { verified_md5: Some(m) } if m == "m2"));
    let failed = update_template_verification(&record(0, Some("m2"), Some("m1")), false);
    assert!(matches!(failed, RecordWrite::RollBack { restored_md5: Some(m) } if m == "m1"));
}

#[test]
fn verification_plans() {
    match verification_plan(&record(1, Some("m"), Some("m"))) {
        VerificationPlan::FastPath { path } => assert_eq!(path, "./t_m.csv"),
        other => panic!("unexpected {:?}", other),
    }
    match verification_plan(&record(1, Some("m2"), Some("m"))) {
        VerificationPlan::Full { reset_flag, csv_path } => {
            assert!(reset_flag);
            assert_eq!(csv_path.as_deref(), Some("./t_m2.csv"));
        }
        other => panic!("unexpected {:?}", other),
    }
    match verification_plan(&record(0, None, None)) {
        VerificationPlan::Full { reset_flag, csv_path } => {
            assert!(!reset_flag);
            assert!(csv_path.is_none());
        }
        other => panic!("unexpected {:?}", other),
    }
    assert_eq!(data_file_name("t", "abc"), "t_abc.csv");
}

#[test]
fn job_statuses() {
    assert!(matches!(progress_status(42), JobStatus::InProgress(42)));
    assert!(matches!(verify_job_status(Ok(s("[]"))), JobStatus::Completed(c) if c == "[]"));
    assert!(matches!(verify_job_status(Err(s("e"))), JobStatus::Failed(c) if c == "e"));
    assert!(matches!(verify_join_error_status("x"), JobStatus::Failed(c) if c == "task join error: x"));
    assert!(matches!(merge_job_status(Ok(())), JobStatus::Completed(c) if c == "Merge completed successfully"));
}

#[test]
fn merge_sources_and_names() {
    assert_eq!(merge_source("t", &record(0, Some("m"), None)), Err(s("Template is not verified.")));
    assert_eq!(
        merge_source("t", &record(1, None, None)),
        Err(s("Datasource MD5 not found for verified template."))
    );
    assert_eq!(merge_source("t", &record(1, Some("m"), None)), Ok(s("./t_m.csv")));
    assert_eq!(merged_pdf_name("job", 3), "job_3.pdf");
    assert_eq!(merge_row_error(0, "boom"), "Failed to generate PDF for row 1: boom");
    assert_eq!(preview_pdf_name("t"), "t.pdf");
}

#[test]
fn merge_substitutes_row_values() {
    let titles = vec![s("Name"), s("City"), s("Extra")];
    let pairs = row_placeholders(&titles, "Ana;Lima", ';');
    assert_eq!(pairs, vec![(s("Name"), s("Ana")), (s("City"), s("Lima"))]);
    assert_eq!(
        substitute_placeholders("Hola {{Name}} de {{City}} {{Extra}}", &pairs),
        "Hola Ana de Lima {{Extra}}"
    );
}

#[test]
fn accepted_titles_are_distinct() {
    let titles = validate_and_normalize_titles("a, b ,c d", ',').unwrap();
    assert_eq!(titles, vec![s("a"), s("b"), s("c_d")]);
    let mut sorted = titles.clone();
    sorted.sort();
    sorted.dedup();
    assert_eq!(sorted.len(), titles.len());
}

#[test]
fn verification_error_messages() {
    assert_eq!(record_read_error("x"), "Failed to get template from database: x");
    assert_eq!(reset_flag_error("x"), "Failed to reset verified flag: x");
    assert_eq!(missing_md5_rollback_error("x"), "Datasource MD5 missing; rollback failed: x");
    assert_eq!(
        header_rollback_error("Header validation failed: e", "db"),
        "Header validation failed: e; rollback failed: db"
    );
    assert_eq!(missing_data_error(MissingData::NoChecksum), "No associated data file to verify");
    assert_eq!(missing_data_error(MissingData::NoFile), "CSV file not found");
    assert!(matches!(merge_join_error_status("j"), JobStatus::Failed(m) if m == "Task join error: j"));
}

#[test]
fn merge_tasks_one_per_line() {
    let titles = vec![s("name"), s("city")];
    let lines = vec![s("Ana;Lima"), s("Bo"), s("Cy;Quito;extra")];
    let tasks = merge_tasks("job7", &titles, &lines, ';');
    assert_eq!(tasks.len(), 3);
    assert_eq!(tasks[0].row_index, 0);
    assert_eq!(tasks[0].pairs, vec![(s("name"), s("Ana")), (s("city"), s("Lima"))]);
    assert_eq!(tasks[0].output_name, "job7_0.pdf");
    assert_eq!(tasks[1].pairs, vec![(s("name"), s("Bo"))]);
    assert_eq!(tasks[2].row_index, 2);
    assert_eq!(tasks[2].pairs, vec![(s("name"), s("Cy")), (s("city"), s("Quito"))]);
    assert_eq!(tasks[2].output_name, "job7_2.pdf");
    assert!(merge_tasks("j", &titles, &[], ';').is_empty());
}
