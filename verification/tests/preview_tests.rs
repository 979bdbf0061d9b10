use templify::editor::StaticTextComponent;
use templify::model::{Image, Template};
use templify::preview::{
    compress_newlines_after_any_line, compute_preview_html, expand_br_markers, normalize_text,
    preserve_single_newline_trick, replace_ph_placeholders, replace_tokens_with_html,
};

#[test]
fn line_endings_and_leading_marks_are_normalized() {
    assert_eq!(normalize_text("\u{feff}\u{200b}a\r\nb\rc"), "a\nb\nc");
    assert_eq!(normalize_text("x\u{feff}"), "x\u{feff}");
}

#[test]
fn runs_of_blank_lines_become_markers() {
    assert_eq!(compress_newlines_after_any_line("a\n\n\nb"), "a\nBR_MARKER2\n\nb\n");
    assert_eq!(compress_newlines_after_any_line("a\n\nb"), "a\n\nb\n");
    assert_eq!(compress_newlines_after_any_line("a\n \n\t\n\nb"), "a\nBR_MARKER3\n\nb\n");
    assert_eq!(compress_newlines_after_any_line(""), "");
}

#[test]
fn single_newlines_get_a_space() {
    assert_eq!(preserve_single_newline_trick("a\nb\n"), "a \nb \n");
}

#[test]
fn placeholders_become_tokens_with_their_html() {
    let (text, reps) = replace_ph_placeholders("x [ph:T:SGk=] y [ph:<q>:InEi]");
    assert_eq!(reps.len(), 2);
    assert_eq!(reps[0].1, "<span title=\"T\">Hi</span>");
    assert_eq!(reps[1].1, "<span title=\"&lt;q&gt;\">q</span>");
    for (tok, _) in &reps {
        assert_eq!(tok.len(), 34);
        assert!(tok.starts_with("PH"));
    }
    assert_eq!(text, format!("x {} y {}", reps[0].0, reps[1].0));
}

#[test]
fn undecodable_placeholders_show_a_notice() {
    let (_, reps) = replace_ph_placeholders("[ph:T:A][ph:T:/w==]");
    assert_eq!(reps[0].1, "<span>[invalid base64]</span>");
    assert_eq!(reps[1].1, "<span>[invalid utf8]</span>");
}

#[test]
fn markers_become_line_breaks() {
    assert_eq!(expand_br_markers("<p>BR_MARKER3</p>"), "<p><br><br><br></p>");
    assert_eq!(expand_br_markers("BR_MARKER x"), "BR_MARKER x");
    assert_eq!(expand_br_markers("BR_MARKER0."), ".");
    assert_eq!(expand_br_markers("BR_MARKER\u{0663}"), "<br>");
    assert_eq!(expand_br_markers("BR_MARKER99999999999999999999999"), "<br>");
}

#[test]
fn tokens_are_put_back() {
    let reps = vec![("TOK".to_string(), "<x>".to_string())];
    assert_eq!(replace_tokens_with_html("a TOK b TOK".to_string(), &reps), "a <x> b <x>");
}

#[test]
fn preview_renders_markdown_placeholders_and_images() {
    let mut e = StaticTextComponent::new();
    e.text = "hola **mundo** [ph:N:QW5h]\n\n\n\n[img:i1]".to_string();
    e.template = Some(Template {
        id: "t".to_string(),
        text: String::new(),
        images: Some(vec![Image { id: "i1".to_string(), base64: "AAA".to_string() }]),
    });
    let html = compute_preview_html(&e).unwrap();
    assert!(html.contains("<strong>mundo</strong>"));
    assert!(html.contains("<span title=\"N\">Ana</span>"));
    assert!(html.contains("<br><br><br>"));
    assert!(html.contains("<img src=\"data:image/*;base64,AAA\""));
    assert!(!html.contains("PH"));
}

#[test]
fn preview_of_huge_marker_is_refused() {
    let mut e = StaticTextComponent::new();
    e.text = "BR_MARKER9223372036854775807".to_string();
    assert!(compute_preview_html(&e).is_none());
}
