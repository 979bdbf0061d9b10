use templify::cursor::{
    byte_to_utf16_idx, compute_md5, escape_html, extract_ticket_from_text,
    get_img_tag_id_at_cursor, get_ph_bounds_at_cursor, key_command, line_number_count,
    utf16_to_byte_idx, KeyCommand,
};
use templify::layout::{decode_placeholder, find_next_tag, parse_styled_paragraph, plan_document, DocBlock};
use templify::styles::{parse_styles, TextSegment, TextStyle};

fn segs(v: &[TextSegment]) -> Vec<(String, TextStyle)> {
    v.iter().map(|s| (s.text().clone(), s.style())).collect()
}

fn seg(t: &str, s: TextStyle) -> (String, TextStyle) {
    (t.to_string(), s)
}

#[test]
fn markdown_styles_in_a_line() {
    assert_eq!(
        segs(&parse_styles("hola **mundo** fin")),
        vec![
            seg("hola ", TextStyle::Regular),
            seg("mundo", TextStyle::Bold),
            seg(" fin", TextStyle::Regular)
        ]
    );
    assert_eq!(segs(&parse_styles("*a*")), vec![seg("a", TextStyle::Italic)]);
    assert_eq!(
        segs(&parse_styles("***x***y")),
        vec![seg("x", TextStyle::BoldItalic), seg("y", TextStyle::Regular)]
    );
    assert_eq!(
        segs(&parse_styles("**b")),
        vec![seg("", TextStyle::Italic), seg("b", TextStyle::Regular)]
    );
    assert!(parse_styles("").is_empty());
}

#[test]
fn unmatched_star_stays_text() {
    assert_eq!(
        segs(&parse_styles("a*")),
        vec![seg("a", TextStyle::Regular), seg("*", TextStyle::Regular)]
    );
    assert_eq!(segs(&parse_styles("*")), vec![seg("*", TextStyle::Regular)]);
    assert_eq!(
        segs(&parse_styles("x*y")),
        vec![seg("x", TextStyle::Regular), seg("*y", TextStyle::Regular)]
    );
    assert_eq!(segs(&parse_styles("a")), vec![seg("a", TextStyle::Regular)]);
}

#[test]
fn styles_count_characters() {
    assert_eq!(
        segs(&parse_styles("é **b**")),
        vec![seg("é ", TextStyle::Regular), seg("b", TextStyle::Bold)]
    );
    assert_eq!(
        segs(&parse_styles("éé*a*")),
        vec![seg("éé", TextStyle::Regular), seg("a", TextStyle::Italic)]
    );
    assert_eq!(
        segs(&parse_styles("ñ***ü***")),
        vec![seg("ñ", TextStyle::Regular), seg("ü", TextStyle::BoldItalic)]
    );
}

#[test]
fn styled_line_rebuilds() {
    for line in ["hola **mundo** *x* fin", "a*b**c", "***", "é **b** ***c*** *d", "**"] {
        let mut back = String::new();
        for s in parse_styles(line) {
            let m = match s.style() {
                TextStyle::Regular => "",
                TextStyle::Italic => "*",
                TextStyle::Bold => "**",
                TextStyle::BoldItalic => "***",
            };
            back.push_str(m);
            back.push_str(s.text());
            back.push_str(m);
        }
        assert_eq!(back, line);
    }
}

#[test]
fn html_tags_of_placeholder_values() {
    assert_eq!(find_next_tag("x<i>y<b>"), Some(("i", 1)));
    assert_eq!(find_next_tag("ñ<b>"), Some(("b", 2)));
    assert_eq!(find_next_tag("plain"), None);
    assert_eq!(
        segs(&parse_styled_paragraph("a<b>b</b>c")),
        vec![seg("a", TextStyle::Regular), seg("b", TextStyle::Bold), seg("c", TextStyle::Regular)]
    );
    assert_eq!(
        segs(&parse_styled_paragraph("a<i>b")),
        vec![seg("a", TextStyle::Regular), seg("<i>b", TextStyle::Regular)]
    );
}

#[test]
fn placeholder_values_decode() {
    assert_eq!(decode_placeholder("Name:QW5h").as_deref(), Some("Ana"));
    assert_eq!(decode_placeholder("Name:A"), None);
    assert_eq!(decode_placeholder("Name:/w=="), None);
}

#[test]
fn document_plan() {
    let ids = vec!["i1".to_string()];
    let blocks = plan_document("  \n- **x**\n[img:i1]\n[img:i2]\n[ph:N:QW5h]\nfin", &ids);
    assert_eq!(blocks.len(), 6);
    assert!(matches!(blocks[0], DocBlock::Break));
    match &blocks[1] {
        DocBlock::ListItem(v) => assert_eq!(segs(v), vec![seg("x", TextStyle::Bold)]),
        other => panic!("unexpected {:?}", other),
    }
    assert!(matches!(&blocks[2], DocBlock::Image(id) if id == "i1"));
    match &blocks[3] {
        DocBlock::Paragraph(v) => {
            assert_eq!(segs(v), vec![seg("[image not found: i2]", TextStyle::Regular)])
        }
        other => panic!("unexpected {:?}", other),
    }
    match &blocks[4] {
        DocBlock::Paragraph(v) => assert_eq!(segs(v), vec![seg("Ana", TextStyle::Regular)]),
        other => panic!("unexpected {:?}", other),
    }
    match &plan_document("a*", &ids)[0] {
        DocBlock::Paragraph(v) => assert_eq!(
            segs(v),
            vec![seg("a", TextStyle::Regular), seg("*", TextStyle::Regular)]
        ),
        other => panic!("unexpected {:?}", other),
    }
}

#[test]
fn utf16_offsets() {
    assert_eq!(byte_to_utf16_idx("añ😀b", 0), 0);
    assert_eq!(byte_to_utf16_idx("añ😀b", 3), 2);
    assert_eq!(byte_to_utf16_idx("añ😀b", 7), 4);
    assert_eq!(utf16_to_byte_idx("añb", 2), 3);
    assert_eq!(utf16_to_byte_idx("añb", 10), 4);
    assert_eq!(utf16_to_byte_idx("😀ab", 2), 4);
    assert_eq!(utf16_to_byte_idx("😀ab", 3), 5);
    assert_eq!(utf16_to_byte_idx("😀b", 2), 4);
    assert_eq!(utf16_to_byte_idx("😀b", 1), 0);
}

#[test]
fn html_escaping() {
    assert_eq!(escape_html("<a href=\"x\">'&'</a>"), "&lt;a href=&quot;x&quot;&gt;&#39;&amp;&#39;&lt;/a&gt;");
}

#[test]
fn md5_of_text() {
    assert_eq!(compute_md5("abc"), "900150983cd24fb0d6963f7d28e17f72");
    assert_eq!(compute_md5(""), "d41d8cd98f00b204e9800998ecf8427e");
}

#[test]
fn ticket_text() {
    assert_eq!(extract_ticket_from_text("  abc \n").as_deref(), Some("abc"));
    assert_eq!(extract_ticket_from_text(" \t "), None);
}

#[test]
fn line_numbers() {
    assert_eq!(line_number_count(""), 1);
    assert_eq!(line_number_count("a\nb\n"), 2);
    assert_eq!(line_number_count("a\n\nb"), 3);
}

#[test]
fn image_tag_under_cursor() {
    let t = "ab [img:xy] cd";
    assert_eq!(get_img_tag_id_at_cursor(t, 4).as_deref(), Some("xy"));
    assert_eq!(get_img_tag_id_at_cursor(t, 10).as_deref(), Some("xy"));
    assert_eq!(get_img_tag_id_at_cursor(t, 3), None);
    assert_eq!(get_img_tag_id_at_cursor(t, 11), None);
    assert_eq!(get_img_tag_id_at_cursor("[img:]x]", 3), None);
    assert_eq!(get_img_tag_id_at_cursor("😀[img:a]", 8).as_deref(), Some("a"));
    assert_eq!(get_img_tag_id_at_cursor("😀[img:a]", 2), None);
}

#[test]
fn placeholder_bounds_under_cursor() {
    let t = "a [ph:N:QQ==] b";
    assert_eq!(get_ph_bounds_at_cursor(t, 2), Some((2, 13)));
    assert_eq!(get_ph_bounds_at_cursor(t, 3), Some((2, 13)));
    assert_eq!(get_ph_bounds_at_cursor(t, 6), Some((2, 13)));
    assert_eq!(get_ph_bounds_at_cursor(t, 12), Some((2, 13)));
    assert_eq!(get_ph_bounds_at_cursor(t, 13), None);
    assert_eq!(get_ph_bounds_at_cursor(t, 1), None);
    assert_eq!(get_ph_bounds_at_cursor(t, 99), None);
    assert_eq!(get_ph_bounds_at_cursor("a[ph:n:aGk=]b", 3), Some((1, 12)));
    assert_eq!(get_ph_bounds_at_cursor("😀[ph:n:aGk=]b", 4), Some((4, 15)));
}

#[test]
fn keys_inside_protected_tags() {
    let t = "a [ph:N:QQ==] b";
    match key_command(t, 6, "Delete", false) {
        KeyCommand::DeletePlaceholder(n) => assert_eq!(n, "a  b"),
        other => panic!("unexpected {:?}", other),
    }
    assert!(matches!(key_command(t, 6, "x", false), KeyCommand::Block));
    assert!(matches!(key_command(t, 6, "ArrowLeft", false), KeyCommand::Pass));
    assert!(matches!(key_command(t, 3, "x", false), KeyCommand::Block));
    assert!(matches!(key_command(t, 1, "x", false), KeyCommand::Pass));
    match key_command("a[ph:n:aGk=]b", 8, "Delete", false) {
        KeyCommand::DeletePlaceholder(n) => assert_eq!(n, "ab"),
        other => panic!("unexpected {:?}", other),
    }
    match key_command("a[ph:n:aGk=]b", 2, "Delete", false) {
        KeyCommand::DeletePlaceholder(n) => assert_eq!(n, "ab"),
        other => panic!("unexpected {:?}", other),
    }
    assert!(matches!(key_command("[img:q]", 2, "x", false), KeyCommand::Block));
    assert!(matches!(key_command("hola", 2, "z", true), KeyCommand::Undo));
    assert!(matches!(key_command("hola", 2, "y", true), KeyCommand::Redo));
    assert!(matches!(key_command("hola", 2, "y", false), KeyCommand::Pass));
}

#[test]
fn escaped_text_has_no_markup() {
    let e = escape_html("<script>alert('x\"')</script>");
    assert!(!e.contains('<') && !e.contains('>') && !e.contains('"') && !e.contains('\''));
}

#[test]
fn utf16_round_trip() {
    for s in ["añb€c", "😀b", "a😀😀ñ"] {
        for (b, _) in s.char_indices().chain(std::iter::once((s.len(), ' '))) {
            let k = byte_to_utf16_idx(s, b) as usize;
            assert_eq!(utf16_to_byte_idx(s, k), b);
            assert_eq!(byte_to_utf16_idx(s, utf16_to_byte_idx(s, k)) as usize, k);
        }
    }
    assert_eq!(utf16_to_byte_idx("😀a", 1), 0);
    assert_eq!(utf16_to_byte_idx("😀a", 2), 4);
    assert_eq!(byte_to_utf16_idx("😀a", 4), 2);
}

#[test]
fn escaping_keeps_texts_apart() {
    let inputs = ["<", "&lt;", "&amp;lt;", "'", "&#39;", "\"", "&quot;", "a>b", "a&gt;b", ""];
    for (i, a) in inputs.iter().enumerate() {
        for b in inputs.iter().skip(i + 1) {
            assert_ne!(escape_html(a), escape_html(b), "{} vs {}", a, b);
        }
    }
    assert_eq!(escape_html("&lt;"), "&amp;lt;");
    assert_eq!(escape_html("ñ€"), "ñ€");
}
