use templify::editor::{
    create_empty_template, image_too_large, ImageDialogContent, LoadStart, PdfOpen,
    StaticTextComponent, Toast,
};
use templify::model::{ColumnCheck, Image, PlaceholderType, Template};

fn template(id: &str, text: &str, images: Option<Vec<(&str, &str)>>) -> Template {
    Template {
        id: id.to_string(),
        text: text.to_string(),
        images: images.map(|v| {
            v.into_iter()
                .map(|(i, b)| Image { id: i.to_string(), base64: b.to_string() })
                .collect()
        }),
    }
}

#[test]
fn new_editor_starts_empty() {
    let e = StaticTextComponent::new();
    assert_eq!(e.text, "");
    assert_eq!(e.history, vec![String::new()]);
    assert_eq!(e.history_index, 0);
    assert_eq!(e.active_tab, "editor");
    assert!(e.template.is_none());
    assert!(e.original_md5.is_none());
    assert!(!e.pdf_loading && !e.loaded);
}

#[test]
fn undo_after_edit_restores_previous_snapshot() {
    let mut e = StaticTextComponent::new();
    assert!(e.update_text("a".to_string()));
    assert!(e.update_text("ab".to_string()));
    assert_eq!(e.history, vec!["".to_string(), "a".to_string(), "ab".to_string()]);
    e.undo();
    assert_eq!(e.text, "a");
    assert_eq!(e.history_index, 1);
    e.redo();
    assert_eq!(e.text, "ab");
    assert_eq!(e.history_index, 2);
}

#[test]
fn same_text_leaves_history_alone() {
    let mut e = StaticTextComponent::new();
    e.update_text("x".to_string());
    e.update_text("x".to_string());
    assert_eq!(e.history.len(), 2);
    assert_eq!(e.history_index, 1);
}

#[test]
fn undo_at_first_snapshot_does_nothing() {
    let mut e = StaticTextComponent::new();
    e.undo();
    assert_eq!(e.text, "");
    assert_eq!(e.history_index, 0);
    e.redo();
    assert_eq!(e.history_index, 0);
}

#[test]
fn edit_after_undo_drops_redo() {
    let mut e = StaticTextComponent::new();
    e.update_text("a".to_string());
    e.update_text("ab".to_string());
    e.undo();
    e.update_text("ax".to_string());
    assert_eq!(e.history, vec!["".to_string(), "a".to_string(), "ax".to_string()]);
    e.redo();
    assert_eq!(e.text, "ax");
    assert_eq!(e.history_index, 2);
}

#[test]
fn switching_tabs() {
    let mut e = StaticTextComponent::new();
    assert!(!e.set_tab("preview".to_string()));
    assert_eq!(e.active_tab, "preview");
    assert!(e.set_tab("editor".to_string()));
}

#[test]
fn bold_snippet_on_empty_text() {
    let mut e = StaticTextComponent::new();
    let sel = e.apply_style("bold", 0, 0);
    assert_eq!(e.text, "**texto**");
    assert_eq!(sel, (2, 7));
}

#[test]
fn italic_snippet_inside_text() {
    let mut e = StaticTextComponent::new();
    e.text = "hola mundo".to_string();
    let sel = e.apply_style("italic", 5, 5);
    assert_eq!(e.text, "hola *texto*mundo");
    assert_eq!(sel, (6, 11));
}

#[test]
fn style_wraps_selection() {
    let mut e = StaticTextComponent::new();
    e.text = "hello world".to_string();
    let sel = e.apply_style("bold", 6, 11);
    assert_eq!(e.text, "hello **world**");
    assert_eq!(sel, (8, 13));
    let mut f = StaticTextComponent::new();
    f.text = "hola mundo".to_string();
    let sel = f.apply_style("normal", 0, 4);
    assert_eq!(f.text, "hola mundo");
    assert_eq!(sel, (0, 4));
    let mut g = StaticTextComponent::new();
    g.text = "ab".to_string();
    let sel = g.apply_style("italic", 2, 0);
    assert_eq!(g.text, "ab*texto*");
    assert_eq!(sel, (3, 8));
}

#[test]
fn list_and_bold_italic_snippets() {
    let mut e = StaticTextComponent::new();
    e.apply_style("bulleted_list", 0, 0);
    assert_eq!(e.text, "- texto");
    let mut f = StaticTextComponent::new();
    let sel = f.apply_style("bolditalic", 0, 0);
    assert_eq!(f.text, "***texto***");
    assert_eq!(sel, (3, 8));
    let mut g = StaticTextComponent::new();
    g.text = "uno\ndos".to_string();
    g.apply_style("bulleted_list", 4, 7);
    assert_eq!(g.text, "uno\n- dos");
}

#[test]
fn image_style_wraps_url() {
    let mut e = StaticTextComponent::new();
    e.text = "abc".to_string();
    let sel = e.apply_style("image", 1, 1);
    assert_eq!(e.text, "a[img:url]bc");
    assert_eq!(sel, (6, 9));
    let mut f = StaticTextComponent::new();
    f.text = "x http://i y".to_string();
    let sel = f.apply_style("image", 2, 10);
    assert_eq!(f.text, "x [img:http://i] y");
    assert_eq!(sel, (7, 15));
}

#[test]
fn unknown_style_leaves_text() {
    let mut e = StaticTextComponent::new();
    e.text = "abcdefgh".to_string();
    let sel = e.apply_style("underline", 0, 0);
    assert_eq!(e.text, "abcdefgh");
    assert_eq!(sel, (0, 0));
    let sel = e.apply_style("underline", 2, 5);
    assert_eq!(e.text, "abcdefgh");
    assert_eq!(sel, (2, 5));
}

#[test]
fn selection_counts_utf16_units() {
    let mut e = StaticTextComponent::new();
    e.text = "ñu".to_string();
    let sel = e.apply_style("bold", 1, 1);
    assert_eq!(e.text, "ñ**texto**u");
    assert_eq!(sel, (3, 8));
    let mut f = StaticTextComponent::new();
    f.text = "😀ab😀".to_string();
    let sel = f.apply_style("italic", 2, 4);
    assert_eq!(f.text, "😀*ab*😀");
    assert_eq!(sel, (3, 5));
}

#[test]
fn new_image_tag_at_cursor() {
    let mut e = StaticTextComponent::new();
    e.text = "ab".to_string();
    let id = e.file_selected(1, 1);
    assert_eq!(id.len(), 36);
    assert_eq!(e.text, format!("a[img:{}]b", id));
}

#[test]
fn image_added_without_template_makes_one() {
    let mut e = StaticTextComponent::new();
    e.text = "t".to_string();
    assert!(!e.add_image_to_template("i1".to_string(), "AAA".to_string()));
    let t = e.template.as_ref().unwrap();
    assert_eq!(t.id, "");
    assert_eq!(t.text, "t");
    let imgs = t.images.as_ref().unwrap();
    assert_eq!(imgs.len(), 1);
    assert_eq!(imgs[0].id, "i1");
    assert_eq!(imgs[0].base64, "AAA");
}

#[test]
fn image_added_to_existing_template() {
    let mut e = StaticTextComponent::new();
    e.template = Some(template("t1", "old", Some(vec![("a", "A")])));
    e.add_image_to_template("b".to_string(), "B".to_string());
    let t = e.template.as_ref().unwrap();
    assert_eq!(t.text, "old");
    let ids: Vec<&str> = t.images.as_ref().unwrap().iter().map(|i| i.id.as_str()).collect();
    assert_eq!(ids, vec!["a", "b"]);
}

#[test]
fn auto_resize_keeps_only_referenced_images() {
    let mut e = StaticTextComponent::new();
    e.text = "x [img:a] y".to_string();
    e.template = Some(template("t1", "old", Some(vec![("a", "A"), ("b", "B")])));
    assert!(!e.auto_resize());
    let t = e.template.as_ref().unwrap();
    assert_eq!(t.id, "t1");
    assert_eq!(t.text, "x [img:a] y");
    let ids: Vec<&str> = t.images.as_ref().unwrap().iter().map(|i| i.id.as_str()).collect();
    assert_eq!(ids, vec!["a"]);
}

#[test]
fn auto_resize_without_template_makes_one() {
    let mut e = StaticTextComponent::new();
    e.text = "hola".to_string();
    e.auto_resize();
    let t = e.template.as_ref().unwrap();
    assert_eq!(t.id, "");
    assert_eq!(t.text, "hola");
    assert!(t.images.is_none());
}

#[test]
fn delete_image_removes_tag_and_data() {
    let mut e = StaticTextComponent::new();
    e.text = "[img:a]x[img:b][img:a]".to_string();
    e.template = Some(template("t1", "", Some(vec![("a", "A"), ("b", "B")])));
    e.selected_image_id = Some("a".to_string());
    assert!(e.delete_image("a"));
    assert_eq!(e.text, "x[img:b]");
    let t = e.template.as_ref().unwrap();
    assert_eq!(t.text, "x[img:b]");
    assert_eq!(t.images.as_ref().unwrap().len(), 1);
    assert!(e.selected_image_id.is_none());
}

#[test]
fn delete_image_without_template_keeps_text() {
    let mut e = StaticTextComponent::new();
    e.text = "[img:a]".to_string();
    e.selected_image_id = Some("a".to_string());
    e.delete_image("a");
    assert_eq!(e.text, "[img:a]");
    assert!(e.selected_image_id.is_none());
}

#[test]
fn save_gives_identifier_to_new_template() {
    let mut e = StaticTextComponent::new();
    e.text = "cuerpo".to_string();
    let t = e.prepare_save();
    assert_eq!(t.id.len(), 36);
    assert_eq!(t.text, "cuerpo");
    assert!(t.images.is_none());
    assert_eq!(e.template.as_ref().unwrap().id, t.id);
}

#[test]
fn save_keeps_existing_identifier() {
    let mut e = StaticTextComponent::new();
    e.template = Some(template("keep", "x", None));
    let t = e.prepare_save();
    assert_eq!(t.id, "keep");
    assert_eq!(t.text, "x");
}

#[test]
fn loaded_template_records_digest() {
    let mut e = StaticTextComponent::new();
    e.update_text("abc".to_string());
    e.set_template(Some(template("t", "abc", None)));
    assert_eq!(e.original_md5.as_deref(), Some("900150983cd24fb0d6963f7d28e17f72"));
    assert!(!e.is_dirty());
    assert!(!e.shows_unsaved_mark());
    e.update_text("abcd".to_string());
    assert!(e.is_dirty());
    assert!(e.shows_unsaved_mark());
}

#[test]
fn saved_editor_is_clean() {
    let mut e = StaticTextComponent::new();
    e.update_text("cambios".to_string());
    e.set_template(Some(template("t", "", None)));
    assert!(e.is_dirty());
    e.save_succeeded();
    assert!(!e.is_dirty());
    assert!(!e.shows_unsaved_mark());
}

#[test]
fn dirty_without_saved_digest_means_any_text() {
    let mut e = StaticTextComponent::new();
    assert!(!e.is_dirty());
    e.update_text("x".to_string());
    assert!(e.is_dirty());
    assert!(!e.shows_unsaved_mark());
}

#[test]
fn pdf_needs_a_template() {
    let mut e = StaticTextComponent::new();
    let r = e.open_pdf(5);
    assert_eq!(r, PdfOpen::NoTemplate);
    assert_eq!(r.toast().as_deref(), Some("No hay plantilla cargada."));
    assert!(e.pdf_url.is_none());
}

#[test]
fn pdf_needs_a_saved_template() {
    let mut e = StaticTextComponent::new();
    e.template = Some(template("", "", None));
    assert_eq!(e.open_pdf(5), PdfOpen::SaveFirst);
    e.set_template(Some(template("t9", "abc", None)));
    assert_eq!(e.open_pdf(5), PdfOpen::SaveFirst);
    assert_eq!(
        PdfOpen::SaveFirst.toast().as_deref(),
        Some("Guarda la plantilla antes de generar el PDF.")
    );
}

#[test]
fn pdf_opens_for_saved_text() {
    let mut e = StaticTextComponent::new();
    e.set_template(Some(template("t9", "", None)));
    assert_eq!(e.open_pdf(1700000000123), PdfOpen::Show);
    assert_eq!(e.pdf_url.as_deref(), Some("/api/templates/pdf/t9?t=1700000000123"));
    assert!(e.pdf_loading);
    assert!(PdfOpen::Show.toast().is_none());
    assert!(e.pdf_frame_style().ends_with("visibility:hidden;"));
    e.pdf_loaded();
    assert!(!e.pdf_loading);
    assert!(e.pdf_frame_style().ends_with("visibility:visible;"));
    e.close_pdf_dialog();
    assert!(e.pdf_url.is_none());
}

#[test]
fn csv_placeholder_inserted_at_cursor() {
    let mut e = StaticTextComponent::new();
    e.text = "ab".to_string();
    let col = ColumnCheck {
        title: "Name".to_string(),
        placeholder_type: PlaceholderType::Text,
        first_row: Some("Ana".to_string()),
    };
    let pos = e.insert_csv_placeholder(&col, 1);
    assert_eq!(e.text, "a[ph:Name:QW5h]b");
    assert_eq!(pos, 15);
}

#[test]
fn csv_placeholder_without_sample_and_past_the_end() {
    let mut e = StaticTextComponent::new();
    e.text = "ab".to_string();
    let col = ColumnCheck {
        title: "X".to_string(),
        placeholder_type: PlaceholderType::Number,
        first_row: None,
    };
    let pos = e.insert_csv_placeholder(&col, 40);
    assert_eq!(e.text, "ab[ph:X:]");
    assert_eq!(pos, 9);
}

#[test]
fn removed_columns_prune_their_placeholders() {
    let mut e = StaticTextComponent::new();
    e.text = "x [ph:A:QQ==] y [ph:B:Qg==]".to_string();
    e.template = Some(template("t", "old", None));
    let cols = vec![ColumnCheck {
        title: "A".to_string(),
        placeholder_type: PlaceholderType::Text,
        first_row: None,
    }];
    assert!(e.csv_columns_updated(&cols));
    assert_eq!(e.text, "x [ph:A:QQ==] y ");
    assert_eq!(e.template.as_ref().unwrap().text, "x [ph:A:QQ==] y ");
    assert!(!e.csv_columns_updated(&cols));
}

#[test]
fn malformed_placeholders_are_not_pruned() {
    let mut e = StaticTextComponent::new();
    e.text = "[ph::QQ==] [ph:A:] [ph:A:Q@]".to_string();
    assert!(!e.csv_columns_updated(&vec![]));
    assert_eq!(e.text, "[ph::QQ==] [ph:A:] [ph:A:Q@]");
}

#[test]
fn image_dialog_shows_selected_image() {
    let mut e = StaticTextComponent::new();
    match e.image_dialog_content() {
        ImageDialogContent::NoSelection => {}
        other => panic!("unexpected {:?}", other),
    }
    e.open_image_dialog("b".to_string());
    e.template = Some(template("t", "", None));
    assert!(matches!(e.image_dialog_content(), ImageDialogContent::NoImages));
    e.template = Some(template("t", "", Some(vec![("a", "A")])));
    assert!(matches!(e.image_dialog_content(), ImageDialogContent::NotFound));
    e.template = Some(template("t", "", Some(vec![("a", "A"), ("b", "QkI=")])));
    match e.image_dialog_content() {
        ImageDialogContent::Image { id, src } => {
            assert_eq!(id, "b");
            assert_eq!(src, "data:image/*;base64,QkI=");
        }
        other => panic!("unexpected {:?}", other),
    }
}

#[test]
fn first_render_creates_or_fetches_once() {
    let mut e = StaticTextComponent::new();
    assert_eq!(e.first_render(true, false), LoadStart::Created);
    assert!(e.loaded);
    assert_eq!(e.template.as_ref().unwrap().id.len(), 36);
    assert_eq!(e.first_render(true, false), LoadStart::Nothing);
    let mut f = StaticTextComponent::new();
    assert_eq!(f.first_render(true, true), LoadStart::Fetch);
    assert!(f.template.is_none());
    let mut g = StaticTextComponent::new();
    assert_eq!(g.first_render(false, true), LoadStart::Nothing);
    assert!(!g.loaded);
}

#[test]
fn toasts_and_image_size() {
    assert_eq!(Toast::TemplateLoaded.text(), "Plantilla cargada correctamente.");
    assert_eq!(
        Toast::SaveFailed("boom".to_string()).text(),
        "Error al guardar la plantilla: boom"
    );
    assert_eq!(Toast::ImageTooLarge.text(), "El archivo es demasiado grande (máx. 4 MB).");
    assert!(image_too_large(4_000_001));
    assert!(!image_too_large(4_000_000));
}

#[test]
fn empty_template_has_fresh_identifier() {
    let a = create_empty_template();
    let b = create_empty_template();
    assert_eq!(a.id.len(), 36);
    assert_eq!(a.text, "");
    assert!(a.images.is_none());
    assert_ne!(a.id, b.id);
}

#[test]
fn tab_classes() {
    let mut e = StaticTextComponent::new();
    assert_eq!(e.tab_class("editor"), "tab-btn active");
    assert_eq!(e.tab_class("preview"), "tab-btn");
    e.set_tab("preview".to_string());
    assert_eq!(e.tab_class("preview"), "tab-btn active");
}

#[test]
fn remaining_toasts() {
    assert_eq!(Toast::TemplateCreated.text(), "No se proporcionó ID de plantilla. Se creó una nueva.");
    assert_eq!(Toast::TemplateLoadFailed.text(), "Error cargando plantilla. Se creó una nueva.");
    assert_eq!(Toast::TemplateSaved.text(), "Plantilla guardada correctamente.");
}
