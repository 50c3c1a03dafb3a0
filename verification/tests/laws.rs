use anytomd::converter::docx_comments::{cap_text, collapse_ws, format_author, sort_lex, sort_orphans};
use anytomd::converter::html_table::{normalize_html_rowspans, CellSegment, HtmlCell, HtmlRow};
use anytomd::converter::ooxml_utils::resolve_relative_to_file;
use anytomd::converter::pptx::{parse_notes, parse_slide, ShapeContent};
use anytomd::converter::xlsx::col_letter;
use anytomd::converter::{apply_description, image_request, ConversionWarning, ImageInfo, WarningCode};
use anytomd::error::ConvertError;
use anytomd::text::trim;

fn chars(s: &str) -> Vec<char> {
    s.chars().collect()
}

fn text(v: &[char]) -> String {
    v.iter().collect()
}

#[test]
fn law_col_letters_are_distinct_and_nonempty() {
    let names: Vec<String> = (0..800).map(col_letter).collect();
    for (i, a) in names.iter().enumerate() {
        assert!(!a.is_empty());
        for b in &names[i + 1..] {
            assert_ne!(a, b);
        }
    }
    assert_eq!(col_letter(0), "A");
    assert_eq!(col_letter(25), "Z");
    assert_eq!(col_letter(26), "AA");
    assert_eq!(col_letter(701), "ZZ");
    assert_eq!(col_letter(702), "AAA");
}

fn cell(t: &str, colspan: usize, rowspan: usize) -> HtmlCell {
    HtmlCell { colspan, rowspan, segments: vec![CellSegment::Text(t.to_string())] }
}

#[test]
fn law_normalized_rows_have_grid_width() {
    // A cell spanning two rows pushes the second row's cell to the right.
    let rows = vec![
        HtmlRow { cells: vec![cell("a", 1, 2), cell("b", 1, 1)], is_header_row: false },
        HtmlRow { cells: vec![cell("c", 1, 1)], is_header_row: false },
    ];
    let (norm, _) = normalize_html_rowspans(&rows);
    assert_eq!(norm.len(), 2);
    for r in &norm {
        let width: usize = r.cells.iter().map(|c| c.colspan).sum();
        assert_eq!(width, 2);
    }
}

#[test]
fn law_trim_is_idempotent() {
    for s in ["  a b  ", "\n\tx\n", "", "   ", "y"] {
        let once = trim(&chars(s));
        let twice = trim(&once);
        assert_eq!(once, twice);
        assert_eq!(text(&once), s.trim());
    }
}

#[test]
fn law_sorted_comment_ids_are_a_permutation_in_order() {
    let ids: Vec<Vec<char>> = ["b", "a", "c", "a"].iter().map(|s| chars(s)).collect();
    let sorted = sort_lex(&ids);
    let as_text: Vec<String> = sorted.iter().map(|v| text(v)).collect();
    assert_eq!(as_text, vec!["a", "a", "b", "c"]);
}

#[test]
fn law_orphan_order_is_total_and_unique() {
    let a: Vec<Vec<char>> = ["10", "9", "x", "2"].iter().map(|s| chars(s)).collect();
    let b: Vec<Vec<char>> = ["2", "x", "10", "9"].iter().map(|s| chars(s)).collect();
    let sa = sort_orphans(&a);
    let sb = sort_orphans(&b);
    assert_eq!(sa, sb);
    assert_eq!(sa.len(), 4);
}

#[test]
fn comment_text_helpers() {
    assert_eq!(text(&collapse_ws(&chars("  a \n\t b  "))), "a b");
    assert_eq!(text(&format_author(&chars("Ann"), &chars("2024-01-02"))), "Ann (2024-01-02)");
    assert_eq!(text(&format_author(&chars(""), &chars(""))), "Unknown");
    let capped = cap_text(&chars("abcdef"), 3);
    assert_eq!(text(&capped), "abc…");
    assert_eq!(text(&cap_text(&chars("abc"), 3)), "abc");
}

#[test]
fn package_absolute_and_dot_targets_resolve() {
    assert_eq!(resolve_relative_to_file("word/document.xml", "/word/media/image1.png"), "word/media/image1.png");
    assert_eq!(resolve_relative_to_file("word/document.xml", "./media/image1.png"), "word/media/image1.png");
    assert_eq!(resolve_relative_to_file("ppt/slides/slide1.xml", "../media/a.png"), "ppt/media/a.png");
    assert_eq!(resolve_relative_to_file("slide.xml", "a.png"), "a.png");
}

#[test]
fn notes_take_first_body_placeholder_with_text() {
    let xml = r#"<p:notes><p:cSld><p:spTree>
        <p:sp><p:nvSpPr><p:nvPr><p:ph type="sldImg"/></p:nvPr></p:nvSpPr><p:txBody><a:p><a:r><a:t>image</a:t></a:r></a:p></p:txBody></p:sp>
        <p:sp><p:nvSpPr><p:nvPr><p:ph type="body"/></p:nvPr></p:nvSpPr><p:txBody><a:p><a:r><a:t>  </a:t></a:r></a:p></p:txBody></p:sp>
        <p:sp><p:nvSpPr><p:nvPr><p:ph type="body" idx="1"/></p:nvPr></p:nvSpPr><p:txBody><a:p><a:r><a:t> First </a:t></a:r></a:p><a:p><a:r><a:t>Second</a:t></a:r></a:p></p:txBody></p:sp>
        </p:spTree></p:cSld></p:notes>"#;
    let notes = parse_notes(xml).unwrap();
    assert_eq!(text(&notes), "First \nSecond");
    assert!(parse_notes("<p:notes/>").is_none());
}

#[test]
fn slide_shapes_in_document_order() {
    let xml = r#"<p:sld><p:cSld><p:spTree>
        <p:sp><p:nvSpPr><p:nvPr><p:ph type="title"/></p:nvPr></p:nvSpPr><p:txBody><a:p><a:r><a:t>Title</a:t></a:r></a:p></p:txBody></p:sp>
        <p:graphicFrame><a:graphic><a:graphicData><a:tbl>
          <a:tr><a:tc><a:txBody><a:p><a:r><a:t>H1</a:t></a:r></a:p></a:txBody></a:tc><a:tc><a:txBody><a:p><a:r><a:t>H2</a:t></a:r></a:p></a:txBody></a:tc></a:tr>
          <a:tr><a:tc><a:txBody><a:p><a:r><a:t> x </a:t></a:r></a:p></a:txBody></a:tc><a:tc><a:txBody><a:p><a:r><a:t>y</a:t></a:r></a:p></a:txBody></a:tc></a:tr>
        </a:tbl></a:graphicData></a:graphic></p:graphicFrame>
        <p:pic><p:blipFill><a:blip r:embed="rId7"/></p:blipFill></p:pic>
        <p:sp><p:txBody><a:p><a:r><a:t>Body</a:t></a:r></a:p></p:txBody></p:sp>
        </p:spTree></p:cSld></p:sld>"#;
    let (shapes, warnings) = parse_slide(xml);
    assert!(warnings.is_empty());
    assert_eq!(shapes.len(), 4);
    match &shapes[0] {
        ShapeContent::Title(t) => assert_eq!(text(t), "Title"),
        other => panic!("expected a title, got {other:?}"),
    }
    match &shapes[1] {
        ShapeContent::Table { headers, rows } => {
            assert_eq!(headers.iter().map(|h| text(h)).collect::<Vec<_>>(), vec!["H1", "H2"]);
            assert_eq!(rows.len(), 1);
            assert_eq!(text(&rows[0][0]), "x");
        }
        other => panic!("expected a table, got {other:?}"),
    }
    match &shapes[2] {
        ShapeContent::Image { rel_id } => assert_eq!(rel_id, "rId7"),
        other => panic!("expected an image, got {other:?}"),
    }
    match &shapes[3] {
        ShapeContent::Body(t) => assert_eq!(text(t), "Body"),
        other => panic!("expected body text, got {other:?}"),
    }
}

#[test]
fn slide_syntax_error_gives_one_warning() {
    let (shapes, warnings) = parse_slide("<p:sld><p:sp><p:txBody><a:p><a:r><a:t>x</a:t></a:r></a:p></p:txBody></p:sp><a:b></a:c>");
    assert_eq!(warnings.len(), 1);
    assert_eq!(warnings[0].code, WarningCode::MalformedSegment);
    assert_eq!(shapes.len(), 1);
}

fn info() -> ImageInfo {
    ImageInfo {
        placeholder: "__img_0__".to_string(),
        original_alt: "alt".to_string(),
        filename: "a.png".to_string(),
        bytes_key: "rId1".to_string(),
    }
}

#[test]
fn description_replaces_placeholder() {
    let mut md = "x ![__img_0__](a.png) y".to_string();
    let mut plain = "x __img_0__ y".to_string();
    let mut warnings: Vec<ConversionWarning> = Vec::new();
    apply_description(&mut md, &mut plain, &info(), Some(Ok("A cat".to_string())), &mut warnings);
    assert_eq!(md, "x ![A cat](a.png) y");
    assert_eq!(plain, "x A cat y");
    assert!(warnings.is_empty());
}

#[test]
fn failed_description_falls_back_with_warning() {
    let mut md = "![__img_0__](a.png)".to_string();
    let mut plain = "__img_0__".to_string();
    let mut warnings: Vec<ConversionWarning> = Vec::new();
    let e = ConvertError::ImageDescriptionError { reason: "offline".to_string() };
    apply_description(&mut md, &mut plain, &info(), Some(Err(e)), &mut warnings);
    assert_eq!(md, "![alt](a.png)");
    assert_eq!(plain, "alt");
    assert_eq!(warnings.len(), 1);
    assert_eq!(warnings[0].code, WarningCode::SkippedElement);
    assert_eq!(warnings[0].message, "image description failed for 'a.png': image description failed: offline");
    assert_eq!(warnings[0].location.as_deref(), Some("a.png"));
}

#[test]
fn undescribed_image_gets_its_alt_text() {
    let mut md = "![__img_0__](a.png)".to_string();
    let mut plain = "__img_0__".to_string();
    let mut warnings: Vec<ConversionWarning> = Vec::new();
    apply_description(&mut md, &mut plain, &info(), None, &mut warnings);
    assert_eq!(md, "![alt](a.png)");
    assert_eq!(plain, "alt");
    assert!(warnings.is_empty());
}

#[test]
fn image_request_uses_last_bytes_for_key() {
    let png = vec![0x89, b'P', b'N', b'G', 0x0D, 0x0A, 0x1A, 0x0A, 0];
    let bytes = vec![
        ("rId1".to_string(), vec![1u8, 2, 3]),
        ("rId1".to_string(), png.clone()),
        ("rId2".to_string(), vec![9u8]),
    ];
    let (b, mime) = image_request(&info(), &bytes).unwrap();
    assert_eq!(b, &png);
    assert_eq!(mime, "image/png");
    let none: Vec<(String, Vec<u8>)> = Vec::new();
    assert!(image_request(&info(), &none).is_none());
}
