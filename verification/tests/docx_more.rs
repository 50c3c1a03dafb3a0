use anytomd::converter::docx::DocxConverter;
use anytomd::converter::ooxml_utils::parse_relationships;
use anytomd::converter::docx_styles::{numbering_lookup, parse_numbering};
use anytomd::converter::docx_comments::{collect_ranges_in_part, parse_comments_extended, parse_comments_xml, RawComment, SOURCE_CAP};
use std::collections::{HashMap, HashSet};
use anytomd::converter::{ConversionOptions, Converter, ImageDescriber, WarningCode};
use anytomd::error::ConvertError;
use std::io::Cursor;

/// The comment read last under `id`.
fn comment<'a>(v: &'a [(String, RawComment)], id: &str) -> Option<&'a RawComment> {
    v.iter().rev().find(|(k, _)| k == id).map(|(_, c)| c)
}

/// The reply marks of a comments-extended part, as a set.
fn replies_of(xml: &str) -> HashSet<String> {
    parse_comments_extended(xml).into_iter().map(|v| v.into_iter().collect()).collect()
}

/// The ranges of a part: ids in order and the text of each.
fn ranges(xml: &str) -> (Vec<String>, HashMap<String, String>) {
    let (order, text) = collect_ranges_in_part(xml);
    (
        order.into_iter().map(|v| v.into_iter().collect()).collect(),
        text.into_iter().map(|(k, v)| (k.into_iter().collect(), v.into_iter().collect())).collect(),
    )
}

// ---- Helper: build minimal DOCX ZIP in memory ----

/// Build a minimal DOCX file in memory from document XML, optional styles XML,
/// optional relationships XML, and optional numbering XML.
fn build_test_docx(
    document_xml: &str,
    styles_xml: Option<&str>,
    rels_xml: Option<&str>,
) -> Vec<u8> {
    build_test_docx_with_numbering(document_xml, styles_xml, rels_xml, None)
}

fn build_test_docx_with_numbering(
    document_xml: &str,
    styles_xml: Option<&str>,
    rels_xml: Option<&str>,
    numbering_xml: Option<&str>,
) -> Vec<u8> {

    let buf = Vec::new();
    let mut zip = ZipWriter::new(Cursor::new(buf));
    let opts = SimpleFileOptions::default();

    // [Content_Types].xml
    let mut ct = String::from(r#"<?xml version="1.0" encoding="UTF-8" standalone="yes"?>"#);
    ct.push_str(
        r#"<Types xmlns="http://schemas.openxmlformats.org/package/2006/content-types">"#,
    );
    ct.push_str(
        r#"<Default Extension="rels" ContentType="application/vnd.openxmlformats-package.relationships+xml"/>"#,
    );
    ct.push_str(r#"<Default Extension="xml" ContentType="application/xml"/>"#);
    ct.push_str(
        r#"<Override PartName="/word/document.xml" ContentType="application/vnd.openxmlformats-officedocument.wordprocessingml.document.main+xml"/>"#,
    );
    ct.push_str("</Types>");
    zip.start_file("[Content_Types].xml", opts).unwrap();
    zip.write_all(ct.as_bytes()).unwrap();

    // _rels/.rels
    zip.start_file("_rels/.rels", opts).unwrap();
    zip.write_all(
        br#"<?xml version="1.0" encoding="UTF-8" standalone="yes"?><Relationships xmlns="http://schemas.openxmlformats.org/package/2006/relationships"><Relationship Id="rId1" Type="http://schemas.openxmlformats.org/officeDocument/2006/relationships/officeDocument" Target="word/document.xml"/></Relationships>"#,
    )
    .unwrap();

    // word/document.xml
    zip.start_file("word/document.xml", opts).unwrap();
    zip.write_all(document_xml.as_bytes()).unwrap();

    // word/styles.xml (optional)
    if let Some(styles) = styles_xml {
        zip.start_file("word/styles.xml", opts).unwrap();
        zip.write_all(styles.as_bytes()).unwrap();
    }

    // word/_rels/document.xml.rels (optional)
    if let Some(rels) = rels_xml {
        zip.start_file("word/_rels/document.xml.rels", opts)
            .unwrap();
        zip.write_all(rels.as_bytes()).unwrap();
    }

    // word/numbering.xml (optional)
    if let Some(numbering) = numbering_xml {
        zip.start_file("word/numbering.xml", opts).unwrap();
        zip.write_all(numbering.as_bytes()).unwrap();
    }

    let cursor = zip.finish().unwrap();
    cursor.into_inner()
}

/// Wrap paragraph content in a minimal document.xml structure.
fn wrap_body(body: &str) -> String {
    format!(
        r#"<?xml version="1.0" encoding="UTF-8" standalone="yes"?><w:document xmlns:w="http://schemas.openxmlformats.org/wordprocessingml/2006/main" xmlns:r="http://schemas.openxmlformats.org/officeDocument/2006/relationships" xmlns:wp="http://schemas.openxmlformats.org/drawingml/2006/wordprocessingDrawing" xmlns:a="http://schemas.openxmlformats.org/drawingml/2006/main" xmlns:pic="http://schemas.openxmlformats.org/drawingml/2006/picture" xmlns:mc="http://schemas.openxmlformats.org/markup-compatibility/2006" xmlns:v="urn:schemas-microsoft-com:vml" xmlns:o="urn:schemas-microsoft-com:office:office"><w:body>{body}</w:body></w:document>"#
    )
}

/// Build a simple paragraph XML element.
fn para(text: &str) -> String {
    format!(r#"<w:p><w:r><w:t xml:space="preserve">{text}</w:t></w:r></w:p>"#)
}

/// Build a heading paragraph XML element with a direct style ID.
fn heading_para(text: &str, level: u8) -> String {
    format!(
        r#"<w:p><w:pPr><w:pStyle w:val="Heading{level}"/></w:pPr><w:r><w:t>{text}</w:t></w:r></w:p>"#
    )
}

/// Build a bold paragraph.
fn bold_para(text: &str) -> String {
    format!(r#"<w:p><w:r><w:rPr><w:b/></w:rPr><w:t>{text}</w:t></w:r></w:p>"#)
}

/// Build an italic paragraph.
fn italic_para(text: &str) -> String {
    format!(r#"<w:p><w:r><w:rPr><w:i/></w:rPr><w:t>{text}</w:t></w:r></w:p>"#)
}

/// Build a bold+italic paragraph.
fn bold_italic_para(text: &str) -> String {
    format!(r#"<w:p><w:r><w:rPr><w:b/><w:i/></w:rPr><w:t>{text}</w:t></w:r></w:p>"#)
}

#[test]
fn test_docx_invalid_data_returns_error() {
    let converter = DocxConverter;
    let result = converter.convert(b"not a valid docx file", &ConversionOptions::default());
    assert!(result.is_err());
}

#[test]
fn test_docx_single_paragraph() {
    let doc = wrap_body(&para("Hello, world!"));
    let data = build_test_docx(&doc, None, None);
    let converter = DocxConverter;
    let result = converter
        .convert(&data, &ConversionOptions::default())
        .unwrap();
    assert_eq!(result.markdown.trim(), "Hello, world!");
}

#[test]
fn test_docx_multiple_paragraphs() {
    let body = format!("{}{}", para("First paragraph."), para("Second paragraph."));
    let doc = wrap_body(&body);
    let data = build_test_docx(&doc, None, None);
    let converter = DocxConverter;
    let result = converter
        .convert(&data, &ConversionOptions::default())
        .unwrap();
    assert!(result.markdown.contains("First paragraph."));
    assert!(result.markdown.contains("Second paragraph."));
    assert!(
        result
            .markdown
            .contains("First paragraph.\n\nSecond paragraph.")
    );
}

#[test]
fn test_docx_empty_document() {
    let doc = wrap_body("");
    let data = build_test_docx(&doc, None, None);
    let converter = DocxConverter;
    let result = converter
        .convert(&data, &ConversionOptions::default())
        .unwrap();
    assert_eq!(result.markdown, "");
}

#[test]
fn test_docx_unicode_cjk() {
    let body = format!(
        "{}{}{}",
        para("한국어 테스트"),
        para("中文测试"),
        para("日本語テスト")
    );
    let doc = wrap_body(&body);
    let data = build_test_docx(&doc, None, None);
    let converter = DocxConverter;
    let result = converter
        .convert(&data, &ConversionOptions::default())
        .unwrap();
    assert!(result.markdown.contains("한국어 테스트"));
    assert!(result.markdown.contains("中文测试"));
    assert!(result.markdown.contains("日本語テスト"));
}

#[test]
fn test_docx_emoji() {
    let body = para("Rocket: 🚀 Stars: ✨ Earth: 🌍");
    let doc = wrap_body(&body);
    let data = build_test_docx(&doc, None, None);
    let converter = DocxConverter;
    let result = converter
        .convert(&data, &ConversionOptions::default())
        .unwrap();
    assert!(result.markdown.contains("🚀"));
    assert!(result.markdown.contains("✨"));
    assert!(result.markdown.contains("🌍"));
}

#[test]
fn test_docx_heading_levels() {
    let body = format!(
        "{}{}{}{}{}{}",
        heading_para("Heading 1", 1),
        heading_para("Heading 2", 2),
        heading_para("Heading 3", 3),
        heading_para("Heading 4", 4),
        heading_para("Heading 5", 5),
        heading_para("Heading 6", 6),
    );
    let doc = wrap_body(&body);
    let data = build_test_docx(&doc, None, None);
    let converter = DocxConverter;
    let result = converter
        .convert(&data, &ConversionOptions::default())
        .unwrap();
    assert!(result.markdown.contains("# Heading 1\n"));
    assert!(result.markdown.contains("## Heading 2\n"));
    assert!(result.markdown.contains("### Heading 3\n"));
    assert!(result.markdown.contains("#### Heading 4\n"));
    assert!(result.markdown.contains("##### Heading 5\n"));
    assert!(result.markdown.contains("###### Heading 6\n"));
}

#[test]
fn test_docx_heading_from_styles_xml() {
    let body = r#"<w:p><w:pPr><w:pStyle w:val="CustomTitle"/></w:pPr><w:r><w:t>My Title</w:t></w:r></w:p>"#;
    let doc = wrap_body(body);
    let styles = r#"<?xml version="1.0" encoding="UTF-8"?><w:styles xmlns:w="http://schemas.openxmlformats.org/wordprocessingml/2006/main"><w:style w:type="paragraph" w:styleId="CustomTitle"><w:name w:val="heading 1"/></w:style></w:styles>"#;
    let data = build_test_docx(&doc, Some(styles), None);
    let converter = DocxConverter;
    let result = converter
        .convert(&data, &ConversionOptions::default())
        .unwrap();
    assert!(result.markdown.contains("# My Title\n"));
}

#[test]
fn test_docx_first_heading1_becomes_title() {
    let body = format!(
        "{}{}{}",
        heading_para("Document Title", 1),
        para("Some text."),
        heading_para("Another H1", 1),
    );
    let doc = wrap_body(&body);
    let data = build_test_docx(&doc, None, None);
    let converter = DocxConverter;
    let result = converter
        .convert(&data, &ConversionOptions::default())
        .unwrap();
    assert_eq!(result.title, Some("Document Title".to_string()));
}

#[test]
fn test_docx_missing_styles_xml_graceful() {
    let body = format!("{}{}", heading_para("Title", 1), para("Body text."),);
    let doc = wrap_body(&body);
    let data = build_test_docx(&doc, None, None);
    let converter = DocxConverter;
    let result = converter
        .convert(&data, &ConversionOptions::default())
        .unwrap();
    assert!(result.markdown.contains("# Title\n"));
    assert!(result.markdown.contains("Body text."));
    assert!(result.warnings.is_empty());
}

#[test]
fn test_docx_hyperlink() {
    let body =
        r#"<w:p><w:hyperlink r:id="rId1"><w:r><w:t>Example</w:t></w:r></w:hyperlink></w:p>"#;
    let doc = wrap_body(body);
    let rels = r#"<?xml version="1.0" encoding="UTF-8"?><Relationships xmlns="http://schemas.openxmlformats.org/package/2006/relationships"><Relationship Id="rId1" Type="http://schemas.openxmlformats.org/officeDocument/2006/relationships/hyperlink" Target="https://example.com" TargetMode="External"/></Relationships>"#;
    let data = build_test_docx(&doc, None, Some(rels));
    let converter = DocxConverter;
    let result = converter
        .convert(&data, &ConversionOptions::default())
        .unwrap();
    assert!(result.markdown.contains("[Example](https://example.com)"));
}

#[test]
fn test_docx_hyperlink_missing_rel() {
    let body = r#"<w:p><w:hyperlink r:id="rId99"><w:r><w:t>Broken Link</w:t></w:r></w:hyperlink></w:p>"#;
    let doc = wrap_body(body);
    let data = build_test_docx(&doc, None, None);
    let converter = DocxConverter;
    let result = converter
        .convert(&data, &ConversionOptions::default())
        .unwrap();
    assert!(result.markdown.contains("Broken Link"));
    assert!(!result.markdown.contains('['));
    assert!(!result.warnings.is_empty());
    assert_eq!(result.warnings[0].code, WarningCode::SkippedElement);
}

#[test]
fn test_docx_line_break() {
    let body = r#"<w:p><w:r><w:t>Line one</w:t><w:br/><w:t>Line two</w:t></w:r></w:p>"#;
    let doc = wrap_body(body);
    let data = build_test_docx(&doc, None, None);
    let converter = DocxConverter;
    let result = converter
        .convert(&data, &ConversionOptions::default())
        .unwrap();
    assert!(result.markdown.contains("Line one\nLine two"));
}

#[test]
fn test_docx_multiple_runs_joined() {
    let body = r#"<w:p><w:r><w:t xml:space="preserve">Hello </w:t></w:r><w:r><w:t>world</w:t></w:r></w:p>"#;
    let doc = wrap_body(body);
    let data = build_test_docx(&doc, None, None);
    let converter = DocxConverter;
    let result = converter
        .convert(&data, &ConversionOptions::default())
        .unwrap();
    assert!(result.markdown.contains("Hello world"));
}

// ---- Bold/Italic tests ----

#[test]
fn test_docx_bold_text() {
    let doc = wrap_body(&bold_para("Bold text"));
    let data = build_test_docx(&doc, None, None);
    let converter = DocxConverter;
    let result = converter
        .convert(&data, &ConversionOptions::default())
        .unwrap();
    assert!(result.markdown.contains("**Bold text**"));
}

#[test]
fn test_docx_italic_text() {
    let doc = wrap_body(&italic_para("Italic text"));
    let data = build_test_docx(&doc, None, None);
    let converter = DocxConverter;
    let result = converter
        .convert(&data, &ConversionOptions::default())
        .unwrap();
    assert!(result.markdown.contains("*Italic text*"));
}

#[test]
fn test_docx_bold_italic_nested() {
    let doc = wrap_body(&bold_italic_para("Bold and italic"));
    let data = build_test_docx(&doc, None, None);
    let converter = DocxConverter;
    let result = converter
        .convert(&data, &ConversionOptions::default())
        .unwrap();
    assert!(result.markdown.contains("***Bold and italic***"));
}

#[test]
fn test_docx_bold_val_false_not_bold() {
    // <w:b w:val="0"/> means NOT bold
    let body = r#"<w:p><w:r><w:rPr><w:b w:val="0"/></w:rPr><w:t>Not bold</w:t></w:r></w:p>"#;
    let doc = wrap_body(body);
    let data = build_test_docx(&doc, None, None);
    let converter = DocxConverter;
    let result = converter
        .convert(&data, &ConversionOptions::default())
        .unwrap();
    assert!(result.markdown.contains("Not bold"));
    assert!(!result.markdown.contains("**"));
}

#[test]
fn test_docx_mixed_formatting_runs() {
    // Normal + bold + normal in one paragraph
    let body = r#"<w:p><w:r><w:t xml:space="preserve">Normal </w:t></w:r><w:r><w:rPr><w:b/></w:rPr><w:t xml:space="preserve">bold </w:t></w:r><w:r><w:t>normal</w:t></w:r></w:p>"#;
    let doc = wrap_body(body);
    let data = build_test_docx(&doc, None, None);
    let converter = DocxConverter;
    let result = converter
        .convert(&data, &ConversionOptions::default())
        .unwrap();
    assert!(result.markdown.contains("Normal **bold** normal"));
}

#[test]
fn test_docx_bold_in_hyperlink() {
    let body = r#"<w:p><w:hyperlink r:id="rId1"><w:r><w:rPr><w:b/></w:rPr><w:t>Bold Link</w:t></w:r></w:hyperlink></w:p>"#;
    let doc = wrap_body(body);
    let rels = r#"<?xml version="1.0" encoding="UTF-8"?><Relationships xmlns="http://schemas.openxmlformats.org/package/2006/relationships"><Relationship Id="rId1" Type="http://schemas.openxmlformats.org/officeDocument/2006/relationships/hyperlink" Target="https://example.com" TargetMode="External"/></Relationships>"#;
    let data = build_test_docx(&doc, None, Some(rels));
    let converter = DocxConverter;
    let result = converter
        .convert(&data, &ConversionOptions::default())
        .unwrap();
    assert!(
        result
            .markdown
            .contains("[**Bold Link**](https://example.com)")
    );
}

#[test]
fn test_docx_empty_run_no_markers() {
    // Empty bold run should not produce bare **
    let body =
        r#"<w:p><w:r><w:rPr><w:b/></w:rPr><w:t></w:t></w:r><w:r><w:t>text</w:t></w:r></w:p>"#;
    let doc = wrap_body(body);
    let data = build_test_docx(&doc, None, None);
    let converter = DocxConverter;
    let result = converter
        .convert(&data, &ConversionOptions::default())
        .unwrap();
    assert!(!result.markdown.contains("****"));
    assert!(result.markdown.contains("text"));
}

#[test]
fn test_docx_adjacent_bold_runs_merged() {
    // Two consecutive bold runs should produce **Hello World** not **Hello** **World**
    let body = r#"<w:p><w:r><w:rPr><w:b/></w:rPr><w:t xml:space="preserve">Hello </w:t></w:r><w:r><w:rPr><w:b/></w:rPr><w:t>World</w:t></w:r></w:p>"#;
    let doc = wrap_body(body);
    let data = build_test_docx(&doc, None, None);
    let converter = DocxConverter;
    let result = converter
        .convert(&data, &ConversionOptions::default())
        .unwrap();
    assert!(
        result.markdown.contains("**Hello World**"),
        "expected '**Hello World**' but markdown was: {}",
        result.markdown
    );
    assert!(
        !result.markdown.contains("** **"),
        "should not have separate markers"
    );
}

#[test]
fn test_docx_adjacent_italic_runs_merged() {
    let body = r#"<w:p><w:r><w:rPr><w:i/></w:rPr><w:t xml:space="preserve">Hello </w:t></w:r><w:r><w:rPr><w:i/></w:rPr><w:t>World</w:t></w:r></w:p>"#;
    let doc = wrap_body(body);
    let data = build_test_docx(&doc, None, None);
    let converter = DocxConverter;
    let result = converter
        .convert(&data, &ConversionOptions::default())
        .unwrap();
    assert!(
        result.markdown.contains("*Hello World*"),
        "expected '*Hello World*' but markdown was: {}",
        result.markdown
    );
}

#[test]
fn test_docx_formatting_change_between_runs() {
    // Bold run then italic run should NOT merge
    let body = r#"<w:p><w:r><w:rPr><w:b/></w:rPr><w:t xml:space="preserve">bold </w:t></w:r><w:r><w:rPr><w:i/></w:rPr><w:t>italic</w:t></w:r></w:p>"#;
    let doc = wrap_body(body);
    let data = build_test_docx(&doc, None, None);
    let converter = DocxConverter;
    let result = converter
        .convert(&data, &ConversionOptions::default())
        .unwrap();
    assert!(
        result.markdown.contains("**bold** *italic*"),
        "expected '**bold** *italic*' but markdown was: {}",
        result.markdown
    );
}

#[test]
fn test_docx_split_word_across_bold_runs() {
    // Word split across two bold runs (common in spell-check/revision tracking)
    // Should produce **Hello** not **Hel****lo**
    let body = r#"<w:p><w:r><w:rPr><w:b/></w:rPr><w:t>Hel</w:t></w:r><w:r><w:rPr><w:b/></w:rPr><w:t>lo</w:t></w:r></w:p>"#;
    let doc = wrap_body(body);
    let data = build_test_docx(&doc, None, None);
    let converter = DocxConverter;
    let result = converter
        .convert(&data, &ConversionOptions::default())
        .unwrap();
    assert!(
        result.markdown.contains("**Hello**"),
        "expected '**Hello**' but markdown was: {}",
        result.markdown
    );
    assert!(
        !result.markdown.contains("****"),
        "should not have adjacent markers"
    );
}

// ---- Table tests ----

#[test]
fn test_docx_table_basic() {
    let body = r#"<w:tbl><w:tr><w:tc><w:p><w:r><w:t>H1</w:t></w:r></w:p></w:tc><w:tc><w:p><w:r><w:t>H2</w:t></w:r></w:p></w:tc></w:tr><w:tr><w:tc><w:p><w:r><w:t>A</w:t></w:r></w:p></w:tc><w:tc><w:p><w:r><w:t>B</w:t></w:r></w:p></w:tc></w:tr></w:tbl>"#;
    let doc = wrap_body(body);
    let data = build_test_docx(&doc, None, None);
    let converter = DocxConverter;
    let result = converter
        .convert(&data, &ConversionOptions::default())
        .unwrap();
    assert!(result.markdown.contains("| H1 | H2 |"));
    assert!(result.markdown.contains("|---|---|"));
    assert!(result.markdown.contains("| A | B |"));
}

#[test]
fn test_docx_table_empty_cells() {
    let body = r#"<w:tbl><w:tr><w:tc><w:p><w:r><w:t>A</w:t></w:r></w:p></w:tc><w:tc><w:p></w:p></w:tc></w:tr><w:tr><w:tc><w:p></w:p></w:tc><w:tc><w:p><w:r><w:t>D</w:t></w:r></w:p></w:tc></w:tr></w:tbl>"#;
    let doc = wrap_body(body);
    let data = build_test_docx(&doc, None, None);
    let converter = DocxConverter;
    let result = converter
        .convert(&data, &ConversionOptions::default())
        .unwrap();
    assert!(result.markdown.contains("| A |"));
    assert!(result.markdown.contains("| D |"));
}

#[test]
fn test_docx_table_with_formatting() {
    let body = r#"<w:tbl><w:tr><w:tc><w:p><w:r><w:rPr><w:b/></w:rPr><w:t>Bold</w:t></w:r></w:p></w:tc><w:tc><w:p><w:r><w:t>Normal</w:t></w:r></w:p></w:tc></w:tr></w:tbl>"#;
    let doc = wrap_body(body);
    let data = build_test_docx(&doc, None, None);
    let converter = DocxConverter;
    let result = converter
        .convert(&data, &ConversionOptions::default())
        .unwrap();
    assert!(result.markdown.contains("**Bold**"));
    assert!(result.markdown.contains("Normal"));
}

#[test]
fn test_docx_table_between_paragraphs() {
    let body = format!(
        "{}{}{}",
        para("Before table."),
        r#"<w:tbl><w:tr><w:tc><w:p><w:r><w:t>Cell</w:t></w:r></w:p></w:tc></w:tr></w:tbl>"#,
        para("After table.")
    );
    let doc = wrap_body(&body);
    let data = build_test_docx(&doc, None, None);
    let converter = DocxConverter;
    let result = converter
        .convert(&data, &ConversionOptions::default())
        .unwrap();
    assert!(result.markdown.contains("Before table."));
    assert!(result.markdown.contains("| Cell |"));
    assert!(result.markdown.contains("After table."));
}

#[test]
fn test_docx_table_unicode() {
    let body = r#"<w:tbl><w:tr><w:tc><w:p><w:r><w:t>한국어</w:t></w:r></w:p></w:tc><w:tc><w:p><w:r><w:t>中文</w:t></w:r></w:p></w:tc></w:tr></w:tbl>"#;
    let doc = wrap_body(body);
    let data = build_test_docx(&doc, None, None);
    let converter = DocxConverter;
    let result = converter
        .convert(&data, &ConversionOptions::default())
        .unwrap();
    assert!(result.markdown.contains("한국어"));
    assert!(result.markdown.contains("中文"));
}

#[test]
fn test_docx_table_gridspan_banner_preserves_all_columns() {
    // A full-width gridSpan banner over a two-column data row. The banner must
    // not collapse the table to one column: both "A" and "B" must survive.
    // (This previously truncated every row to its first cell.) The whole table
    // renders as one empty-filled GFM grid.
    let body = r#"<w:tbl><w:tr><w:tc><w:tcPr><w:gridSpan w:val="2"/></w:tcPr><w:p><w:r><w:t>Merged</w:t></w:r></w:p></w:tc></w:tr><w:tr><w:tc><w:p><w:r><w:t>A</w:t></w:r></w:p></w:tc><w:tc><w:p><w:r><w:t>B</w:t></w:r></w:p></w:tc></w:tr></w:tbl>"#;
    let doc = wrap_body(body);
    let data = build_test_docx(&doc, None, None);
    let converter = DocxConverter;
    let result = converter
        .convert(&data, &ConversionOptions::default())
        .unwrap();
    // The banner is the header row of the grid, empty-filled to full width.
    assert!(
        result.markdown.contains("| Merged |  |"),
        "banner not an empty-filled header: {}",
        result.markdown
    );
    // The data row keeps both columns.
    assert!(
        result.markdown.contains("| A | B |"),
        "columns truncated: {}",
        result.markdown
    );
}

#[test]
fn test_docx_table_depth_stack_nested_smoke() {
    // A table nested inside a cell of an outer table. The parser tracks table
    // depth via a stack, so both the outer cell text and the inner table's
    // cells must survive (the old single-flag machine could not nest).
    let body = r#"<w:tbl><w:tr><w:tc><w:p><w:r><w:t>outer</w:t></w:r></w:p><w:tbl><w:tr><w:tc><w:p><w:r><w:t>inner</w:t></w:r></w:p></w:tc></w:tr></w:tbl></w:tc></w:tr></w:tbl>"#;
    let doc = wrap_body(body);
    let data = build_test_docx(&doc, None, None);
    let converter = DocxConverter;
    let result = converter
        .convert(&data, &ConversionOptions::default())
        .unwrap();
    assert!(
        result.markdown.contains("outer"),
        "outer cell text missing: {}",
        result.markdown
    );
    assert!(
        result.markdown.contains("inner"),
        "inner table text missing: {}",
        result.markdown
    );
}

#[test]
fn test_docx_nested_table_rendered_fully() {
    // A 2x2 inner table inside a single outer cell. All four inner cells must
    // appear, rendered as a GFM table nested within the outer cell's position.
    let inner = r#"<w:tbl><w:tr><w:tc><w:p><w:r><w:t>i1</w:t></w:r></w:p></w:tc><w:tc><w:p><w:r><w:t>i2</w:t></w:r></w:p></w:tc></w:tr><w:tr><w:tc><w:p><w:r><w:t>i3</w:t></w:r></w:p></w:tc><w:tc><w:p><w:r><w:t>i4</w:t></w:r></w:p></w:tc></w:tr></w:tbl>"#;
    let body = format!(
        r#"<w:tbl><w:tr><w:tc><w:p><w:r><w:t>outer-text</w:t></w:r></w:p>{inner}</w:tc></w:tr></w:tbl>"#
    );
    let doc = wrap_body(&body);
    let data = build_test_docx(&doc, None, None);
    let result = DocxConverter
        .convert(&data, &ConversionOptions::default())
        .unwrap();
    for needle in ["outer-text", "i1", "i2", "i3", "i4"] {
        assert!(
            result.markdown.contains(needle),
            "missing {needle}: {}",
            result.markdown
        );
    }
    // The inner table is rendered as a GFM table (has a separator row).
    assert!(
        result.markdown.contains("| i1 | i2 |"),
        "{}",
        result.markdown
    );
}

#[test]
fn test_docx_nested_table_forces_linearize() {
    // The outer row holds a nested table, so it must linearize: the outer
    // cell text is not crammed into a one-column GFM cell with <br> noise.
    let inner =
        r#"<w:tbl><w:tr><w:tc><w:p><w:r><w:t>inner</w:t></w:r></w:p></w:tc></w:tr></w:tbl>"#;
    let body = format!(
        r#"<w:tbl><w:tr><w:tc><w:p><w:r><w:t>before</w:t></w:r></w:p>{inner}</w:tc></w:tr></w:tbl>"#
    );
    let doc = wrap_body(&body);
    let data = build_test_docx(&doc, None, None);
    let result = DocxConverter
        .convert(&data, &ConversionOptions::default())
        .unwrap();
    assert!(result.markdown.contains("before"), "{}", result.markdown);
    assert!(result.markdown.contains("inner"), "{}", result.markdown);
    // No <br>-joined cramming of the outer paragraph with the inner table.
    assert!(
        !result.markdown.contains("before<br>"),
        "outer cell was crammed: {}",
        result.markdown
    );
}

#[test]
fn test_docx_empty_nested_table_no_phantom_table_end_to_end() {
    // An outer cell holds real text followed by a nested table whose only cell
    // is empty. Driven through the REAL parser (not a hand-built block): the
    // empty inner table renders to a degenerate skeleton (`|  |\n|---|`) and is
    // suppressed entirely. With the empty nested table gone, the outer 1x1
    // table is a clean grid `| OuterText |`; crucially there is NO second,
    // phantom empty table and the markdown/plain streams agree on the content.
    let body = r#"<w:tbl><w:tr><w:tc><w:p><w:r><w:t>OuterText</w:t></w:r></w:p><w:tbl><w:tr><w:tc><w:p/></w:tc></w:tr></w:tbl></w:tc></w:tr></w:tbl>"#;
    let doc = wrap_body(body);
    let data = build_test_docx(&doc, None, None);
    let result = DocxConverter
        .convert(&data, &ConversionOptions::default())
        .unwrap();
    assert!(
        result.markdown.contains("OuterText"),
        "md: {:?}",
        result.markdown
    );
    // The empty inner table contributed no skeleton: a single separator row
    // (the outer table's own), and no empty `|  |` data cell from the inner one.
    assert_eq!(
        result.markdown.matches("---").count(),
        1,
        "phantom nested separator in md: {:?}",
        result.markdown
    );
    assert!(
        !result.markdown.contains("|  |"),
        "phantom empty nested cell in md: {:?}",
        result.markdown
    );
    // plain_text agrees on the content (the inner empty table left no residue).
    assert!(
        result.plain_text.contains("OuterText"),
        "plain: {:?}",
        result.plain_text
    );
    assert_eq!(
        result.markdown.matches("OuterText").count(),
        1,
        "md: {:?}",
        result.markdown
    );
}

// ---- List tests ----

#[test]
fn test_docx_unordered_list() {
    let numbering = r#"<?xml version="1.0" encoding="UTF-8"?><w:numbering xmlns:w="http://schemas.openxmlformats.org/wordprocessingml/2006/main"><w:abstractNum w:abstractNumId="0"><w:lvl w:ilvl="0"><w:numFmt w:val="bullet"/></w:lvl></w:abstractNum><w:num w:numId="1"><w:abstractNumId w:val="0"/></w:num></w:numbering>"#;
    let body = r#"<w:p><w:pPr><w:numPr><w:ilvl w:val="0"/><w:numId w:val="1"/></w:numPr></w:pPr><w:r><w:t>Item 1</w:t></w:r></w:p><w:p><w:pPr><w:numPr><w:ilvl w:val="0"/><w:numId w:val="1"/></w:numPr></w:pPr><w:r><w:t>Item 2</w:t></w:r></w:p>"#;
    let doc = wrap_body(body);
    let data = build_test_docx_with_numbering(&doc, None, None, Some(numbering));
    let converter = DocxConverter;
    let result = converter
        .convert(&data, &ConversionOptions::default())
        .unwrap();
    assert!(result.markdown.contains("- Item 1"));
    assert!(result.markdown.contains("- Item 2"));
}

#[test]
fn test_docx_ordered_list() {
    let numbering = r#"<?xml version="1.0" encoding="UTF-8"?><w:numbering xmlns:w="http://schemas.openxmlformats.org/wordprocessingml/2006/main"><w:abstractNum w:abstractNumId="0"><w:lvl w:ilvl="0"><w:numFmt w:val="decimal"/></w:lvl></w:abstractNum><w:num w:numId="1"><w:abstractNumId w:val="0"/></w:num></w:numbering>"#;
    let body = r#"<w:p><w:pPr><w:numPr><w:ilvl w:val="0"/><w:numId w:val="1"/></w:numPr></w:pPr><w:r><w:t>First</w:t></w:r></w:p><w:p><w:pPr><w:numPr><w:ilvl w:val="0"/><w:numId w:val="1"/></w:numPr></w:pPr><w:r><w:t>Second</w:t></w:r></w:p>"#;
    let doc = wrap_body(body);
    let data = build_test_docx_with_numbering(&doc, None, None, Some(numbering));
    let converter = DocxConverter;
    let result = converter
        .convert(&data, &ConversionOptions::default())
        .unwrap();
    assert!(result.markdown.contains("1. First"));
    assert!(result.markdown.contains("2. Second"));
}

#[test]
fn test_docx_nested_list() {
    let numbering = r#"<?xml version="1.0" encoding="UTF-8"?><w:numbering xmlns:w="http://schemas.openxmlformats.org/wordprocessingml/2006/main"><w:abstractNum w:abstractNumId="0"><w:lvl w:ilvl="0"><w:numFmt w:val="bullet"/></w:lvl><w:lvl w:ilvl="1"><w:numFmt w:val="bullet"/></w:lvl></w:abstractNum><w:num w:numId="1"><w:abstractNumId w:val="0"/></w:num></w:numbering>"#;
    let body = r#"<w:p><w:pPr><w:numPr><w:ilvl w:val="0"/><w:numId w:val="1"/></w:numPr></w:pPr><w:r><w:t>Parent</w:t></w:r></w:p><w:p><w:pPr><w:numPr><w:ilvl w:val="1"/><w:numId w:val="1"/></w:numPr></w:pPr><w:r><w:t>Child</w:t></w:r></w:p>"#;
    let doc = wrap_body(body);
    let data = build_test_docx_with_numbering(&doc, None, None, Some(numbering));
    let converter = DocxConverter;
    let result = converter
        .convert(&data, &ConversionOptions::default())
        .unwrap();
    assert!(result.markdown.contains("- Parent"));
    assert!(result.markdown.contains("  - Child"));
}

#[test]
fn test_docx_mixed_list_and_paragraph() {
    let numbering = r#"<?xml version="1.0" encoding="UTF-8"?><w:numbering xmlns:w="http://schemas.openxmlformats.org/wordprocessingml/2006/main"><w:abstractNum w:abstractNumId="0"><w:lvl w:ilvl="0"><w:numFmt w:val="bullet"/></w:lvl></w:abstractNum><w:num w:numId="1"><w:abstractNumId w:val="0"/></w:num></w:numbering>"#;
    let body = format!(
        "{}{}{}",
        para("Before list."),
        r#"<w:p><w:pPr><w:numPr><w:ilvl w:val="0"/><w:numId w:val="1"/></w:numPr></w:pPr><w:r><w:t>List item</w:t></w:r></w:p>"#,
        para("After list.")
    );
    let doc = wrap_body(&body);
    let data = build_test_docx_with_numbering(&doc, None, None, Some(numbering));
    let converter = DocxConverter;
    let result = converter
        .convert(&data, &ConversionOptions::default())
        .unwrap();
    assert!(result.markdown.contains("Before list."));
    assert!(result.markdown.contains("- List item"));
    assert!(result.markdown.contains("After list."));
}

#[test]
fn test_docx_list_with_bold() {
    let numbering = r#"<?xml version="1.0" encoding="UTF-8"?><w:numbering xmlns:w="http://schemas.openxmlformats.org/wordprocessingml/2006/main"><w:abstractNum w:abstractNumId="0"><w:lvl w:ilvl="0"><w:numFmt w:val="bullet"/></w:lvl></w:abstractNum><w:num w:numId="1"><w:abstractNumId w:val="0"/></w:num></w:numbering>"#;
    let body = r#"<w:p><w:pPr><w:numPr><w:ilvl w:val="0"/><w:numId w:val="1"/></w:numPr></w:pPr><w:r><w:rPr><w:b/></w:rPr><w:t>Bold item</w:t></w:r></w:p>"#;
    let doc = wrap_body(body);
    let data = build_test_docx_with_numbering(&doc, None, None, Some(numbering));
    let converter = DocxConverter;
    let result = converter
        .convert(&data, &ConversionOptions::default())
        .unwrap();
    assert!(result.markdown.contains("- **Bold item**"));
}

#[test]
fn test_docx_two_separate_ordered_lists_restart_numbering() {
    // Two ordered lists with different numId, separated by a normal paragraph.
    // The second list should restart numbering at 1.
    let numbering = r#"<?xml version="1.0" encoding="UTF-8"?><w:numbering xmlns:w="http://schemas.openxmlformats.org/wordprocessingml/2006/main"><w:abstractNum w:abstractNumId="0"><w:lvl w:ilvl="0"><w:numFmt w:val="decimal"/></w:lvl></w:abstractNum><w:abstractNum w:abstractNumId="1"><w:lvl w:ilvl="0"><w:numFmt w:val="decimal"/></w:lvl></w:abstractNum><w:num w:numId="1"><w:abstractNumId w:val="0"/></w:num><w:num w:numId="2"><w:abstractNumId w:val="1"/></w:num></w:numbering>"#;
    let body = format!(
        "{}{}{}{}{}{}{}",
        // First ordered list (numId=1)
        r#"<w:p><w:pPr><w:numPr><w:ilvl w:val="0"/><w:numId w:val="1"/></w:numPr></w:pPr><w:r><w:t>Alpha</w:t></w:r></w:p>"#,
        r#"<w:p><w:pPr><w:numPr><w:ilvl w:val="0"/><w:numId w:val="1"/></w:numPr></w:pPr><w:r><w:t>Beta</w:t></w:r></w:p>"#,
        r#"<w:p><w:pPr><w:numPr><w:ilvl w:val="0"/><w:numId w:val="1"/></w:numPr></w:pPr><w:r><w:t>Gamma</w:t></w:r></w:p>"#,
        // Normal paragraph separating the lists
        para("Separator paragraph."),
        // Second ordered list (numId=2)
        r#"<w:p><w:pPr><w:numPr><w:ilvl w:val="0"/><w:numId w:val="2"/></w:numPr></w:pPr><w:r><w:t>First</w:t></w:r></w:p>"#,
        r#"<w:p><w:pPr><w:numPr><w:ilvl w:val="0"/><w:numId w:val="2"/></w:numPr></w:pPr><w:r><w:t>Second</w:t></w:r></w:p>"#,
        r#"<w:p><w:pPr><w:numPr><w:ilvl w:val="0"/><w:numId w:val="2"/></w:numPr></w:pPr><w:r><w:t>Third</w:t></w:r></w:p>"#,
    );
    let doc = wrap_body(&body);
    let data = build_test_docx_with_numbering(&doc, None, None, Some(numbering));
    let converter = DocxConverter;
    let result = converter
        .convert(&data, &ConversionOptions::default())
        .unwrap();
    // First list: 1, 2, 3
    assert!(
        result.markdown.contains("1. Alpha"),
        "markdown was: {}",
        result.markdown
    );
    assert!(
        result.markdown.contains("2. Beta"),
        "markdown was: {}",
        result.markdown
    );
    assert!(
        result.markdown.contains("3. Gamma"),
        "markdown was: {}",
        result.markdown
    );
    // Second list: should restart at 1, not continue at 4
    assert!(
        result.markdown.contains("1. First"),
        "expected '1. First' but markdown was: {}",
        result.markdown
    );
    assert!(
        result.markdown.contains("2. Second"),
        "expected '2. Second' but markdown was: {}",
        result.markdown
    );
    assert!(
        result.markdown.contains("3. Third"),
        "expected '3. Third' but markdown was: {}",
        result.markdown
    );
}

#[test]
fn test_docx_parse_numbering_missing_graceful() {
    // No numbering.xml — numPr should fall back to bullet
    let body = r#"<w:p><w:pPr><w:numPr><w:ilvl w:val="0"/><w:numId w:val="1"/></w:numPr></w:pPr><w:r><w:t>Fallback item</w:t></w:r></w:p>"#;
    let doc = wrap_body(body);
    let data = build_test_docx(&doc, None, None);
    let converter = DocxConverter;
    let result = converter
        .convert(&data, &ConversionOptions::default())
        .unwrap();
    // Falls back to bullet (unordered) when numbering.xml is missing
    assert!(result.markdown.contains("- Fallback item"));
}

// ---- Image tests ----

#[test]
fn test_docx_inline_image() {
    let body = r#"<w:p><w:r><w:drawing><wp:inline><wp:docPr descr=""/><a:graphic><a:graphicData><pic:pic><pic:blipFill><a:blip r:embed="rId2"/></pic:blipFill></pic:pic></a:graphicData></a:graphic></wp:inline></w:drawing></w:r></w:p>"#;
    let doc = wrap_body(body);
    let rels = r#"<?xml version="1.0" encoding="UTF-8"?><Relationships xmlns="http://schemas.openxmlformats.org/package/2006/relationships"><Relationship Id="rId2" Type="http://schemas.openxmlformats.org/officeDocument/2006/relationships/image" Target="media/image1.png"/></Relationships>"#;
    let data = build_test_docx(&doc, None, Some(rels));
    let converter = DocxConverter;
    let result = converter
        .convert(&data, &ConversionOptions::default())
        .unwrap();
    assert!(result.markdown.contains("![](image1.png)"));
}

#[test]
fn test_docx_image_with_alt_text() {
    let body = r#"<w:p><w:r><w:drawing><wp:inline><wp:docPr descr="A nice photo"/><a:graphic><a:graphicData><pic:pic><pic:blipFill><a:blip r:embed="rId2"/></pic:blipFill></pic:pic></a:graphicData></a:graphic></wp:inline></w:drawing></w:r></w:p>"#;
    let doc = wrap_body(body);
    let rels = r#"<?xml version="1.0" encoding="UTF-8"?><Relationships xmlns="http://schemas.openxmlformats.org/package/2006/relationships"><Relationship Id="rId2" Type="http://schemas.openxmlformats.org/officeDocument/2006/relationships/image" Target="media/photo.jpg"/></Relationships>"#;
    let data = build_test_docx(&doc, None, Some(rels));
    let converter = DocxConverter;
    let result = converter
        .convert(&data, &ConversionOptions::default())
        .unwrap();
    assert!(result.markdown.contains("![A nice photo](photo.jpg)"));
}

#[test]
fn test_docx_image_missing_rel_graceful() {
    let body = r#"<w:p><w:r><w:drawing><wp:inline><wp:docPr descr="Missing"/><a:graphic><a:graphicData><pic:pic><pic:blipFill><a:blip r:embed="rId99"/></pic:blipFill></pic:pic></a:graphicData></a:graphic></wp:inline></w:drawing></w:r></w:p>"#;
    let doc = wrap_body(body);
    let data = build_test_docx(&doc, None, None);
    let converter = DocxConverter;
    let result = converter
        .convert(&data, &ConversionOptions::default())
        .unwrap();
    // Image should be skipped with a warning
    assert!(!result.warnings.is_empty());
    assert!(result.warnings[0].message.contains("not found"));
}

// ---- Numbering parser unit tests ----

#[test]
fn test_parse_numbering_bullet() {
    let xml = r#"<?xml version="1.0" encoding="UTF-8"?><w:numbering xmlns:w="http://schemas.openxmlformats.org/wordprocessingml/2006/main"><w:abstractNum w:abstractNumId="0"><w:lvl w:ilvl="0"><w:numFmt w:val="bullet"/></w:lvl></w:abstractNum><w:num w:numId="1"><w:abstractNumId w:val="0"/></w:num></w:numbering>"#;
    let result = parse_numbering(xml);
    assert_eq!(
        numbering_lookup(&result, "1", 0),
        Some(false)
    );
}

#[test]
fn test_parse_numbering_decimal() {
    let xml = r#"<?xml version="1.0" encoding="UTF-8"?><w:numbering xmlns:w="http://schemas.openxmlformats.org/wordprocessingml/2006/main"><w:abstractNum w:abstractNumId="0"><w:lvl w:ilvl="0"><w:numFmt w:val="decimal"/></w:lvl></w:abstractNum><w:num w:numId="1"><w:abstractNumId w:val="0"/></w:num></w:numbering>"#;
    let result = parse_numbering(xml);
    assert_eq!(
        numbering_lookup(&result, "1", 0),
        Some(true)
    );
}

// ---- Resource limit tests ----

#[test]
fn test_docx_zip_budget_exceeded_returns_error() {
    let doc = wrap_body(&para("Hello"));
    let data = build_test_docx(&doc, None, None);
    let converter = DocxConverter;
    // Set budget to 1 byte — any real DOCX will exceed this
    let options = ConversionOptions {
        max_uncompressed_zip_bytes: 1,
        ..Default::default()
    };
    let result = converter.convert(&data, &options);
    assert!(result.is_err());
    let err = result.unwrap_err();
    assert!(
        err.message().contains("input too large"),
        "error was: {err:?}"
    );
}

#[test]
fn test_docx_relationship_type_captured() {
    let rels = r#"<?xml version="1.0" encoding="UTF-8"?><Relationships xmlns="http://schemas.openxmlformats.org/package/2006/relationships"><Relationship Id="rId1" Type="http://schemas.openxmlformats.org/officeDocument/2006/relationships/image" Target="media/image1.png"/><Relationship Id="rId2" Type="http://schemas.openxmlformats.org/officeDocument/2006/relationships/hyperlink" Target="https://example.com" TargetMode="External"/></Relationships>"#;
    let result = parse_relationships(rels);
    assert_eq!(
        result.iter().rev().find(|(k, _)| k == "rId1").map(|(_, r)| r).map(|r| r.rel_type.as_str()),
        Some("http://schemas.openxmlformats.org/officeDocument/2006/relationships/image")
    );
    assert_eq!(
        result.iter().rev().find(|(k, _)| k == "rId2").map(|(_, r)| r).map(|r| r.rel_type.as_str()),
        Some("http://schemas.openxmlformats.org/officeDocument/2006/relationships/hyperlink")
    );
}

// ---- Image extraction tests ----

/// Helper: build a DOCX with an embedded image file.
fn build_test_docx_with_image(
    document_xml: &str,
    rels_xml: &str,
    image_path: &str,
    image_data: &[u8],
) -> Vec<u8> {

    let buf = Vec::new();
    let mut zip = ZipWriter::new(Cursor::new(buf));
    let opts = SimpleFileOptions::default();

    // [Content_Types].xml
    let ct = r#"<?xml version="1.0" encoding="UTF-8" standalone="yes"?><Types xmlns="http://schemas.openxmlformats.org/package/2006/content-types"><Default Extension="rels" ContentType="application/vnd.openxmlformats-package.relationships+xml"/><Default Extension="xml" ContentType="application/xml"/><Default Extension="png" ContentType="image/png"/><Override PartName="/word/document.xml" ContentType="application/vnd.openxmlformats-officedocument.wordprocessingml.document.main+xml"/></Types>"#;
    zip.start_file("[Content_Types].xml", opts).unwrap();
    zip.write_all(ct.as_bytes()).unwrap();

    // _rels/.rels
    zip.start_file("_rels/.rels", opts).unwrap();
    zip.write_all(
        br#"<?xml version="1.0" encoding="UTF-8" standalone="yes"?><Relationships xmlns="http://schemas.openxmlformats.org/package/2006/relationships"><Relationship Id="rId1" Type="http://schemas.openxmlformats.org/officeDocument/2006/relationships/officeDocument" Target="word/document.xml"/></Relationships>"#,
    )
    .unwrap();

    // word/document.xml
    zip.start_file("word/document.xml", opts).unwrap();
    zip.write_all(document_xml.as_bytes()).unwrap();

    // word/_rels/document.xml.rels
    zip.start_file("word/_rels/document.xml.rels", opts)
        .unwrap();
    zip.write_all(rels_xml.as_bytes()).unwrap();

    // Image file
    zip.start_file(image_path, opts).unwrap();
    zip.write_all(image_data).unwrap();

    let cursor = zip.finish().unwrap();
    cursor.into_inner()
}

#[test]
fn test_docx_image_extraction_enabled() {
    let body = r#"<w:p><w:r><w:drawing><wp:inline><wp:docPr descr="Test image"/><a:graphic><a:graphicData><pic:pic><pic:blipFill><a:blip r:embed="rId2"/></pic:blipFill></pic:pic></a:graphicData></a:graphic></wp:inline></w:drawing></w:r></w:p>"#;
    let doc = wrap_body(body);
    let rels = r#"<?xml version="1.0" encoding="UTF-8"?><Relationships xmlns="http://schemas.openxmlformats.org/package/2006/relationships"><Relationship Id="rId2" Type="http://schemas.openxmlformats.org/officeDocument/2006/relationships/image" Target="media/image1.png"/></Relationships>"#;
    let fake_png = b"fake-png-data-for-test";
    let data = build_test_docx_with_image(&doc, rels, "word/media/image1.png", fake_png);

    let converter = DocxConverter;
    let options = ConversionOptions {
        extract_images: true,
        ..Default::default()
    };
    let result = converter.convert(&data, &options).unwrap();
    assert!(!result.images.is_empty(), "expected extracted images");
    assert_eq!(result.images[0].0, "image1.png");
    assert_eq!(result.images[0].1, fake_png);
}

#[test]
fn test_docx_image_extraction_disabled_by_default() {
    let body = r#"<w:p><w:r><w:drawing><wp:inline><wp:docPr descr="Test"/><a:graphic><a:graphicData><pic:pic><pic:blipFill><a:blip r:embed="rId2"/></pic:blipFill></pic:pic></a:graphicData></a:graphic></wp:inline></w:drawing></w:r></w:p>"#;
    let doc = wrap_body(body);
    let rels = r#"<?xml version="1.0" encoding="UTF-8"?><Relationships xmlns="http://schemas.openxmlformats.org/package/2006/relationships"><Relationship Id="rId2" Type="http://schemas.openxmlformats.org/officeDocument/2006/relationships/image" Target="media/image1.png"/></Relationships>"#;
    let fake_png = b"fake-png-data";
    let data = build_test_docx_with_image(&doc, rels, "word/media/image1.png", fake_png);

    let converter = DocxConverter;
    let result = converter
        .convert(&data, &ConversionOptions::default())
        .unwrap();
    assert!(result.images.is_empty());
}

#[test]
fn test_docx_image_extraction_respects_budget() {
    let body = r#"<w:p><w:r><w:drawing><wp:inline><wp:docPr descr="Big"/><a:graphic><a:graphicData><pic:pic><pic:blipFill><a:blip r:embed="rId2"/></pic:blipFill></pic:pic></a:graphicData></a:graphic></wp:inline></w:drawing></w:r></w:p>"#;
    let doc = wrap_body(body);
    let rels = r#"<?xml version="1.0" encoding="UTF-8"?><Relationships xmlns="http://schemas.openxmlformats.org/package/2006/relationships"><Relationship Id="rId2" Type="http://schemas.openxmlformats.org/officeDocument/2006/relationships/image" Target="media/image1.png"/></Relationships>"#;
    let fake_png = vec![0u8; 1024]; // 1 KB image
    let data = build_test_docx_with_image(&doc, rels, "word/media/image1.png", &fake_png);

    let converter = DocxConverter;
    let options = ConversionOptions {
        extract_images: true,
        max_total_image_bytes: 100, // Budget smaller than image
        ..Default::default()
    };
    let result = converter.convert(&data, &options).unwrap();
    // Image should not be extracted (exceeds budget)
    assert!(result.images.is_empty());
    // Should have a ResourceLimitReached warning
    assert!(
        result
            .warnings
            .iter()
            .any(|w| w.code == WarningCode::ResourceLimitReached),
        "expected ResourceLimitReached warning, got: {:?}",
        result.warnings
    );
}

// ---- Image describer tests ----

use std::sync::Arc;
use std::io::Write;
use zip::ZipWriter;
use zip::write::SimpleFileOptions;

struct MockDescriber {
    description: String,
}

impl ImageDescriber for MockDescriber {
    fn describe(
        &self,
        _image_bytes: &[u8],
        _mime_type: &str,
        _prompt: &str,
    ) -> Result<String, ConvertError> {
        Ok(self.description.clone())
    }
}

struct FailingDescriber;

impl ImageDescriber for FailingDescriber {
    fn describe(
        &self,
        _image_bytes: &[u8],
        _mime_type: &str,
        _prompt: &str,
    ) -> Result<String, ConvertError> {
        Err(ConvertError::ImageDescriptionError {
            reason: "API error".to_string(),
        })
    }
}

#[test]
fn test_docx_image_describer_replaces_alt_text() {
    let body = r#"<w:p><w:r><w:drawing><wp:inline><wp:docPr descr=""/><a:graphic><a:graphicData><pic:pic><pic:blipFill><a:blip r:embed="rId2"/></pic:blipFill></pic:pic></a:graphicData></a:graphic></wp:inline></w:drawing></w:r></w:p>"#;
    let doc = wrap_body(body);
    let rels = r#"<?xml version="1.0" encoding="UTF-8"?><Relationships xmlns="http://schemas.openxmlformats.org/package/2006/relationships"><Relationship Id="rId2" Type="http://schemas.openxmlformats.org/officeDocument/2006/relationships/image" Target="media/image1.png"/></Relationships>"#;
    let fake_png = b"fake-png-data";
    let data = build_test_docx_with_image(&doc, rels, "word/media/image1.png", fake_png);

    let converter = DocxConverter;
    let describer = MockDescriber {
            description: "A beautiful sunset over the ocean".to_string(),
        };
    let options = ConversionOptions::default();
    let result = converter
        .convert_with_describer(&data, &options, Some(&describer)).unwrap();
    assert!(
        result
            .markdown
            .contains("![A beautiful sunset over the ocean](image1.png)"),
        "markdown was: {}",
        result.markdown
    );
    // Images should not be in result.images since extract_images is false
    assert!(result.images.is_empty());
}

#[test]
fn test_docx_image_describer_with_extract_images() {
    let body = r#"<w:p><w:r><w:drawing><wp:inline><wp:docPr descr=""/><a:graphic><a:graphicData><pic:pic><pic:blipFill><a:blip r:embed="rId2"/></pic:blipFill></pic:pic></a:graphicData></a:graphic></wp:inline></w:drawing></w:r></w:p>"#;
    let doc = wrap_body(body);
    let rels = r#"<?xml version="1.0" encoding="UTF-8"?><Relationships xmlns="http://schemas.openxmlformats.org/package/2006/relationships"><Relationship Id="rId2" Type="http://schemas.openxmlformats.org/officeDocument/2006/relationships/image" Target="media/image1.png"/></Relationships>"#;
    let fake_png = b"fake-png-data";
    let data = build_test_docx_with_image(&doc, rels, "word/media/image1.png", fake_png);

    let converter = DocxConverter;
    let describer = MockDescriber {
            description: "Described image".to_string(),
        };
    let options = ConversionOptions {
        extract_images: true,
        ..Default::default()
    };
    let result = converter
        .convert_with_describer(&data, &options, Some(&describer)).unwrap();
    assert!(result.markdown.contains("![Described image](image1.png)"));
    assert!(!result.images.is_empty());
}

#[test]
fn test_docx_image_describer_absolute_target_path() {
    let body = r#"<w:p><w:r><w:drawing><wp:inline><wp:docPr descr="Original alt"/><a:graphic><a:graphicData><pic:pic><pic:blipFill><a:blip r:embed="rId2"/></pic:blipFill></pic:pic></a:graphicData></a:graphic></wp:inline></w:drawing></w:r></w:p>"#;
    let doc = wrap_body(body);
    let rels = r#"<?xml version="1.0" encoding="UTF-8"?><Relationships xmlns="http://schemas.openxmlformats.org/package/2006/relationships"><Relationship Id="rId2" Type="http://schemas.openxmlformats.org/officeDocument/2006/relationships/image" Target="/word/media/image1.png"/></Relationships>"#;
    let fake_png = b"fake-png-data";
    let data = build_test_docx_with_image(&doc, rels, "word/media/image1.png", fake_png);

    let converter = DocxConverter;
    let describer = MockDescriber {
            description: "Described image".to_string(),
        };
    let options = ConversionOptions::default();
    let result = converter
        .convert_with_describer(&data, &options, Some(&describer)).unwrap();
    assert!(
        result.markdown.contains("![Described image](image1.png)"),
        "markdown was: {}",
        result.markdown
    );
}

#[test]
fn test_docx_image_describer_dot_slash_target_path() {
    let body = r#"<w:p><w:r><w:drawing><wp:inline><wp:docPr descr="Original alt"/><a:graphic><a:graphicData><pic:pic><pic:blipFill><a:blip r:embed="rId2"/></pic:blipFill></pic:pic></a:graphicData></a:graphic></wp:inline></w:drawing></w:r></w:p>"#;
    let doc = wrap_body(body);
    let rels = r#"<?xml version="1.0" encoding="UTF-8"?><Relationships xmlns="http://schemas.openxmlformats.org/package/2006/relationships"><Relationship Id="rId2" Type="http://schemas.openxmlformats.org/officeDocument/2006/relationships/image" Target="./media/image1.png"/></Relationships>"#;
    let fake_png = b"fake-png-data";
    let data = build_test_docx_with_image(&doc, rels, "word/media/image1.png", fake_png);

    let converter = DocxConverter;
    let describer = MockDescriber {
            description: "Described image".to_string(),
        };
    let options = ConversionOptions::default();
    let result = converter
        .convert_with_describer(&data, &options, Some(&describer)).unwrap();
    assert!(
        result.markdown.contains("![Described image](image1.png)"),
        "markdown was: {}",
        result.markdown
    );
}

/// Helper: build a DOCX with multiple embedded image files.
fn build_test_docx_with_images(
    document_xml: &str,
    rels_xml: &str,
    images: &[(&str, &[u8])], // (zip_path, data)
) -> Vec<u8> {

    let buf = Vec::new();
    let mut zip = ZipWriter::new(Cursor::new(buf));
    let opts = SimpleFileOptions::default();

    let ct = r#"<?xml version="1.0" encoding="UTF-8" standalone="yes"?><Types xmlns="http://schemas.openxmlformats.org/package/2006/content-types"><Default Extension="rels" ContentType="application/vnd.openxmlformats-package.relationships+xml"/><Default Extension="xml" ContentType="application/xml"/><Default Extension="png" ContentType="image/png"/><Override PartName="/word/document.xml" ContentType="application/vnd.openxmlformats-officedocument.wordprocessingml.document.main+xml"/></Types>"#;
    zip.start_file("[Content_Types].xml", opts).unwrap();
    zip.write_all(ct.as_bytes()).unwrap();

    zip.start_file("_rels/.rels", opts).unwrap();
    zip.write_all(
        br#"<?xml version="1.0" encoding="UTF-8" standalone="yes"?><Relationships xmlns="http://schemas.openxmlformats.org/package/2006/relationships"><Relationship Id="rId1" Type="http://schemas.openxmlformats.org/officeDocument/2006/relationships/officeDocument" Target="word/document.xml"/></Relationships>"#,
    ).unwrap();

    zip.start_file("word/document.xml", opts).unwrap();
    zip.write_all(document_xml.as_bytes()).unwrap();

    zip.start_file("word/_rels/document.xml.rels", opts)
        .unwrap();
    zip.write_all(rels_xml.as_bytes()).unwrap();

    for (path, data) in images {
        zip.start_file(*path, opts).unwrap();
        zip.write_all(data).unwrap();
    }

    let cursor = zip.finish().unwrap();
    cursor.into_inner()
}

/// A mock describer that returns descriptions based on the image bytes.
struct MockDescriberByContent;

impl ImageDescriber for MockDescriberByContent {
    fn describe(
        &self,
        image_bytes: &[u8],
        _mime_type: &str,
        _prompt: &str,
    ) -> Result<String, ConvertError> {
        // Return different descriptions based on the content
        let content = String::from_utf8_lossy(image_bytes);
        if content.contains("cat") {
            Ok("A photo of a cat".to_string())
        } else if content.contains("dog") {
            Ok("A photo of a dog".to_string())
        } else {
            Ok("Unknown image".to_string())
        }
    }
}

#[test]
fn test_docx_duplicate_image_filenames_independent_descriptions() {
    // Two images in the same document, both referencing different relationship IDs
    // that point to files with the SAME filename (media/image1.png) but different content.
    // In practice DOCX files with duplicate filenames come from different relationship IDs.
    // Here we use two different rel IDs pointing to different paths (media/img_a.png and
    // media/img_b.png) but the filenames extracted are different. To truly test duplicate
    // filenames, we need the same Target in two rels (which doesn't happen in practice).
    //
    // Instead, test the real scenario: two images with the same filename in the markdown
    // output. We simulate this by having two rels with the same target path.
    let body = format!(
        "{}{}{}",
        r#"<w:p><w:r><w:drawing><wp:inline><wp:docPr descr="First image"/><a:graphic><a:graphicData><pic:pic><pic:blipFill><a:blip r:embed="rId2"/></pic:blipFill></pic:pic></a:graphicData></a:graphic></wp:inline></w:drawing></w:r></w:p>"#,
        para("Text between images"),
        r#"<w:p><w:r><w:drawing><wp:inline><wp:docPr descr="Second image"/><a:graphic><a:graphicData><pic:pic><pic:blipFill><a:blip r:embed="rId3"/></pic:blipFill></pic:pic></a:graphicData></a:graphic></wp:inline></w:drawing></w:r></w:p>"#,
    );
    let doc = wrap_body(&body);
    // Both rels point to the same filename
    let rels = r#"<?xml version="1.0" encoding="UTF-8"?><Relationships xmlns="http://schemas.openxmlformats.org/package/2006/relationships"><Relationship Id="rId2" Type="http://schemas.openxmlformats.org/officeDocument/2006/relationships/image" Target="media/image1.png"/><Relationship Id="rId3" Type="http://schemas.openxmlformats.org/officeDocument/2006/relationships/image" Target="media/image1.png"/></Relationships>"#;
    let fake_png = b"fake-cat-png-data";
    let data = build_test_docx_with_images(&doc, rels, &[("word/media/image1.png", fake_png)]);

    let converter = DocxConverter;
    let describer = MockDescriberByContent;
    let options = ConversionOptions::default();
    let result = converter
        .convert_with_describer(&data, &options, Some(&describer)).unwrap();
    // Both images should have descriptions, and the text between them must be preserved
    let md = &result.markdown;
    assert!(
        md.contains("![A photo of a cat](image1.png)"),
        "expected first image described, markdown was: {}",
        md
    );
    assert!(
        md.contains("Text between images"),
        "expected text between images preserved, markdown was: {}",
        md
    );
    // Count occurrences of the described image — should be exactly 2
    let count = md.matches("![A photo of a cat](image1.png)").count();
    assert_eq!(
        count, 2,
        "expected 2 described images, found {} in: {}",
        count, md
    );
}

#[test]
fn test_docx_duplicate_basenames_different_paths_independent_descriptions() {
    let body = format!(
        "{}{}{}",
        r#"<w:p><w:r><w:drawing><wp:inline><wp:docPr descr="First image"/><a:graphic><a:graphicData><pic:pic><pic:blipFill><a:blip r:embed="rId2"/></pic:blipFill></pic:pic></a:graphicData></a:graphic></wp:inline></w:drawing></w:r></w:p>"#,
        para("Text between images"),
        r#"<w:p><w:r><w:drawing><wp:inline><wp:docPr descr="Second image"/><a:graphic><a:graphicData><pic:pic><pic:blipFill><a:blip r:embed="rId3"/></pic:blipFill></pic:pic></a:graphicData></a:graphic></wp:inline></w:drawing></w:r></w:p>"#,
    );
    let doc = wrap_body(&body);
    let rels = r#"<?xml version="1.0" encoding="UTF-8"?><Relationships xmlns="http://schemas.openxmlformats.org/package/2006/relationships"><Relationship Id="rId2" Type="http://schemas.openxmlformats.org/officeDocument/2006/relationships/image" Target="media/a/image1.png"/><Relationship Id="rId3" Type="http://schemas.openxmlformats.org/officeDocument/2006/relationships/image" Target="media/b/image1.png"/></Relationships>"#;
    let data = build_test_docx_with_images(
        &doc,
        rels,
        &[
            ("word/media/a/image1.png", b"fake-cat-png-data"),
            ("word/media/b/image1.png", b"fake-dog-png-data"),
        ],
    );

    let converter = DocxConverter;
    let describer = MockDescriberByContent;
    let options = ConversionOptions::default();
    let result = converter
        .convert_with_describer(&data, &options, Some(&describer)).unwrap();
    let md = &result.markdown;
    assert!(
        md.contains("![A photo of a cat](image1.png)"),
        "expected cat description, markdown was: {}",
        md
    );
    assert!(
        md.contains("![A photo of a dog](image1.png)"),
        "expected dog description, markdown was: {}",
        md
    );
}

#[test]
fn test_docx_image_describer_error_keeps_original_alt() {
    let body = r#"<w:p><w:r><w:drawing><wp:inline><wp:docPr descr="Original alt"/><a:graphic><a:graphicData><pic:pic><pic:blipFill><a:blip r:embed="rId2"/></pic:blipFill></pic:pic></a:graphicData></a:graphic></wp:inline></w:drawing></w:r></w:p>"#;
    let doc = wrap_body(body);
    let rels = r#"<?xml version="1.0" encoding="UTF-8"?><Relationships xmlns="http://schemas.openxmlformats.org/package/2006/relationships"><Relationship Id="rId2" Type="http://schemas.openxmlformats.org/officeDocument/2006/relationships/image" Target="media/image1.png"/></Relationships>"#;
    let fake_png = b"fake-png-data";
    let data = build_test_docx_with_image(&doc, rels, "word/media/image1.png", fake_png);

    let converter = DocxConverter;
    let describer = FailingDescriber;
    let options = ConversionOptions::default();
    let result = converter
        .convert_with_describer(&data, &options, Some(&describer)).unwrap();
    assert!(
        result.markdown.contains("![Original alt](image1.png)"),
        "markdown was: {}",
        result.markdown
    );
    assert!(
        result
            .warnings
            .iter()
            .any(|w| w.code == WarningCode::SkippedElement
                && w.message.contains("image description failed")),
        "expected SkippedElement warning for image description failure"
    );
}

// ---- Plain text output tests ----

#[test]
fn test_docx_plain_text_paragraphs_and_headings() {
    let body = format!(
        "{}{}{}",
        heading_para("My Title", 1),
        para("Normal paragraph."),
        heading_para("Section", 2),
    );
    let doc = wrap_body(&body);
    let data = build_test_docx(&doc, None, None);
    let converter = DocxConverter;
    let result = converter
        .convert(&data, &ConversionOptions::default())
        .unwrap();
    // Markdown should have # markers
    assert!(result.markdown.contains("# My Title"));
    assert!(result.markdown.contains("## Section"));
    // Plain text: no # markers, just text
    assert!(
        !result.plain_text.contains('#'),
        "plain_text should not contain # heading markers, was: {}",
        result.plain_text
    );
    assert!(
        result.plain_text.contains("My Title"),
        "plain_text should contain heading text, was: {}",
        result.plain_text
    );
    assert!(
        result.plain_text.contains("Normal paragraph."),
        "plain_text should contain paragraph text, was: {}",
        result.plain_text
    );
    assert!(
        result.plain_text.contains("Section"),
        "plain_text should contain second heading text, was: {}",
        result.plain_text
    );
}

#[test]
fn test_docx_plain_text_no_bold_italic_markers() {
    let body = format!(
        "{}{}{}",
        bold_para("Bold text"),
        italic_para("Italic text"),
        bold_italic_para("Both"),
    );
    let doc = wrap_body(&body);
    let data = build_test_docx(&doc, None, None);
    let converter = DocxConverter;
    let result = converter
        .convert(&data, &ConversionOptions::default())
        .unwrap();
    // Markdown has formatting markers
    assert!(result.markdown.contains("**Bold text**"));
    assert!(result.markdown.contains("*Italic text*"));
    assert!(result.markdown.contains("***Both***"));
    // Plain text: no * markers at all
    assert!(
        !result.plain_text.contains('*'),
        "plain_text should not contain * markers, was: {}",
        result.plain_text
    );
    assert!(result.plain_text.contains("Bold text"));
    assert!(result.plain_text.contains("Italic text"));
    assert!(result.plain_text.contains("Both"));
}

#[test]
fn test_docx_plain_text_hyperlink_no_markdown_syntax() {
    let body = r#"<w:p><w:hyperlink r:id="rId1"><w:r><w:t>Example Link</w:t></w:r></w:hyperlink></w:p>"#;
    let doc = wrap_body(body);
    let rels = r#"<?xml version="1.0" encoding="UTF-8"?><Relationships xmlns="http://schemas.openxmlformats.org/package/2006/relationships"><Relationship Id="rId1" Type="http://schemas.openxmlformats.org/officeDocument/2006/relationships/hyperlink" Target="https://example.com" TargetMode="External"/></Relationships>"#;
    let data = build_test_docx(&doc, None, Some(rels));
    let converter = DocxConverter;
    let result = converter
        .convert(&data, &ConversionOptions::default())
        .unwrap();
    // Markdown has link syntax
    assert!(
        result
            .markdown
            .contains("[Example Link](https://example.com)")
    );
    // Plain text: just the text, no brackets or URL
    assert!(
        result.plain_text.contains("Example Link"),
        "plain_text should contain link text, was: {}",
        result.plain_text
    );
    assert!(
        !result.plain_text.contains('['),
        "plain_text should not contain [ bracket, was: {}",
        result.plain_text
    );
    assert!(
        !result.plain_text.contains("https://example.com"),
        "plain_text should not contain URL, was: {}",
        result.plain_text
    );
}

#[test]
fn test_docx_plain_text_table_tab_separated() {
    let body = r#"<w:tbl><w:tr><w:tc><w:p><w:r><w:t>H1</w:t></w:r></w:p></w:tc><w:tc><w:p><w:r><w:t>H2</w:t></w:r></w:p></w:tc></w:tr><w:tr><w:tc><w:p><w:r><w:t>A</w:t></w:r></w:p></w:tc><w:tc><w:p><w:r><w:t>B</w:t></w:r></w:p></w:tc></w:tr></w:tbl>"#;
    let doc = wrap_body(body);
    let data = build_test_docx(&doc, None, None);
    let converter = DocxConverter;
    let result = converter
        .convert(&data, &ConversionOptions::default())
        .unwrap();
    // Markdown has pipe-delimited table
    assert!(result.markdown.contains("| H1 | H2 |"));
    assert!(result.markdown.contains("|---|---|"));
    // Plain text: tab-separated, no pipes or separator row
    assert!(
        result.plain_text.contains("H1\tH2"),
        "plain_text should have tab-separated headers, was: {}",
        result.plain_text
    );
    assert!(
        result.plain_text.contains("A\tB"),
        "plain_text should have tab-separated data, was: {}",
        result.plain_text
    );
    assert!(
        !result.plain_text.contains('|'),
        "plain_text should not contain pipe characters, was: {}",
        result.plain_text
    );
    assert!(
        !result.plain_text.contains("---"),
        "plain_text should not contain separator row, was: {}",
        result.plain_text
    );
}

#[test]
fn test_docx_plain_text_image_no_markdown_syntax() {
    let body = r#"<w:p><w:r><w:drawing><wp:inline><wp:docPr descr="A photo"/><a:graphic><a:graphicData><pic:pic><pic:blipFill><a:blip r:embed="rId2"/></pic:blipFill></pic:pic></a:graphicData></a:graphic></wp:inline></w:drawing></w:r></w:p>"#;
    let doc = wrap_body(body);
    let rels = r#"<?xml version="1.0" encoding="UTF-8"?><Relationships xmlns="http://schemas.openxmlformats.org/package/2006/relationships"><Relationship Id="rId2" Type="http://schemas.openxmlformats.org/officeDocument/2006/relationships/image" Target="media/photo.jpg"/></Relationships>"#;
    let data = build_test_docx(&doc, None, Some(rels));
    let converter = DocxConverter;
    let result = converter
        .convert(&data, &ConversionOptions::default())
        .unwrap();
    // Markdown has image syntax: ![alt](filename)
    assert!(result.markdown.contains("photo.jpg"));
    assert!(result.markdown.contains("!["));
    // Plain text: just the placeholder, no ![] or () syntax
    assert!(
        !result.plain_text.contains("!["),
        "plain_text should not contain ![ image syntax, was: {}",
        result.plain_text
    );
    assert!(
        !result.plain_text.contains("photo.jpg"),
        "plain_text should not contain image filename, was: {}",
        result.plain_text
    );
}

#[test]
fn test_docx_plain_text_list_no_markers() {
    let numbering = r#"<?xml version="1.0" encoding="UTF-8"?><w:numbering xmlns:w="http://schemas.openxmlformats.org/wordprocessingml/2006/main"><w:abstractNum w:abstractNumId="0"><w:lvl w:ilvl="0"><w:numFmt w:val="bullet"/></w:lvl></w:abstractNum><w:num w:numId="1"><w:abstractNumId w:val="0"/></w:num></w:numbering>"#;
    let body = r#"<w:p><w:pPr><w:numPr><w:ilvl w:val="0"/><w:numId w:val="1"/></w:numPr></w:pPr><w:r><w:t>Item 1</w:t></w:r></w:p><w:p><w:pPr><w:numPr><w:ilvl w:val="0"/><w:numId w:val="1"/></w:numPr></w:pPr><w:r><w:t>Item 2</w:t></w:r></w:p>"#;
    let doc = wrap_body(body);
    let data = build_test_docx_with_numbering(&doc, None, None, Some(numbering));
    let converter = DocxConverter;
    let result = converter
        .convert(&data, &ConversionOptions::default())
        .unwrap();
    // Markdown has bullet markers
    assert!(result.markdown.contains("- Item 1"));
    assert!(result.markdown.contains("- Item 2"));
    // Plain text: no bullet markers
    assert!(
        !result.plain_text.contains("- "),
        "plain_text should not contain bullet markers, was: {}",
        result.plain_text
    );
    assert!(result.plain_text.contains("Item 1"));
    assert!(result.plain_text.contains("Item 2"));
}

#[test]
fn test_docx_plain_text_table_bold_cells_no_formatting() {
    // Table with bold text in cells — plain_text should not contain **
    let body = r#"<w:tbl><w:tr><w:tc><w:p><w:r><w:t>Header</w:t></w:r></w:p></w:tc><w:tc><w:p><w:r><w:t>Value</w:t></w:r></w:p></w:tc></w:tr><w:tr><w:tc><w:p><w:r><w:rPr><w:b/></w:rPr><w:t>Bold Cell</w:t></w:r></w:p></w:tc><w:tc><w:p><w:r><w:t>Normal</w:t></w:r></w:p></w:tc></w:tr></w:tbl>"#;
    let doc = wrap_body(body);
    let data = build_test_docx(&doc, None, None);
    let converter = DocxConverter;
    let result = converter
        .convert(&data, &ConversionOptions::default())
        .unwrap();
    // Markdown should have bold markers
    assert!(
        result.markdown.contains("**Bold Cell**"),
        "markdown should contain bold markers, was: {}",
        result.markdown
    );
    // Plain text should NOT have bold markers
    assert!(
        !result.plain_text.contains("**"),
        "plain_text should not contain ** markers, was: {}",
        result.plain_text
    );
    assert!(
        result.plain_text.contains("Bold Cell"),
        "plain_text should contain the cell text"
    );
}

#[test]
fn test_docx_plain_text_table_hyperlink_cells_no_markdown() {
    // Table with hyperlinked text in cells — plain_text should not contain [](url)
    let rels = r#"<?xml version="1.0" encoding="UTF-8"?><Relationships xmlns="http://schemas.openxmlformats.org/package/2006/relationships"><Relationship Id="rId1" Type="http://schemas.openxmlformats.org/officeDocument/2006/relationships/hyperlink" Target="https://example.com" TargetMode="External"/></Relationships>"#;
    let body = r#"<w:tbl><w:tr><w:tc><w:p><w:r><w:t>Name</w:t></w:r></w:p></w:tc></w:tr><w:tr><w:tc><w:p><w:hyperlink r:id="rId1"><w:r><w:t>Click Here</w:t></w:r></w:hyperlink></w:p></w:tc></w:tr></w:tbl>"#;
    let doc = wrap_body(body);
    let data = build_test_docx(&doc, None, Some(rels));
    let converter = DocxConverter;
    let result = converter
        .convert(&data, &ConversionOptions::default())
        .unwrap();
    // Markdown should have link syntax
    assert!(
        result
            .markdown
            .contains("[Click Here](https://example.com)"),
        "markdown should contain link syntax, was: {}",
        result.markdown
    );
    // Plain text should NOT have link syntax
    assert!(
        !result.plain_text.contains('['),
        "plain_text should not contain [ from link syntax, was: {}",
        result.plain_text
    );
    assert!(
        !result.plain_text.contains("https://example.com"),
        "plain_text should not contain URL, was: {}",
        result.plain_text
    );
    assert!(
        result.plain_text.contains("Click Here"),
        "plain_text should contain the link text"
    );
}

#[test]
fn test_docx_title_no_markdown_formatting() {
    // Heading 1 with bold text — title should be plain text, no **
    let body = r#"<w:p><w:pPr><w:pStyle w:val="Heading1"/></w:pPr><w:r><w:rPr><w:b/></w:rPr><w:t>Bold Title</w:t></w:r></w:p>"#;
    let doc = wrap_body(body);
    let data = build_test_docx(&doc, None, None);
    let converter = DocxConverter;
    let result = converter
        .convert(&data, &ConversionOptions::default())
        .unwrap();
    assert_eq!(
        result.title.as_deref(),
        Some("Bold Title"),
        "title should not contain markdown bold markers, was: {:?}",
        result.title
    );
    assert!(
        !result.title.as_deref().unwrap_or("").contains("**"),
        "title must not contain ** markers"
    );
}

#[test]
fn test_docx_title_hyperlink_no_markdown_syntax() {
    // Heading 1 with a hyperlink — title should be plain text, no [](url)
    let rels = r#"<?xml version="1.0" encoding="UTF-8"?><Relationships xmlns="http://schemas.openxmlformats.org/package/2006/relationships"><Relationship Id="rId1" Type="http://schemas.openxmlformats.org/officeDocument/2006/relationships/hyperlink" Target="https://example.com" TargetMode="External"/></Relationships>"#;
    let body = r#"<w:p><w:pPr><w:pStyle w:val="Heading1"/></w:pPr><w:hyperlink r:id="rId1"><w:r><w:t>Linked Title</w:t></w:r></w:hyperlink></w:p>"#;
    let doc = wrap_body(body);
    let data = build_test_docx(&doc, None, Some(rels));
    let converter = DocxConverter;
    let result = converter
        .convert(&data, &ConversionOptions::default())
        .unwrap();
    assert_eq!(
        result.title.as_deref(),
        Some("Linked Title"),
        "title should not contain markdown link syntax, was: {:?}",
        result.title
    );
    assert!(
        !result.title.as_deref().unwrap_or("").contains('['),
        "title must not contain [ from link syntax"
    );
}

// ---- mc:AlternateContent tests ----

#[test]
fn test_docx_alternate_content_fallback_used() {
    // mc:AlternateContent with Choice (DrawingML) and Fallback (VML).
    // Fallback text should appear; Choice text should NOT.
    let body = r#"<mc:AlternateContent><mc:Choice Requires="wps"><w:p><w:r><w:t>Choice text (should be hidden)</w:t></w:r></w:p></mc:Choice><mc:Fallback><w:p><w:r><w:t>Fallback text visible</w:t></w:r></w:p></mc:Fallback></mc:AlternateContent>"#;
    let doc = wrap_body(body);
    let data = build_test_docx(&doc, None, None);
    let converter = DocxConverter;
    let result = converter
        .convert(&data, &ConversionOptions::default())
        .unwrap();
    assert!(
        result.markdown.contains("Fallback text visible"),
        "markdown was: {}",
        result.markdown
    );
    assert!(
        !result.markdown.contains("Choice text"),
        "Choice text should be skipped, markdown was: {}",
        result.markdown
    );
}

#[test]
fn test_docx_alternate_content_choice_skipped() {
    // mc:AlternateContent with only Choice (no Fallback) — nothing should appear
    let body = r#"<w:p><w:r><w:t>Before AC</w:t></w:r></w:p><mc:AlternateContent><mc:Choice Requires="wps"><w:p><w:r><w:t>Hidden</w:t></w:r></w:p></mc:Choice></mc:AlternateContent><w:p><w:r><w:t>After AC</w:t></w:r></w:p>"#;
    let doc = wrap_body(body);
    let data = build_test_docx(&doc, None, None);
    let converter = DocxConverter;
    let result = converter
        .convert(&data, &ConversionOptions::default())
        .unwrap();
    assert!(result.markdown.contains("Before AC"));
    assert!(result.markdown.contains("After AC"));
    assert!(
        !result.markdown.contains("Hidden"),
        "Choice content should be skipped, markdown was: {}",
        result.markdown
    );
}

// ---- Text box tests ----

#[test]
fn test_docx_textbox_basic() {
    // Simple text box: w:pict > v:shape > v:textbox > w:txbxContent > w:p
    let body = r#"<w:p><w:r><w:pict><v:shape><v:textbox><w:txbxContent><w:p><w:r><w:t>Text box content</w:t></w:r></w:p></w:txbxContent></v:textbox></v:shape></w:pict></w:r></w:p>"#;
    let doc = wrap_body(body);
    let data = build_test_docx(&doc, None, None);
    let converter = DocxConverter;
    let result = converter
        .convert(&data, &ConversionOptions::default())
        .unwrap();
    assert!(
        result.markdown.contains("Text box content"),
        "markdown was: {}",
        result.markdown
    );
}

#[test]
fn test_docx_textbox_with_formatting() {
    // Bold and italic text inside a text box
    let body = r#"<w:p><w:r><w:pict><v:shape><v:textbox><w:txbxContent><w:p><w:r><w:rPr><w:b/></w:rPr><w:t>Bold in box</w:t></w:r></w:p></w:txbxContent></v:textbox></v:shape></w:pict></w:r></w:p>"#;
    let doc = wrap_body(body);
    let data = build_test_docx(&doc, None, None);
    let converter = DocxConverter;
    let result = converter
        .convert(&data, &ConversionOptions::default())
        .unwrap();
    assert!(
        result.markdown.contains("**Bold in box**"),
        "markdown was: {}",
        result.markdown
    );
}

#[test]
fn test_docx_textbox_multiple_paragraphs() {
    // Two paragraphs inside one text box
    let body = r#"<w:p><w:r><w:pict><v:shape><v:textbox><w:txbxContent><w:p><w:r><w:t>First TB para</w:t></w:r></w:p><w:p><w:r><w:t>Second TB para</w:t></w:r></w:p></w:txbxContent></v:textbox></v:shape></w:pict></w:r></w:p>"#;
    let doc = wrap_body(body);
    let data = build_test_docx(&doc, None, None);
    let converter = DocxConverter;
    let result = converter
        .convert(&data, &ConversionOptions::default())
        .unwrap();
    assert!(
        result.markdown.contains("First TB para"),
        "markdown was: {}",
        result.markdown
    );
    assert!(
        result.markdown.contains("Second TB para"),
        "markdown was: {}",
        result.markdown
    );
}

#[test]
fn test_docx_textbox_via_alternate_content() {
    // Full mc:AlternateContent > Fallback > w:pict > v:shape > v:textbox path
    let body = r#"<mc:AlternateContent><mc:Choice Requires="wps"><w:p><w:r><w:t>DrawingML choice</w:t></w:r></w:p></mc:Choice><mc:Fallback><w:p><w:r><w:pict><v:shape><v:textbox><w:txbxContent><w:p><w:r><w:t>VML text box</w:t></w:r></w:p></w:txbxContent></v:textbox></v:shape></w:pict></w:r></w:p></mc:Fallback></mc:AlternateContent>"#;
    let doc = wrap_body(body);
    let data = build_test_docx(&doc, None, None);
    let converter = DocxConverter;
    let result = converter
        .convert(&data, &ConversionOptions::default())
        .unwrap();
    assert!(
        result.markdown.contains("VML text box"),
        "markdown was: {}",
        result.markdown
    );
    assert!(
        !result.markdown.contains("DrawingML choice"),
        "Choice content should be hidden, markdown was: {}",
        result.markdown
    );
}

#[test]
fn test_docx_textbox_between_paragraphs() {
    // Text box surrounded by normal paragraphs — verify document flow
    let body = format!(
        "{}{}{}",
        para("Before text box."),
        r#"<w:p><w:r><w:pict><v:shape><v:textbox><w:txbxContent><w:p><w:r><w:t>Inside box</w:t></w:r></w:p></w:txbxContent></v:textbox></v:shape></w:pict></w:r></w:p>"#,
        para("After text box.")
    );
    let doc = wrap_body(&body);
    let data = build_test_docx(&doc, None, None);
    let converter = DocxConverter;
    let result = converter
        .convert(&data, &ConversionOptions::default())
        .unwrap();
    assert!(
        result.markdown.contains("Before text box."),
        "markdown was: {}",
        result.markdown
    );
    assert!(
        result.markdown.contains("Inside box"),
        "markdown was: {}",
        result.markdown
    );
    assert!(
        result.markdown.contains("After text box."),
        "markdown was: {}",
        result.markdown
    );
}

#[test]
fn test_docx_textbox_unicode() {
    // CJK and emoji in text box
    let body = r#"<w:p><w:r><w:pict><v:shape><v:textbox><w:txbxContent><w:p><w:r><w:t>한국어 🚀 中文</w:t></w:r></w:p></w:txbxContent></v:textbox></v:shape></w:pict></w:r></w:p>"#;
    let doc = wrap_body(body);
    let data = build_test_docx(&doc, None, None);
    let converter = DocxConverter;
    let result = converter
        .convert(&data, &ConversionOptions::default())
        .unwrap();
    assert!(result.markdown.contains("한국어"));
    assert!(result.markdown.contains("🚀"));
    assert!(result.markdown.contains("中文"));
}

#[test]
fn test_docx_textbox_empty() {
    // Empty text box — should not crash or produce garbage output
    let body = r#"<w:p><w:r><w:pict><v:shape><v:textbox><w:txbxContent></w:txbxContent></v:textbox></v:shape></w:pict></w:r></w:p>"#;
    let doc = wrap_body(body);
    let data = build_test_docx(&doc, None, None);
    let converter = DocxConverter;
    let result = converter
        .convert(&data, &ConversionOptions::default())
        .unwrap();
    // Should not contain any text from the empty text box
    assert!(
        result.markdown.trim().is_empty(),
        "expected empty output, got: {}",
        result.markdown
    );
}

// ---- Comment extraction tests ----

/// Build a DOCX with an arbitrary set of extra parts (e.g. comments.xml,
/// headers, footnotes) in addition to document.xml.
fn build_test_docx_with_parts(document_xml: &str, extra_parts: &[(&str, &str)]) -> Vec<u8> {
    let byte_parts: Vec<(&str, Vec<u8>)> = extra_parts
        .iter()
        .map(|(p, c)| (*p, c.as_bytes().to_vec()))
        .collect();
    let refs: Vec<(&str, &[u8])> = byte_parts.iter().map(|(p, c)| (*p, c.as_slice())).collect();
    build_test_docx_with_parts_bytes(document_xml, &refs)
}

/// Like `build_test_docx_with_parts`, but extra parts are raw bytes (so a
/// part can contain invalid UTF-8 for best-effort/lenient-decode tests).
fn build_test_docx_with_parts_bytes(
    document_xml: &str,
    extra_parts: &[(&str, &[u8])],
) -> Vec<u8> {

    let buf = Vec::new();
    let mut zip = ZipWriter::new(Cursor::new(buf));
    let opts = SimpleFileOptions::default();

    let ct = r#"<?xml version="1.0" encoding="UTF-8" standalone="yes"?><Types xmlns="http://schemas.openxmlformats.org/package/2006/content-types"><Default Extension="rels" ContentType="application/vnd.openxmlformats-package.relationships+xml"/><Default Extension="xml" ContentType="application/xml"/><Override PartName="/word/document.xml" ContentType="application/vnd.openxmlformats-officedocument.wordprocessingml.document.main+xml"/></Types>"#;
    zip.start_file("[Content_Types].xml", opts).unwrap();
    zip.write_all(ct.as_bytes()).unwrap();

    zip.start_file("_rels/.rels", opts).unwrap();
    zip.write_all(
        br#"<?xml version="1.0" encoding="UTF-8" standalone="yes"?><Relationships xmlns="http://schemas.openxmlformats.org/package/2006/relationships"><Relationship Id="rId1" Type="http://schemas.openxmlformats.org/officeDocument/2006/relationships/officeDocument" Target="word/document.xml"/></Relationships>"#,
    )
    .unwrap();

    zip.start_file("word/document.xml", opts).unwrap();
    zip.write_all(document_xml.as_bytes()).unwrap();

    for (path, content) in extra_parts {
        zip.start_file(*path, opts).unwrap();
        zip.write_all(content).unwrap();
    }

    let cursor = zip.finish().unwrap();
    cursor.into_inner()
}

/// Build a minimal `word/comments.xml` from (id, author, date, body) tuples.
/// Each comment's single paragraph carries a `w14:paraId` equal to `pid_<id>`.
fn comments_xml(entries: &[(&str, &str, &str, &str)]) -> String {
    let mut s = String::from(
        r#"<?xml version="1.0" encoding="UTF-8" standalone="yes"?><w:comments xmlns:w="http://schemas.openxmlformats.org/wordprocessingml/2006/main" xmlns:w14="http://schemas.microsoft.com/office/word/2010/wordml">"#,
    );
    for (id, author, date, body) in entries {
        s.push_str(&format!(
            r#"<w:comment w:id="{id}" w:author="{author}" w:date="{date}"><w:p w14:paraId="pid_{id}"><w:r><w:t xml:space="preserve">{body}</w:t></w:r></w:p></w:comment>"#
        ));
    }
    s.push_str("</w:comments>");
    s
}

// -- unit: parse_comments_xml --

#[test]
fn test_parse_comments_xml_basic() {
    let xml = comments_xml(&[(
        "1",
        "Jane Smith",
        "2024-01-15T09:30:00Z",
        "Please revise this.",
    )]);
    let parsed = parse_comments_xml(&xml);
    let c = comment(&parsed, "1").expect("comment 1");
    assert_eq!(c.author, "Jane Smith");
    assert_eq!(c.date, "2024-01-15T09:30:00Z");
    assert_eq!(c.body, "Please revise this.");
    assert_eq!(c.para_id.as_deref(), Some("pid_1"));
}

#[test]
fn test_parse_comments_xml_no_author_empty() {
    let xml = r#"<?xml version="1.0"?><w:comments xmlns:w="http://schemas.openxmlformats.org/wordprocessingml/2006/main"><w:comment w:id="3"><w:p><w:r><w:t>Body</w:t></w:r></w:p></w:comment></w:comments>"#;
    let parsed = parse_comments_xml(xml);
    let c = comment(&parsed, "3").expect("comment 3");
    assert_eq!(c.author, "");
    assert_eq!(c.body, "Body");
}

#[test]
fn test_parse_comments_xml_multi_paragraph_joined() {
    let xml = r#"<?xml version="1.0"?><w:comments xmlns:w="http://schemas.openxmlformats.org/wordprocessingml/2006/main"><w:comment w:id="1" w:author="A"><w:p><w:r><w:t>Line one</w:t></w:r></w:p><w:p><w:r><w:t>Line two</w:t></w:r></w:p></w:comment></w:comments>"#;
    let parsed = parse_comments_xml(xml);
    // Paragraphs separated by newline (collapsed downstream).
    assert_eq!(comment(&parsed, "1").unwrap().body, "Line one\nLine two");
}

// -- unit: parse_comments_extended --

#[test]
fn test_parse_comments_extended_replies() {
    let xml = r#"<?xml version="1.0"?><w15:commentsEx xmlns:w15="http://schemas.microsoft.com/office/word/2012/wordml"><w15:commentEx w15:paraId="pid_1" w15:done="0"/><w15:commentEx w15:paraId="pid_2" w15:paraIdParent="pid_1" w15:done="0"/></w15:commentsEx>"#;
    let replies = replies_of(xml);
    assert!(replies.contains("pid_2"));
    assert!(!replies.contains("pid_1"));
}

// -- unit: collect_ranges_in_part --

#[test]
fn test_collect_ranges_basic_and_order() {
    let body = wrap_body(
        r#"<w:p><w:commentRangeStart w:id="2"/><w:r><w:t>second anchor</w:t></w:r><w:commentRangeEnd w:id="2"/><w:r><w:commentReference w:id="2"/></w:r></w:p><w:p><w:commentRangeStart w:id="1"/><w:r><w:t>first by id</w:t></w:r><w:commentRangeEnd w:id="1"/><w:r><w:commentReference w:id="1"/></w:r></w:p>"#,
    );
    let (order, text) = ranges(&body);
    // Order is by appearance: id 2 appears before id 1.
    assert_eq!(order, vec!["2".to_string(), "1".to_string()]);
    assert_eq!(text.get("2").map(|s| s.as_str()), Some("second anchor"));
    assert_eq!(text.get("1").map(|s| s.as_str()), Some("first by id"));
}

#[test]
fn test_collect_ranges_zero_length_empty() {
    let body = wrap_body(
        r#"<w:p><w:commentRangeStart w:id="1"/><w:commentRangeEnd w:id="1"/><w:r><w:commentReference w:id="1"/></w:r></w:p>"#,
    );
    let (order, text) = ranges(&body);
    assert_eq!(order, vec!["1".to_string()]);
    // Zero-length range -> no captured text.
    assert!(text.get("1").map(|s| s.is_empty()).unwrap_or(true));
}

#[test]
fn test_collect_ranges_skips_mc_choice() {
    // The range spans an mc:AlternateContent; Choice text must be excluded.
    let body = wrap_body(
        r#"<w:p><w:commentRangeStart w:id="1"/><mc:AlternateContent><mc:Choice Requires="wps"><w:r><w:t>CHOICE</w:t></w:r></mc:Choice><mc:Fallback><w:r><w:t>FALLBACK</w:t></w:r></mc:Fallback></mc:AlternateContent><w:commentRangeEnd w:id="1"/><w:r><w:commentReference w:id="1"/></w:r></w:p>"#,
    );
    let (_order, text) = ranges(&body);
    let captured = text.get("1").cloned().unwrap_or_default();
    assert!(captured.contains("FALLBACK"), "got: {captured}");
    assert!(!captured.contains("CHOICE"), "got: {captured}");
}

// -- integration --

/// A document body with one commented range on id 1.
fn body_with_comment_1() -> String {
    wrap_body(
        r#"<w:p><w:r><w:t xml:space="preserve">Intro paragraph. </w:t></w:r><w:commentRangeStart w:id="1"/><w:r><w:t>the quick brown fox</w:t></w:r><w:commentRangeEnd w:id="1"/><w:r><w:commentReference w:id="1"/></w:r></w:p>"#,
    )
}

#[test]
fn test_docx_comments_end_to_end() {
    let doc = body_with_comment_1();
    let cx = comments_xml(&[(
        "1",
        "Jane Smith",
        "2024-01-15T09:30:00Z",
        "Please revise this.",
    )]);
    let data = build_test_docx_with_parts(&doc, &[("word/comments.xml", &cx)]);
    let options = ConversionOptions {
        extract_comments: true,
        ..Default::default()
    };
    let result = DocxConverter.convert(&data, &options).unwrap();
    assert!(
        result.markdown.contains("# Comments"),
        "md: {}",
        result.markdown
    );
    assert!(result.markdown.contains("## 1"));
    assert!(
        result
            .markdown
            .contains("- **author**: Jane Smith (2024-01-15T09:30:00Z)")
    );
    assert!(
        result
            .markdown
            .contains("- **comment**: Please revise this.")
    );
    assert!(
        result
            .markdown
            .contains("- **source**: the quick brown fox")
    );
    // Body content is preserved above the section.
    assert!(result.markdown.contains("Intro paragraph."));
    let body_pos = result.markdown.find("Intro paragraph.").unwrap();
    let cmt_pos = result.markdown.find("# Comments").unwrap();
    assert!(body_pos < cmt_pos, "comments must be appended at the end");
}

#[test]
fn test_docx_comments_absent_when_flag_off() {
    let doc = body_with_comment_1();
    let cx = comments_xml(&[("1", "Jane", "2024-01-15T09:30:00Z", "Hi")]);
    let data = build_test_docx_with_parts(&doc, &[("word/comments.xml", &cx)]);
    // Default options: extract_comments = false.
    let result = DocxConverter
        .convert(&data, &ConversionOptions::default())
        .unwrap();
    assert!(!result.markdown.contains("# Comments"));
    assert!(!result.plain_text.contains("Comments"));
}

#[test]
fn test_docx_comments_plain_text_stripped() {
    let doc = body_with_comment_1();
    let cx = comments_xml(&[("1", "Jane Smith", "2024-01-15T09:30:00Z", "Revise.")]);
    let data = build_test_docx_with_parts(&doc, &[("word/comments.xml", &cx)]);
    let options = ConversionOptions {
        extract_comments: true,
        ..Default::default()
    };
    let result = DocxConverter.convert(&data, &options).unwrap();
    assert!(result.plain_text.contains("Comments\n"));
    assert!(
        result
            .plain_text
            .contains("author: Jane Smith (2024-01-15T09:30:00Z)")
    );
    assert!(result.plain_text.contains("comment: Revise."));
    assert!(result.plain_text.contains("source: the quick brown fox"));
    // No markdown markers in the appended plain-text section.
    assert!(!result.plain_text.contains("**"));
    assert!(!result.plain_text.contains("# Comments"));
}

#[test]
fn test_docx_comments_unknown_author() {
    let doc = body_with_comment_1();
    // No author attribute on the comment.
    let cx = r#"<?xml version="1.0"?><w:comments xmlns:w="http://schemas.openxmlformats.org/wordprocessingml/2006/main"><w:comment w:id="1"><w:p><w:r><w:t>Anonymous note</w:t></w:r></w:p></w:comment></w:comments>"#;
    let data = build_test_docx_with_parts(&doc, &[("word/comments.xml", cx)]);
    let options = ConversionOptions {
        extract_comments: true,
        ..Default::default()
    };
    let result = DocxConverter.convert(&data, &options).unwrap();
    assert!(
        result.markdown.contains("- **author**: Unknown"),
        "md: {}",
        result.markdown
    );
}

#[test]
fn test_docx_comments_reply_marked() {
    let doc = wrap_body(
        r#"<w:p><w:commentRangeStart w:id="1"/><w:r><w:t>anchor text</w:t></w:r><w:commentRangeEnd w:id="1"/><w:r><w:commentReference w:id="1"/></w:r><w:commentRangeStart w:id="2"/><w:r><w:t>more</w:t></w:r><w:commentRangeEnd w:id="2"/><w:r><w:commentReference w:id="2"/></w:r></w:p>"#,
    );
    let cx = comments_xml(&[
        ("1", "Alice", "2024-01-01T00:00:00Z", "Top level"),
        ("2", "Bob", "2024-01-02T00:00:00Z", "Agreed"),
    ]);
    // comment 2 (paraId pid_2) is a reply to comment 1 (pid_1).
    let cex = r#"<?xml version="1.0"?><w15:commentsEx xmlns:w15="http://schemas.microsoft.com/office/word/2012/wordml"><w15:commentEx w15:paraId="pid_1"/><w15:commentEx w15:paraId="pid_2" w15:paraIdParent="pid_1"/></w15:commentsEx>"#;
    let data = build_test_docx_with_parts(
        &doc,
        &[
            ("word/comments.xml", &cx),
            ("word/commentsExtended.xml", cex),
        ],
    );
    let options = ConversionOptions {
        extract_comments: true,
        ..Default::default()
    };
    let result = DocxConverter.convert(&data, &options).unwrap();
    assert!(result.markdown.contains("- **comment**: Top level"));
    assert!(
        result.markdown.contains("- **comment**: (reply) Agreed"),
        "reply not marked, md: {}",
        result.markdown
    );
}

#[test]
fn test_docx_comments_source_capped_at_200() {
    let long = "x".repeat(300);
    let doc = wrap_body(&format!(
        r#"<w:p><w:commentRangeStart w:id="1"/><w:r><w:t>{long}</w:t></w:r><w:commentRangeEnd w:id="1"/><w:r><w:commentReference w:id="1"/></w:r></w:p>"#
    ));
    let cx = comments_xml(&[("1", "A", "2024-01-01T00:00:00Z", "note")]);
    let data = build_test_docx_with_parts(&doc, &[("word/comments.xml", &cx)]);
    let options = ConversionOptions {
        extract_comments: true,
        ..Default::default()
    };
    let result = DocxConverter.convert(&data, &options).unwrap();
    // The source line is capped to 200 x's + ellipsis (the full 300-char run
    // still appears in the body paragraph, so we check the source line only).
    let expected = format!("- **source**: {}…", "x".repeat(200));
    assert!(
        result.markdown.contains(&expected),
        "md: {}",
        result.markdown
    );
    let source_line = result
        .markdown
        .lines()
        .find(|l| l.starts_with("- **source**:"))
        .expect("source line");
    // 200 x's capped: line is "- **source**: " + 200 x + "…".
    assert_eq!(source_line.matches('x').count(), 200, "line: {source_line}");
}

#[test]
fn test_docx_comments_orphan_listed_last() {
    // Comment 1 is anchored; comment 9 has no range anywhere (orphan).
    let doc = body_with_comment_1();
    let cx = comments_xml(&[
        ("1", "Anchored", "2024-01-01T00:00:00Z", "Has anchor"),
        ("9", "Orphan", "2024-01-02T00:00:00Z", "No anchor"),
    ]);
    let data = build_test_docx_with_parts(&doc, &[("word/comments.xml", &cx)]);
    let options = ConversionOptions {
        extract_comments: true,
        ..Default::default()
    };
    let result = DocxConverter.convert(&data, &options).unwrap();
    let anchored = result.markdown.find("Has anchor").unwrap();
    let orphan = result.markdown.find("No anchor").unwrap();
    assert!(
        anchored < orphan,
        "orphan must come last, md: {}",
        result.markdown
    );
    // Orphan's source is empty.
    assert!(
        result
            .markdown
            .contains("- **comment**: No anchor\n- **source**: \n")
    );
}

#[test]
fn test_docx_comments_header_anchor_after_body() {
    // Comment 1 anchored in body, comment 2 anchored only in a header.
    let doc = wrap_body(
        r#"<w:p><w:commentRangeStart w:id="1"/><w:r><w:t>body anchor</w:t></w:r><w:commentRangeEnd w:id="1"/><w:r><w:commentReference w:id="1"/></w:r></w:p>"#,
    );
    let header = wrap_body(
        r#"<w:p><w:commentRangeStart w:id="2"/><w:r><w:t>header anchor</w:t></w:r><w:commentRangeEnd w:id="2"/><w:r><w:commentReference w:id="2"/></w:r></w:p>"#,
    );
    let cx = comments_xml(&[
        ("1", "BodyAuthor", "2024-01-01T00:00:00Z", "Body comment"),
        (
            "2",
            "HeaderAuthor",
            "2024-01-02T00:00:00Z",
            "Header comment",
        ),
    ]);
    let data = build_test_docx_with_parts(
        &doc,
        &[("word/comments.xml", &cx), ("word/header1.xml", &header)],
    );
    let options = ConversionOptions {
        extract_comments: true,
        ..Default::default()
    };
    let result = DocxConverter.convert(&data, &options).unwrap();
    let body_c = result.markdown.find("Body comment").unwrap();
    let header_c = result.markdown.find("Header comment").unwrap();
    assert!(
        body_c < header_c,
        "body comment must precede header comment"
    );
    assert!(result.markdown.contains("- **source**: header anchor"));
}

#[test]
fn test_docx_comments_unknown_range_id_warns() {
    // Body references comment id 5, but comments.xml only has id 1.
    let doc = wrap_body(
        r#"<w:p><w:commentRangeStart w:id="5"/><w:r><w:t>x</w:t></w:r><w:commentRangeEnd w:id="5"/><w:r><w:commentReference w:id="5"/></w:r></w:p>"#,
    );
    let cx = comments_xml(&[("1", "A", "2024-01-01T00:00:00Z", "real")]);
    let data = build_test_docx_with_parts(&doc, &[("word/comments.xml", &cx)]);
    let options = ConversionOptions {
        extract_comments: true,
        ..Default::default()
    };
    let result = DocxConverter.convert(&data, &options).unwrap();
    assert!(
        result
            .warnings
            .iter()
            .any(|w| w.code == WarningCode::MalformedSegment
                && w.message.contains("unknown comment id")),
        "expected malformed-segment warning, warnings: {:?}",
        result.warnings
    );
    // Comment 1 is an orphan but still emitted.
    assert!(result.markdown.contains("- **comment**: real"));
}

#[test]
fn test_docx_comments_none_present_no_section() {
    // extract_comments on, but the document has no comments.xml.
    let doc = wrap_body(&para("Just text."));
    let data = build_test_docx_with_parts(&doc, &[]);
    let options = ConversionOptions {
        extract_comments: true,
        ..Default::default()
    };
    let result = DocxConverter.convert(&data, &options).unwrap();
    assert!(!result.markdown.contains("# Comments"));
}

// ---- Regression tests for review findings ----

fn extract_opts() -> ConversionOptions {
    ConversionOptions {
        extract_comments: true,
        ..Default::default()
    }
}

#[test]
fn test_parse_comments_xml_self_closing_t_no_leak() {
    // Finding 5: a self-closing <w:t/> (Empty event) must not leave in_text
    // stuck true and capture stray text from later in the same comment.
    let cx = r#"<?xml version="1.0"?><w:comments xmlns:w="http://schemas.openxmlformats.org/wordprocessingml/2006/main"><w:comment w:id="1" w:author="A"><w:p><w:r><w:t/></w:r><w:r><w:t>real</w:t></w:r></w:p></w:comment></w:comments>"#;
    let parsed = parse_comments_xml(cx);
    assert_eq!(comment(&parsed, "1").unwrap().body, "real");
}

#[test]
fn test_parse_comments_xml_unescapes_author() {
    // Finding 8: author/date attributes must be XML-unescaped.
    let cx = r#"<?xml version="1.0"?><w:comments xmlns:w="http://schemas.openxmlformats.org/wordprocessingml/2006/main"><w:comment w:id="1" w:author="R&amp;D &lt;Team&gt;"><w:p><w:r><w:t>x</w:t></w:r></w:p></w:comment></w:comments>"#;
    let parsed = parse_comments_xml(cx);
    assert_eq!(comment(&parsed, "1").unwrap().author, "R&D <Team>");
}

#[test]
fn test_parse_comments_xml_para_id_ignores_table_cells() {
    // Finding 9: w14:paraId must come from the last TOP-LEVEL paragraph, not
    // a nested table-cell paragraph.
    let cx = r#"<?xml version="1.0"?><w:comments xmlns:w="http://schemas.openxmlformats.org/wordprocessingml/2006/main" xmlns:w14="http://schemas.microsoft.com/office/word/2010/wordml"><w:comment w:id="1" w:author="A"><w:p w14:paraId="TOP">text</w:p><w:tbl><w:tr><w:tc><w:p w14:paraId="CELL"><w:r><w:t>cell</w:t></w:r></w:p></w:tc></w:tr></w:tbl></w:comment></w:comments>"#;
    let parsed = parse_comments_xml(cx);
    assert_eq!(comment(&parsed, "1").unwrap().para_id.as_deref(), Some("TOP"));
}

#[test]
fn test_collect_ranges_end_inside_mc_choice_closes() {
    // Findings 1/3: a commentRangeEnd buried in a skipped mc:Choice must still
    // close the range, so later text does not leak into the source.
    let body = wrap_body(
        r#"<w:p><w:commentRangeStart w:id="1"/><w:r><w:t>anchor</w:t></w:r><mc:AlternateContent><mc:Choice Requires="wps"><w:commentRangeEnd w:id="1"/></mc:Choice><mc:Fallback><w:r><w:t>fb</w:t></w:r></mc:Fallback></mc:AlternateContent><w:r><w:commentReference w:id="1"/></w:r></w:p><w:p><w:r><w:t>UNRELATED LATER TEXT</w:t></w:r></w:p>"#,
    );
    let (_order, text) = ranges(&body);
    let src = text.get("1").cloned().unwrap_or_default();
    assert!(src.contains("anchor"), "src: {src}");
    assert!(
        !src.contains("UNRELATED"),
        "range leaked past its end: {src}"
    );
}

#[test]
fn test_collect_ranges_unclosed_range_is_bounded() {
    // Finding 1: a range with no commentRangeEnd at all must not absorb an
    // unbounded amount of the part (bounded to SOURCE_CAP*4 bytes).
    let huge = "x".repeat(5000);
    let body = wrap_body(&format!(
        r#"<w:p><w:commentRangeStart w:id="1"/><w:r><w:t>anchor</w:t></w:r><w:r><w:commentReference w:id="1"/></w:r></w:p><w:p><w:r><w:t>{huge}</w:t></w:r></w:p>"#
    ));
    let (_order, text) = ranges(&body);
    let src = text.get("1").cloned().unwrap_or_default();
    // Bounded well under the 5000-char tail (cap is SOURCE_CAP*4 = 800 bytes).
    assert!(
        src.len() <= SOURCE_CAP * 4 + 16,
        "unbounded: {} bytes",
        src.len()
    );
}

#[test]
fn test_collect_ranges_ignores_loose_text_outside_run() {
    // Finding 6: text outside a <w:r> is not rendered in the body, so it must
    // not appear in the commented-on source either.
    let body = wrap_body(
        r#"<w:p><w:commentRangeStart w:id="1"/><w:t>loose no run</w:t><w:r><w:t>real</w:t></w:r><w:commentRangeEnd w:id="1"/><w:r><w:commentReference w:id="1"/></w:r></w:p>"#,
    );
    let (_order, text) = ranges(&body);
    let src = text.get("1").cloned().unwrap_or_default();
    assert_eq!(
        src, "real",
        "loose text outside a run leaked into source: {src}"
    );
}

#[test]
fn test_docx_comments_author_entity_end_to_end() {
    // Finding 8 end-to-end: "R&D" renders as R&D, not R&amp;D.
    let doc = body_with_comment_1();
    let cx = comments_xml(&[("1", "R&amp;D Team", "2024-01-01T00:00:00Z", "note")]);
    let data = build_test_docx_with_parts(&doc, &[("word/comments.xml", &cx)]);
    let result = DocxConverter.convert(&data, &extract_opts()).unwrap();
    assert!(
        result.markdown.contains("- **author**: R&D Team"),
        "md: {}",
        result.markdown
    );
    assert!(!result.markdown.contains("R&amp;D"));
}

#[test]
fn test_docx_comments_malformed_part_does_not_abort() {
    // Finding 4: a non-UTF-8 comments.xml must not abort conversion; the body
    // still converts (best-effort).
    let doc = wrap_body(&para("Body survives."));
    // comments.xml referencing valid structure but with an invalid byte.
    let mut cx = comments_xml(&[("1", "A", "2024-01-01T00:00:00Z", "ok")]).into_bytes();
    cx.push(0xFF); // invalid UTF-8 trailing byte
    let data = build_test_docx_with_parts_bytes(&doc, &[("word/comments.xml", &cx)]);
    let result = DocxConverter.convert(&data, &extract_opts()).unwrap();
    assert!(result.markdown.contains("Body survives."));
    // Lossy decode still recovers the well-formed comment.
    assert!(result.markdown.contains("# Comments"));
}
