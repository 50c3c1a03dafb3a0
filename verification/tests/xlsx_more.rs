use anytomd::converter::xlsx::{col_letter, format_cell, parse_drawing_blips, CellValue, XlsxConverter};
use anytomd::converter::ooxml_utils::{derive_rels_path, parse_relationships, resolve_relative_path};
use anytomd::converter::{ConversionOptions, Converter, ImageDescriber, WarningCode};
use anytomd::error::ConvertError;
use std::io::Cursor;

// -- Helper: build minimal XLSX bytes from sheet definitions --

/// Cell value for test XLSX generation.
enum TestCell {
    Str(&'static str),
    Num(f64),
    Bool(bool),
    Empty,
}

/// Convert a 0-based column index to an Excel column letter (A-Z) for test XML.
fn test_col_letter(col: usize) -> char {
    (b'A' + col as u8) as char
}

/// Build a minimal XLSX file in memory from the given sheet definitions.
fn build_test_xlsx(sheets: &[(&str, &[&[TestCell]])]) -> Vec<u8> {

    let buf = Vec::new();
    let mut zip = ZipWriter::new(Cursor::new(buf));
    let opts = SimpleFileOptions::default();

    // [Content_Types].xml
    let mut ct = String::from(
        "<?xml version=\"1.0\" encoding=\"UTF-8\" standalone=\"yes\"?>\
         <Types xmlns=\"http://schemas.openxmlformats.org/package/2006/content-types\">\
         <Default Extension=\"rels\" ContentType=\"application/vnd.openxmlformats-package.relationships+xml\"/>\
         <Default Extension=\"xml\" ContentType=\"application/xml\"/>\
         <Override PartName=\"/xl/workbook.xml\" ContentType=\"application/vnd.openxmlformats-officedocument.spreadsheetml.sheet.main+xml\"/>",
    );
    for (i, _) in sheets.iter().enumerate() {
        ct.push_str(&format!(
            "<Override PartName=\"/xl/worksheets/sheet{}.xml\" \
             ContentType=\"application/vnd.openxmlformats-officedocument.spreadsheetml.worksheet+xml\"/>",
            i + 1
        ));
    }
    ct.push_str("</Types>");
    zip.start_file("[Content_Types].xml", opts).unwrap();
    zip.write_all(ct.as_bytes()).unwrap();

    // _rels/.rels
    zip.start_file("_rels/.rels", opts).unwrap();
    zip.write_all(
        b"<?xml version=\"1.0\" encoding=\"UTF-8\" standalone=\"yes\"?>\
          <Relationships xmlns=\"http://schemas.openxmlformats.org/package/2006/relationships\">\
          <Relationship Id=\"rId1\" \
          Type=\"http://schemas.openxmlformats.org/officeDocument/2006/relationships/officeDocument\" \
          Target=\"xl/workbook.xml\"/>\
          </Relationships>",
    )
    .unwrap();

    // xl/workbook.xml
    let mut wb = String::from(
        "<?xml version=\"1.0\" encoding=\"UTF-8\" standalone=\"yes\"?>\
         <workbook xmlns=\"http://schemas.openxmlformats.org/spreadsheetml/2006/main\" \
         xmlns:r=\"http://schemas.openxmlformats.org/officeDocument/2006/relationships\">\
         <sheets>",
    );
    for (i, (name, _)) in sheets.iter().enumerate() {
        wb.push_str(&format!(
            "<sheet name=\"{name}\" sheetId=\"{}\" r:id=\"rId{}\"/>",
            i + 1,
            i + 1
        ));
    }
    wb.push_str("</sheets></workbook>");
    zip.start_file("xl/workbook.xml", opts).unwrap();
    zip.write_all(wb.as_bytes()).unwrap();

    // xl/_rels/workbook.xml.rels
    let mut rels = String::from(
        "<?xml version=\"1.0\" encoding=\"UTF-8\" standalone=\"yes\"?>\
         <Relationships xmlns=\"http://schemas.openxmlformats.org/package/2006/relationships\">",
    );
    for (i, _) in sheets.iter().enumerate() {
        rels.push_str(&format!(
            "<Relationship Id=\"rId{}\" \
             Type=\"http://schemas.openxmlformats.org/officeDocument/2006/relationships/worksheet\" \
             Target=\"worksheets/sheet{}.xml\"/>",
            i + 1,
            i + 1
        ));
    }
    rels.push_str("</Relationships>");
    zip.start_file("xl/_rels/workbook.xml.rels", opts).unwrap();
    zip.write_all(rels.as_bytes()).unwrap();

    // Each worksheet
    for (i, (_, rows)) in sheets.iter().enumerate() {
        let mut ws = String::from(
            "<?xml version=\"1.0\" encoding=\"UTF-8\" standalone=\"yes\"?>\
             <worksheet xmlns=\"http://schemas.openxmlformats.org/spreadsheetml/2006/main\">\
             <sheetData>",
        );
        for (ri, row) in rows.iter().enumerate() {
            ws.push_str(&format!("<row r=\"{}\">", ri + 1));
            for (ci, cell) in row.iter().enumerate() {
                let col = test_col_letter(ci);
                let r = ri + 1;
                match cell {
                    TestCell::Str(s) => {
                        let escaped = s
                            .replace('&', "&amp;")
                            .replace('<', "&lt;")
                            .replace('>', "&gt;")
                            .replace('"', "&quot;");
                        ws.push_str(&format!(
                            "<c r=\"{col}{r}\" t=\"inlineStr\"><is><t>{escaped}</t></is></c>"
                        ));
                    }
                    TestCell::Num(f) => {
                        ws.push_str(&format!("<c r=\"{col}{r}\"><v>{f}</v></c>"));
                    }
                    TestCell::Bool(b) => {
                        let v = if *b { 1 } else { 0 };
                        ws.push_str(&format!("<c r=\"{col}{r}\" t=\"b\"><v>{v}</v></c>"));
                    }
                    TestCell::Empty => {}
                }
            }
            ws.push_str("</row>");
        }
        ws.push_str("</sheetData></worksheet>");
        zip.start_file(format!("xl/worksheets/sheet{}.xml", i + 1), opts)
            .unwrap();
        zip.write_all(ws.as_bytes()).unwrap();
    }

    let cursor = zip.finish().unwrap();
    cursor.into_inner()
}

#[test]
fn test_xlsx_can_convert() {
    let converter = XlsxConverter;
    assert!(converter.can_convert("xlsx", &[]));
    assert!(!converter.can_convert("csv", &[]));
    assert!(!converter.can_convert("json", &[]));
}

#[test]
fn test_xls_supported_extension() {
    let converter = XlsxConverter;
    assert!(converter.can_convert("xls", &[]));
}

#[test]
fn test_xls_not_confused_with_other_formats() {
    let converter = XlsxConverter;
    assert!(!converter.can_convert("csv", &[]));
    assert!(!converter.can_convert("json", &[]));
    assert!(!converter.can_convert("docx", &[]));
    assert!(!converter.can_convert("pptx", &[]));
}

#[test]
fn test_xlsx_empty_workbook() {
    let data = build_test_xlsx(&[("Sheet1", &[])]);
    let converter = XlsxConverter;
    let result = converter
        .convert(&data, &ConversionOptions::default())
        .unwrap();
    assert_eq!(result.markdown, "");
}

#[test]
fn test_xlsx_single_sheet_basic() {
    let data = build_test_xlsx(&[(
        "Sheet1",
        &[
            &[Str("Name"), Str("Age")][..],
            &[Str("Alice"), Num(30.0)],
            &[Str("Bob"), Num(25.0)],
        ],
    )]);
    let converter = XlsxConverter;
    let result = converter
        .convert(&data, &ConversionOptions::default())
        .unwrap();
    assert!(result.markdown.contains("## Sheet1"));
    assert!(result.markdown.contains("| Name | Age |"));
    assert!(result.markdown.contains("| Alice | 30 |"));
    assert!(result.markdown.contains("| Bob | 25 |"));
}

#[test]
fn test_xlsx_multiple_sheets() {
    let data = build_test_xlsx(&[
        ("First", &[&[Str("A")][..], &[Str("1")]]),
        ("Second", &[&[Str("B")][..], &[Str("2")]]),
    ]);
    let converter = XlsxConverter;
    let result = converter
        .convert(&data, &ConversionOptions::default())
        .unwrap();
    assert!(result.markdown.contains("## First"));
    assert!(result.markdown.contains("| A |"));
    assert!(result.markdown.contains("| 1 |"));
    assert!(result.markdown.contains("## Second"));
    assert!(result.markdown.contains("| B |"));
    assert!(result.markdown.contains("| 2 |"));
}

#[test]
fn test_xlsx_empty_sheet_skipped() {
    let data = build_test_xlsx(&[("HasData", &[&[Str("X")][..], &[Str("1")]]), ("Empty", &[])]);
    let converter = XlsxConverter;
    let result = converter
        .convert(&data, &ConversionOptions::default())
        .unwrap();
    assert!(result.markdown.contains("## HasData"));
    assert!(!result.markdown.contains("## Empty"));
}

#[test]
fn test_xlsx_header_only_sheet() {
    let data = build_test_xlsx(&[("Sheet1", &[&[Str("Col1"), Str("Col2")][..]])]);
    let converter = XlsxConverter;
    let result = converter
        .convert(&data, &ConversionOptions::default())
        .unwrap();
    assert!(result.markdown.contains("## Sheet1"));
    assert!(result.markdown.contains("| Col1 | Col2 |"));
    assert!(result.markdown.contains("|---|---|"));
    // Verify no data rows after separator
    let sep_pos = result.markdown.find("|---|---|").unwrap();
    let after_sep = &result.markdown[sep_pos + "|---|---|".len()..];
    assert!(
        !after_sep.trim().contains('|'),
        "expected no data rows after separator"
    );
}

#[test]
fn test_xlsx_numeric_cells() {
    let data = build_test_xlsx(&[(
        "Numbers",
        &[
            &[Str("Int"), Str("Float"), Str("Whole")][..],
            &[Num(42.0), Num(3.14), Num(100.0)],
        ],
    )]);
    let converter = XlsxConverter;
    let result = converter
        .convert(&data, &ConversionOptions::default())
        .unwrap();
    assert!(result.markdown.contains("| 42 |"));
    assert!(result.markdown.contains("3.14"));
    assert!(result.markdown.contains("| 100 |"));
}

#[test]
fn test_xlsx_bool_cells() {
    let data = build_test_xlsx(&[(
        "Bools",
        &[&[Str("Value")][..], &[Bool(true)], &[Bool(false)]],
    )]);
    let converter = XlsxConverter;
    let result = converter
        .convert(&data, &ConversionOptions::default())
        .unwrap();
    assert!(result.markdown.contains("| TRUE |"));
    assert!(result.markdown.contains("| FALSE |"));
}

#[test]
fn test_xlsx_unicode_cjk() {
    let data = build_test_xlsx(&[(
        "CJK",
        &[
            &[Str("한국어"), Str("中文"), Str("日本語")][..],
            &[Str("서울"), Str("北京"), Str("東京")],
        ],
    )]);
    let converter = XlsxConverter;
    let result = converter
        .convert(&data, &ConversionOptions::default())
        .unwrap();
    assert!(result.markdown.contains("한국어"));
    assert!(result.markdown.contains("中文"));
    assert!(result.markdown.contains("日本語"));
    assert!(result.markdown.contains("서울"));
    assert!(result.markdown.contains("北京"));
    assert!(result.markdown.contains("東京"));
}

#[test]
fn test_xlsx_emoji() {
    let data = build_test_xlsx(&[(
        "Emoji",
        &[&[Str("Icon")][..], &[Str("🚀")], &[Str("✨")], &[Str("🌍")]],
    )]);
    let converter = XlsxConverter;
    let result = converter
        .convert(&data, &ConversionOptions::default())
        .unwrap();
    assert!(result.markdown.contains("🚀"));
    assert!(result.markdown.contains("✨"));
    assert!(result.markdown.contains("🌍"));
}

#[test]
fn test_xlsx_mixed_types() {
    let data = build_test_xlsx(&[(
        "Mixed",
        &[
            &[Str("Str"), Str("Num"), Str("Bool"), Str("Empty")][..],
            &[Str("hello"), Num(42.0), Bool(true), Empty],
        ],
    )]);
    let converter = XlsxConverter;
    let result = converter
        .convert(&data, &ConversionOptions::default())
        .unwrap();
    assert!(result.markdown.contains("| hello | 42 | TRUE |  |"));
}

#[test]
fn test_xlsx_uneven_row_lengths() {
    // Row 1 has 3 cols (header), row 2 has 2 cols, row 3 has 4 cols
    // calamine pads shorter rows with Empty, truncates longer rows to header width
    let data = build_test_xlsx(&[(
        "Sheet1",
        &[
            &[Str("A"), Str("B"), Str("C")][..],
            &[Str("1"), Str("2")],
            &[Str("x"), Str("y"), Str("z")],
        ],
    )]);
    let converter = XlsxConverter;
    let result = converter
        .convert(&data, &ConversionOptions::default())
        .unwrap();
    // Header row should be intact
    assert!(result.markdown.contains("| A | B | C |"));
    // Short row: calamine returns fewer cells, build_table pads
    assert!(result.markdown.contains("1"));
    assert!(result.markdown.contains("2"));
    // Full row should be intact
    assert!(result.markdown.contains("| x | y | z |"));
}

#[test]
fn test_xlsx_zip_budget_exceeded_returns_error() {
    let data = build_test_xlsx(&[("Sheet1", &[&[Str("A")][..], &[Str("1")]])]);
    let converter = XlsxConverter;
    let options = ConversionOptions {
        max_uncompressed_zip_bytes: 1, // impossibly small
        ..Default::default()
    };
    let result = converter.convert(&data, &options);
    assert!(result.is_err());
    let err = result.unwrap_err();
    assert!(
        err.message().contains("exceeds limit"),
        "error was: {err:?}"
    );
}

#[test]
fn test_xlsx_no_title_images() {
    let data = build_test_xlsx(&[("Sheet1", &[&[Str("A")][..], &[Str("1")]])]);
    let converter = XlsxConverter;
    let result = converter
        .convert(&data, &ConversionOptions::default())
        .unwrap();
    assert!(result.title.is_none());
    assert!(result.images.is_empty());
}

#[test]
fn test_xlsx_invalid_data_returns_error() {
    let converter = XlsxConverter;
    let result = converter.convert(b"not a valid xlsx file", &ConversionOptions::default());
    assert!(result.is_err());
}

// -- Error cell tests --

#[test]
fn test_xlsx_format_cell_error_displays_text() {
    let mut warnings = Vec::new();
    let cell = CellValue::Error("#DIV/0!".to_string());
    let result = format_cell(&cell, &"Sheet1!A1".chars().collect::<Vec<char>>(), &mut warnings).into_iter().collect::<String>();
    assert!(
        result.contains("DIV"),
        "expected error text containing 'DIV', got: {result}"
    );
}

#[test]
fn test_xlsx_format_cell_error_na() {
    let mut warnings = Vec::new();
    let cell = CellValue::Error("#N/A".to_string());
    let result = format_cell(&cell, &"Sheet1!B2".chars().collect::<Vec<char>>(), &mut warnings).into_iter().collect::<String>();
    assert!(
        result.contains("N/A"),
        "expected error text containing 'N/A', got: {result}"
    );
}

#[test]
fn test_xlsx_format_cell_error_emits_warning() {
    let mut warnings = Vec::new();
    let cell = CellValue::Error("#DIV/0!".to_string());
    format_cell(&cell, &"Sheet1!C3".chars().collect::<Vec<char>>(), &mut warnings).into_iter().collect::<String>();
    assert_eq!(warnings.len(), 1);
    assert_eq!(warnings[0].code, WarningCode::MalformedSegment);
    assert_eq!(warnings[0].location.as_deref(), Some("Sheet1!C3"));
    assert!(warnings[0].message.contains("error"));
}

// -- DateTime formatting tests --

#[test]
fn test_xlsx_format_cell_datetime_date_only() {
    let mut warnings = Vec::new();
    // Excel serial date for 2024-01-15 = 45306
    let dt = CellValue::DateTime { year: 2024, month: 1, day: 15, hour: 0, minute: 0, second: 0 };
    let result = format_cell(&dt, &"Sheet1!A1".chars().collect::<Vec<char>>(), &mut warnings).into_iter().collect::<String>();
    assert!(warnings.is_empty());
    assert_eq!(result, "2024-01-15");
}

#[test]
fn test_xlsx_format_cell_datetime_full() {
    let mut warnings = Vec::new();
    // 45306.5 = 2024-01-15 12:00:00
    let dt = CellValue::DateTime { year: 2024, month: 1, day: 15, hour: 12, minute: 0, second: 0 };
    let result = format_cell(&dt, &"Sheet1!A1".chars().collect::<Vec<char>>(), &mut warnings).into_iter().collect::<String>();
    assert!(warnings.is_empty());
    assert_eq!(result, "2024-01-15 12:00:00");
}

#[test]
fn test_xlsx_format_cell_datetime_with_time() {
    let mut warnings = Vec::new();
    // 45306.0 + 14h30m15s = 45306 + (14*3600+30*60+15)/86400
    let fractional = (14.0 * 3600.0 + 30.0 * 60.0 + 15.0) / 86400.0;
    let dt = CellValue::DateTime { year: 2024, month: 1, day: 15, hour: 14, minute: 30, second: 15 };
    let result = format_cell(&dt, &"Sheet1!A1".chars().collect::<Vec<char>>(), &mut warnings).into_iter().collect::<String>();
    assert!(warnings.is_empty());
    assert_eq!(result, "2024-01-15 14:30:15");
}

#[test]
fn test_xlsx_format_cell_datetime_time_only() {
    let mut warnings = Vec::new();
    // Time-only: fractional day < 1.0, e.g. 0.5 = 12:00:00
    let dt = CellValue::DateTime { year: 1899, month: 12, day: 30, hour: 12, minute: 0, second: 0 };
    let result = format_cell(&dt, &"Sheet1!A1".chars().collect::<Vec<char>>(), &mut warnings).into_iter().collect::<String>();
    assert!(warnings.is_empty());
    // Could be either "1899-12-30 12:00:00" or "12:00:00" depending on calamine behavior
    assert!(
        result.contains("12:00:00"),
        "expected time 12:00:00 in output, got: {result}"
    );
}

// -- Image extraction tests --

use std::sync::Arc;
use std::io::Write;
use zip::write::SimpleFileOptions;
use zip::ZipWriter;
use TestCell::{Bool, Empty, Num, Str};

struct MockDescriber {
    description: String,
}

impl ImageDescriber for MockDescriber {
    fn describe(
        &self,
        _image_bytes: &[u8],
        _mime_type: &str,
        _prompt: &str,
    ) -> Result<String, ConvertError> {
        Ok(self.description.clone())
    }
}

struct FailingDescriber;

impl ImageDescriber for FailingDescriber {
    fn describe(
        &self,
        _image_bytes: &[u8],
        _mime_type: &str,
        _prompt: &str,
    ) -> Result<String, ConvertError> {
        Err(ConvertError::ImageDescriptionError {
            reason: "API error".to_string(),
        })
    }
}

/// Build a minimal XLSX file with an embedded image in sheet 1.
///
/// The ZIP contains:
/// - Standard XLSX structure (workbook, sheet with data)
/// - `xl/worksheets/_rels/sheet1.xml.rels` → points to `../drawings/drawing1.xml`
/// - `xl/drawings/drawing1.xml` → contains `<a:blip r:embed="rId1"/>`
/// - `xl/drawings/_rels/drawing1.xml.rels` → points to `../media/image1.png`
/// - `xl/media/image1.png` → fake image bytes
fn build_test_xlsx_with_image(
    sheets: &[(&str, &[&[TestCell]])],
    image_filename: &str,
    image_data: &[u8],
) -> Vec<u8> {

    let buf = Vec::new();
    let mut zip = ZipWriter::new(Cursor::new(buf));
    let opts = SimpleFileOptions::default();

    // [Content_Types].xml — add image content type
    let mut ct = String::from(
        "<?xml version=\"1.0\" encoding=\"UTF-8\" standalone=\"yes\"?>\
         <Types xmlns=\"http://schemas.openxmlformats.org/package/2006/content-types\">\
         <Default Extension=\"rels\" ContentType=\"application/vnd.openxmlformats-package.relationships+xml\"/>\
         <Default Extension=\"xml\" ContentType=\"application/xml\"/>\
         <Default Extension=\"png\" ContentType=\"image/png\"/>\
         <Override PartName=\"/xl/workbook.xml\" ContentType=\"application/vnd.openxmlformats-officedocument.spreadsheetml.sheet.main+xml\"/>",
    );
    for (i, _) in sheets.iter().enumerate() {
        ct.push_str(&format!(
            "<Override PartName=\"/xl/worksheets/sheet{}.xml\" \
             ContentType=\"application/vnd.openxmlformats-officedocument.spreadsheetml.worksheet+xml\"/>",
            i + 1
        ));
    }
    ct.push_str("</Types>");
    zip.start_file("[Content_Types].xml", opts).unwrap();
    zip.write_all(ct.as_bytes()).unwrap();

    // _rels/.rels
    zip.start_file("_rels/.rels", opts).unwrap();
    zip.write_all(
        b"<?xml version=\"1.0\" encoding=\"UTF-8\" standalone=\"yes\"?>\
          <Relationships xmlns=\"http://schemas.openxmlformats.org/package/2006/relationships\">\
          <Relationship Id=\"rId1\" \
          Type=\"http://schemas.openxmlformats.org/officeDocument/2006/relationships/officeDocument\" \
          Target=\"xl/workbook.xml\"/>\
          </Relationships>",
    )
    .unwrap();

    // xl/workbook.xml
    let mut wb = String::from(
        "<?xml version=\"1.0\" encoding=\"UTF-8\" standalone=\"yes\"?>\
         <workbook xmlns=\"http://schemas.openxmlformats.org/spreadsheetml/2006/main\" \
         xmlns:r=\"http://schemas.openxmlformats.org/officeDocument/2006/relationships\">\
         <sheets>",
    );
    for (i, (name, _)) in sheets.iter().enumerate() {
        wb.push_str(&format!(
            "<sheet name=\"{name}\" sheetId=\"{}\" r:id=\"rId{}\"/>",
            i + 1,
            i + 1
        ));
    }
    wb.push_str("</sheets></workbook>");
    zip.start_file("xl/workbook.xml", opts).unwrap();
    zip.write_all(wb.as_bytes()).unwrap();

    // xl/_rels/workbook.xml.rels
    let mut rels = String::from(
        "<?xml version=\"1.0\" encoding=\"UTF-8\" standalone=\"yes\"?>\
         <Relationships xmlns=\"http://schemas.openxmlformats.org/package/2006/relationships\">",
    );
    for (i, _) in sheets.iter().enumerate() {
        rels.push_str(&format!(
            "<Relationship Id=\"rId{}\" \
             Type=\"http://schemas.openxmlformats.org/officeDocument/2006/relationships/worksheet\" \
             Target=\"worksheets/sheet{}.xml\"/>",
            i + 1,
            i + 1
        ));
    }
    rels.push_str("</Relationships>");
    zip.start_file("xl/_rels/workbook.xml.rels", opts).unwrap();
    zip.write_all(rels.as_bytes()).unwrap();

    // Each worksheet
    for (i, (_, rows)) in sheets.iter().enumerate() {
        let mut ws = String::from(
            "<?xml version=\"1.0\" encoding=\"UTF-8\" standalone=\"yes\"?>\
             <worksheet xmlns=\"http://schemas.openxmlformats.org/spreadsheetml/2006/main\">\
             <sheetData>",
        );
        for (ri, row) in rows.iter().enumerate() {
            ws.push_str(&format!("<row r=\"{}\">", ri + 1));
            for (ci, cell) in row.iter().enumerate() {
                let col = test_col_letter(ci);
                let r = ri + 1;
                match cell {
                    TestCell::Str(s) => {
                        let escaped = s
                            .replace('&', "&amp;")
                            .replace('<', "&lt;")
                            .replace('>', "&gt;")
                            .replace('"', "&quot;");
                        ws.push_str(&format!(
                            "<c r=\"{col}{r}\" t=\"inlineStr\"><is><t>{escaped}</t></is></c>"
                        ));
                    }
                    TestCell::Num(f) => {
                        ws.push_str(&format!("<c r=\"{col}{r}\"><v>{f}</v></c>"));
                    }
                    TestCell::Bool(b) => {
                        let v = if *b { 1 } else { 0 };
                        ws.push_str(&format!("<c r=\"{col}{r}\" t=\"b\"><v>{v}</v></c>"));
                    }
                    TestCell::Empty => {}
                }
            }
            ws.push_str("</row>");
        }
        ws.push_str("</sheetData></worksheet>");
        zip.start_file(format!("xl/worksheets/sheet{}.xml", i + 1), opts)
            .unwrap();
        zip.write_all(ws.as_bytes()).unwrap();
    }

    // Sheet 1 rels — point to drawing1.xml
    zip.start_file("xl/worksheets/_rels/sheet1.xml.rels", opts)
        .unwrap();
    zip.write_all(
        b"<?xml version=\"1.0\" encoding=\"UTF-8\" standalone=\"yes\"?>\
          <Relationships xmlns=\"http://schemas.openxmlformats.org/package/2006/relationships\">\
          <Relationship Id=\"rId1\" \
          Type=\"http://schemas.openxmlformats.org/officeDocument/2006/relationships/drawing\" \
          Target=\"../drawings/drawing1.xml\"/>\
          </Relationships>",
    )
    .unwrap();

    // xl/drawings/drawing1.xml — contains a blip reference
    let drawing_xml = format!(
        "<?xml version=\"1.0\" encoding=\"UTF-8\" standalone=\"yes\"?>\
         <xdr:wsDr xmlns:xdr=\"http://schemas.openxmlformats.org/drawingml/2006/spreadsheetDrawing\" \
         xmlns:a=\"http://schemas.openxmlformats.org/drawingml/2006/main\" \
         xmlns:r=\"http://schemas.openxmlformats.org/officeDocument/2006/relationships\">\
         <xdr:twoCellAnchor>\
         <xdr:pic>\
         <xdr:nvPicPr><xdr:cNvPr id=\"1\" name=\"Picture 1\"/><xdr:cNvPicPr/></xdr:nvPicPr>\
         <xdr:blipFill><a:blip r:embed=\"rId1\"/></xdr:blipFill>\
         </xdr:pic>\
         </xdr:twoCellAnchor>\
         </xdr:wsDr>"
    );
    zip.start_file("xl/drawings/drawing1.xml", opts).unwrap();
    zip.write_all(drawing_xml.as_bytes()).unwrap();

    // xl/drawings/_rels/drawing1.xml.rels — resolve blip rId1 to media file
    let drawing_rels = format!(
        "<?xml version=\"1.0\" encoding=\"UTF-8\" standalone=\"yes\"?>\
         <Relationships xmlns=\"http://schemas.openxmlformats.org/package/2006/relationships\">\
         <Relationship Id=\"rId1\" \
         Type=\"http://schemas.openxmlformats.org/officeDocument/2006/relationships/image\" \
         Target=\"../media/{image_filename}\"/>\
         </Relationships>"
    );
    zip.start_file("xl/drawings/_rels/drawing1.xml.rels", opts)
        .unwrap();
    zip.write_all(drawing_rels.as_bytes()).unwrap();

    // xl/media/image1.png — actual image bytes
    zip.start_file(format!("xl/media/{image_filename}"), opts)
        .unwrap();
    zip.write_all(image_data).unwrap();

    let cursor = zip.finish().unwrap();
    cursor.into_inner()
}

#[test]
fn test_xlsx_image_extraction_disabled_by_default() {
    let data = build_test_xlsx_with_image(
        &[("Sheet1", &[&[Str("Name")][..], &[Str("Alice")]])],
        "image1.png",
        b"fake-png-data",
    );
    let converter = XlsxConverter;
    let result = converter
        .convert(&data, &ConversionOptions::default())
        .unwrap();
    // Default options: extract_images=false, image_describer=None
    assert!(result.images.is_empty());
    assert!(
        !result.markdown.contains("!["),
        "markdown should not contain image refs by default: {}",
        result.markdown
    );
}

#[test]
fn test_xlsx_image_extraction_with_extract_images() {
    let data = build_test_xlsx_with_image(
        &[("Sheet1", &[&[Str("Name")][..], &[Str("Alice")]])],
        "image1.png",
        b"fake-png-data",
    );
    let converter = XlsxConverter;
    let options = ConversionOptions {
        extract_images: true,
        ..Default::default()
    };
    let result = converter.convert(&data, &options).unwrap();
    assert_eq!(result.images.len(), 1);
    assert_eq!(result.images[0].0, "image1.png");
    assert_eq!(result.images[0].1, b"fake-png-data");
}

#[test]
fn test_xlsx_image_in_markdown() {
    let data = build_test_xlsx_with_image(
        &[("Sheet1", &[&[Str("Name")][..], &[Str("Alice")]])],
        "image1.png",
        b"fake-png-data",
    );
    let converter = XlsxConverter;
    let options = ConversionOptions {
        extract_images: true,
        ..Default::default()
    };
    let result = converter.convert(&data, &options).unwrap();
    assert!(
        result.markdown.contains("![](image1.png)"),
        "markdown was: {}",
        result.markdown
    );
    // Image refs should appear after the table
    assert!(result.markdown.contains("## Sheet1"));
}

#[test]
fn test_xlsx_image_describer_replaces_alt_text() {
    let data = build_test_xlsx_with_image(
        &[("Sheet1", &[&[Str("Name")][..], &[Str("Alice")]])],
        "image1.png",
        b"fake-png-data",
    );
    let converter = XlsxConverter;
    let describer = MockDescriber {
            description: "A chart showing sales data".to_string(),
        };
    let options = ConversionOptions::default();
    let result = converter
        .convert_with_describer(&data, &options, Some(&describer)).unwrap();
    assert!(
        result
            .markdown
            .contains("![A chart showing sales data](image1.png)"),
        "markdown was: {}",
        result.markdown
    );
    // Without extract_images, images vec should be empty
    assert!(result.images.is_empty());
}

#[test]
fn test_xlsx_image_describer_error_keeps_original() {
    let data = build_test_xlsx_with_image(
        &[("Sheet1", &[&[Str("Name")][..], &[Str("Alice")]])],
        "image1.png",
        b"fake-png-data",
    );
    let converter = XlsxConverter;
    let describer = FailingDescriber;
    let options = ConversionOptions::default();
    let result = converter
        .convert_with_describer(&data, &options, Some(&describer)).unwrap();
    // Original empty alt text should be preserved
    assert!(
        result.markdown.contains("![](image1.png)"),
        "markdown was: {}",
        result.markdown
    );
    // Should have a warning about the failure
    assert!(result
        .warnings
        .iter()
        .any(|w| w.code == WarningCode::SkippedElement
            && w.message.contains("image description failed")));
}

#[test]
fn test_xlsx_image_byte_budget_enforced() {
    // Create an image that exceeds a small budget
    let large_image = vec![0u8; 1000];
    let data = build_test_xlsx_with_image(
        &[("Sheet1", &[&[Str("Name")][..], &[Str("Alice")]])],
        "image1.png",
        &large_image,
    );
    let converter = XlsxConverter;
    let options = ConversionOptions {
        extract_images: true,
        max_total_image_bytes: 500, // budget smaller than image
        ..Default::default()
    };
    let result = converter.convert(&data, &options).unwrap();
    // Image should not be extracted (exceeds budget)
    assert!(result.images.is_empty());
    // Should have a ResourceLimitReached warning
    assert!(result
        .warnings
        .iter()
        .any(|w| w.code == WarningCode::ResourceLimitReached));
}

// -- Helper function unit tests --

#[test]
fn xlsx_test_parse_relationships_basic() {
    let xml = r#"<?xml version="1.0" encoding="UTF-8" standalone="yes"?>
        <Relationships xmlns="http://schemas.openxmlformats.org/package/2006/relationships">
        <Relationship Id="rId1" Target="../drawings/drawing1.xml"
         Type="http://schemas.openxmlformats.org/officeDocument/2006/relationships/drawing"/>
        </Relationships>"#;
    let rels = parse_relationships(xml);
    assert_eq!(
        rels.iter().rev().find(|(k, _)| k == "rId1").map(|(_, r)| r.target.as_str()),
        Some("../drawings/drawing1.xml")
    );
}

#[test]
fn test_parse_drawing_blips_basic() {
    let xml = r#"<?xml version="1.0" encoding="UTF-8" standalone="yes"?>
        <xdr:wsDr xmlns:xdr="http://schemas.openxmlformats.org/drawingml/2006/spreadsheetDrawing"
                  xmlns:a="http://schemas.openxmlformats.org/drawingml/2006/main"
                  xmlns:r="http://schemas.openxmlformats.org/officeDocument/2006/relationships">
        <xdr:twoCellAnchor>
        <xdr:pic><xdr:blipFill><a:blip r:embed="rId1"/></xdr:blipFill></xdr:pic>
        </xdr:twoCellAnchor>
        <xdr:oneCellAnchor>
        <xdr:pic><xdr:blipFill><a:blip r:embed="rId2"/></xdr:blipFill></xdr:pic>
        </xdr:oneCellAnchor>
        </xdr:wsDr>"#;
    let blips = parse_drawing_blips(xml);
    assert_eq!(blips, vec!["rId1", "rId2"]);
}

// -- Absolute path (openpyxl-style) tests --

/// Build a minimal XLSX with absolute paths in rels (openpyxl style).
///
/// Uses `/xl/drawings/drawing1.xml` and `/xl/media/image1.png` instead of
/// relative `../drawings/...` and `../media/...` paths.
fn build_test_xlsx_with_image_absolute_paths(
    sheets: &[(&str, &[&[TestCell]])],
    image_filename: &str,
    image_data: &[u8],
) -> Vec<u8> {

    let buf = Vec::new();
    let mut zip = ZipWriter::new(Cursor::new(buf));
    let opts = SimpleFileOptions::default();

    // [Content_Types].xml
    let mut ct = String::from(
        "<?xml version=\"1.0\" encoding=\"UTF-8\" standalone=\"yes\"?>\
         <Types xmlns=\"http://schemas.openxmlformats.org/package/2006/content-types\">\
         <Default Extension=\"rels\" ContentType=\"application/vnd.openxmlformats-package.relationships+xml\"/>\
         <Default Extension=\"xml\" ContentType=\"application/xml\"/>\
         <Default Extension=\"png\" ContentType=\"image/png\"/>\
         <Override PartName=\"/xl/workbook.xml\" ContentType=\"application/vnd.openxmlformats-officedocument.spreadsheetml.sheet.main+xml\"/>",
    );
    for (i, _) in sheets.iter().enumerate() {
        ct.push_str(&format!(
            "<Override PartName=\"/xl/worksheets/sheet{}.xml\" \
             ContentType=\"application/vnd.openxmlformats-officedocument.spreadsheetml.worksheet+xml\"/>",
            i + 1
        ));
    }
    ct.push_str("</Types>");
    zip.start_file("[Content_Types].xml", opts).unwrap();
    zip.write_all(ct.as_bytes()).unwrap();

    // _rels/.rels
    zip.start_file("_rels/.rels", opts).unwrap();
    zip.write_all(
        b"<?xml version=\"1.0\" encoding=\"UTF-8\" standalone=\"yes\"?>\
          <Relationships xmlns=\"http://schemas.openxmlformats.org/package/2006/relationships\">\
          <Relationship Id=\"rId1\" \
          Type=\"http://schemas.openxmlformats.org/officeDocument/2006/relationships/officeDocument\" \
          Target=\"xl/workbook.xml\"/>\
          </Relationships>",
    )
    .unwrap();

    // xl/workbook.xml
    let mut wb = String::from(
        "<?xml version=\"1.0\" encoding=\"UTF-8\" standalone=\"yes\"?>\
         <workbook xmlns=\"http://schemas.openxmlformats.org/spreadsheetml/2006/main\" \
         xmlns:r=\"http://schemas.openxmlformats.org/officeDocument/2006/relationships\">\
         <sheets>",
    );
    for (i, (name, _)) in sheets.iter().enumerate() {
        wb.push_str(&format!(
            "<sheet name=\"{name}\" sheetId=\"{}\" r:id=\"rId{}\"/>",
            i + 1,
            i + 1
        ));
    }
    wb.push_str("</sheets></workbook>");
    zip.start_file("xl/workbook.xml", opts).unwrap();
    zip.write_all(wb.as_bytes()).unwrap();

    // xl/_rels/workbook.xml.rels
    let mut rels = String::from(
        "<?xml version=\"1.0\" encoding=\"UTF-8\" standalone=\"yes\"?>\
         <Relationships xmlns=\"http://schemas.openxmlformats.org/package/2006/relationships\">",
    );
    for (i, _) in sheets.iter().enumerate() {
        rels.push_str(&format!(
            "<Relationship Id=\"rId{}\" \
             Type=\"http://schemas.openxmlformats.org/officeDocument/2006/relationships/worksheet\" \
             Target=\"worksheets/sheet{}.xml\"/>",
            i + 1,
            i + 1
        ));
    }
    rels.push_str("</Relationships>");
    zip.start_file("xl/_rels/workbook.xml.rels", opts).unwrap();
    zip.write_all(rels.as_bytes()).unwrap();

    // Each worksheet
    for (i, (_, rows)) in sheets.iter().enumerate() {
        let mut ws = String::from(
            "<?xml version=\"1.0\" encoding=\"UTF-8\" standalone=\"yes\"?>\
             <worksheet xmlns=\"http://schemas.openxmlformats.org/spreadsheetml/2006/main\">\
             <sheetData>",
        );
        for (ri, row) in rows.iter().enumerate() {
            ws.push_str(&format!("<row r=\"{}\">", ri + 1));
            for (ci, cell) in row.iter().enumerate() {
                let col = test_col_letter(ci);
                let r = ri + 1;
                match cell {
                    TestCell::Str(s) => {
                        let escaped = s
                            .replace('&', "&amp;")
                            .replace('<', "&lt;")
                            .replace('>', "&gt;")
                            .replace('"', "&quot;");
                        ws.push_str(&format!(
                            "<c r=\"{col}{r}\" t=\"inlineStr\"><is><t>{escaped}</t></is></c>"
                        ));
                    }
                    TestCell::Num(f) => {
                        ws.push_str(&format!("<c r=\"{col}{r}\"><v>{f}</v></c>"));
                    }
                    TestCell::Bool(b) => {
                        let v = if *b { 1 } else { 0 };
                        ws.push_str(&format!("<c r=\"{col}{r}\" t=\"b\"><v>{v}</v></c>"));
                    }
                    TestCell::Empty => {}
                }
            }
            ws.push_str("</row>");
        }
        ws.push_str("</sheetData></worksheet>");
        zip.start_file(format!("xl/worksheets/sheet{}.xml", i + 1), opts)
            .unwrap();
        zip.write_all(ws.as_bytes()).unwrap();
    }

    // Sheet 1 rels — absolute path to drawing (openpyxl style)
    zip.start_file("xl/worksheets/_rels/sheet1.xml.rels", opts)
        .unwrap();
    zip.write_all(
        b"<?xml version=\"1.0\" encoding=\"UTF-8\" standalone=\"yes\"?>\
          <Relationships xmlns=\"http://schemas.openxmlformats.org/package/2006/relationships\">\
          <Relationship Id=\"rId1\" \
          Type=\"http://schemas.openxmlformats.org/officeDocument/2006/relationships/drawing\" \
          Target=\"/xl/drawings/drawing1.xml\"/>\
          </Relationships>",
    )
    .unwrap();

    // xl/drawings/drawing1.xml
    zip.start_file("xl/drawings/drawing1.xml", opts).unwrap();
    zip.write_all(
        b"<?xml version=\"1.0\" encoding=\"UTF-8\" standalone=\"yes\"?>\
         <xdr:wsDr xmlns:xdr=\"http://schemas.openxmlformats.org/drawingml/2006/spreadsheetDrawing\" \
         xmlns:a=\"http://schemas.openxmlformats.org/drawingml/2006/main\" \
         xmlns:r=\"http://schemas.openxmlformats.org/officeDocument/2006/relationships\">\
         <xdr:twoCellAnchor>\
         <xdr:pic>\
         <xdr:nvPicPr><xdr:cNvPr id=\"1\" name=\"Picture 1\"/><xdr:cNvPicPr/></xdr:nvPicPr>\
         <xdr:blipFill><a:blip r:embed=\"rId1\"/></xdr:blipFill>\
         </xdr:pic>\
         </xdr:twoCellAnchor>\
         </xdr:wsDr>",
    )
    .unwrap();

    // xl/drawings/_rels/drawing1.xml.rels — absolute path to media (openpyxl style)
    let drawing_rels = format!(
        "<?xml version=\"1.0\" encoding=\"UTF-8\" standalone=\"yes\"?>\
         <Relationships xmlns=\"http://schemas.openxmlformats.org/package/2006/relationships\">\
         <Relationship Id=\"rId1\" \
         Type=\"http://schemas.openxmlformats.org/officeDocument/2006/relationships/image\" \
         Target=\"/xl/media/{image_filename}\"/>\
         </Relationships>"
    );
    zip.start_file("xl/drawings/_rels/drawing1.xml.rels", opts)
        .unwrap();
    zip.write_all(drawing_rels.as_bytes()).unwrap();

    // xl/media/image1.png
    zip.start_file(format!("xl/media/{image_filename}"), opts)
        .unwrap();
    zip.write_all(image_data).unwrap();

    let cursor = zip.finish().unwrap();
    cursor.into_inner()
}

#[test]
fn test_xlsx_image_extraction_absolute_paths() {
    let data = build_test_xlsx_with_image_absolute_paths(
        &[("Sheet1", &[&[Str("Name")][..], &[Str("Alice")]])],
        "image1.png",
        b"fake-png-data",
    );
    let converter = XlsxConverter;
    let options = ConversionOptions {
        extract_images: true,
        ..Default::default()
    };
    let result = converter.convert(&data, &options).unwrap();
    assert_eq!(result.images.len(), 1);
    assert_eq!(result.images[0].0, "image1.png");
    assert_eq!(result.images[0].1, b"fake-png-data");
}

#[test]
fn test_xlsx_image_in_markdown_absolute_paths() {
    let data = build_test_xlsx_with_image_absolute_paths(
        &[("Sheet1", &[&[Str("Name")][..], &[Str("Alice")]])],
        "image1.png",
        b"fake-png-data",
    );
    let converter = XlsxConverter;
    let options = ConversionOptions {
        extract_images: true,
        ..Default::default()
    };
    let result = converter.convert(&data, &options).unwrap();
    assert!(
        result.markdown.contains("![](image1.png)"),
        "markdown was: {}",
        result.markdown
    );
}

#[test]
fn test_xlsx_image_describer_absolute_paths() {
    let data = build_test_xlsx_with_image_absolute_paths(
        &[("Sheet1", &[&[Str("Name")][..], &[Str("Alice")]])],
        "image1.png",
        b"fake-png-data",
    );
    let converter = XlsxConverter;
    let describer = MockDescriber {
            description: "A chart from openpyxl".to_string(),
        };
    let options = ConversionOptions::default();
    let result = converter
        .convert_with_describer(&data, &options, Some(&describer)).unwrap();
    assert!(
        result
            .markdown
            .contains("![A chart from openpyxl](image1.png)"),
        "markdown was: {}",
        result.markdown
    );
}
