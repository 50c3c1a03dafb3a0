use anytomd::converter::csv_conv::CsvConverter;
use anytomd::converter::{ConversionOptions, Converter, WarningCode};
use anytomd::error::ConvertError;

#[test]
fn csv_conv_test_csv_simple_table() {
    let converter = CsvConverter;
    let input = b"A,B,C\n1,2,3\n4,5,6\n";
    let result = converter
        .convert(input, &ConversionOptions::default())
        .unwrap();
    assert!(result.markdown.contains("| A | B | C |"));
    assert!(result.markdown.contains("|---|---|---|"));
    assert!(result.markdown.contains("| 1 | 2 | 3 |"));
    assert!(result.markdown.contains("| 4 | 5 | 6 |"));
}

#[test]
fn csv_conv_test_csv_single_row_header_only() {
    let converter = CsvConverter;
    let input = b"X,Y,Z\n";
    let result = converter
        .convert(input, &ConversionOptions::default())
        .unwrap();
    assert!(result.markdown.contains("| X | Y | Z |"));
    assert!(result.markdown.contains("|---|---|---|"));
    let lines: Vec<&str> = result.markdown.lines().collect();
    assert_eq!(lines.len(), 2);
}

#[test]
fn csv_conv_test_csv_single_column() {
    let converter = CsvConverter;
    let input = b"Name\nAlice\nBob\n";
    let result = converter
        .convert(input, &ConversionOptions::default())
        .unwrap();
    assert!(result.markdown.contains("| Name |"));
    assert!(result.markdown.contains("| Alice |"));
    assert!(result.markdown.contains("| Bob |"));
}

#[test]
fn csv_conv_test_csv_empty_input() {
    let converter = CsvConverter;
    let result = converter
        .convert(b"", &ConversionOptions::default())
        .unwrap();
    assert_eq!(result.markdown, "");
}

#[test]
fn csv_conv_test_csv_unicode_cjk() {
    let converter = CsvConverter;
    let input = "이름,나이\n홍길동,30\n田中,25\n".as_bytes();
    let result = converter
        .convert(input, &ConversionOptions::default())
        .unwrap();
    assert!(result.markdown.contains("홍길동"));
    assert!(result.markdown.contains("田中"));
    assert!(result.markdown.contains("이름"));
}

#[test]
fn csv_conv_test_csv_emoji() {
    let converter = CsvConverter;
    let input = "Symbol,Meaning\n🚀,Rocket\n✨,Sparkle\n".as_bytes();
    let result = converter
        .convert(input, &ConversionOptions::default())
        .unwrap();
    assert!(result.markdown.contains("🚀"));
    assert!(result.markdown.contains("✨"));
}

#[test]
fn csv_conv_test_csv_quoted_fields() {
    let converter = CsvConverter;
    let input = b"Name,City\nAlice,\"New York\"\nBob,\"San Francisco\"\n";
    let result = converter
        .convert(input, &ConversionOptions::default())
        .unwrap();
    assert!(result.markdown.contains("New York"));
    assert!(result.markdown.contains("San Francisco"));
}

#[test]
fn csv_conv_test_csv_short_rows_padded() {
    let converter = CsvConverter;
    let input = b"A,B,C\n1\n";
    let result = converter
        .convert(input, &ConversionOptions::default())
        .unwrap();
    assert!(result.markdown.contains("| 1 |  |  |"));
}

#[test]
fn csv_conv_test_csv_whitespace_in_cells() {
    let converter = CsvConverter;
    let input = b"Key,Value\n hello , world \n";
    let result = converter
        .convert(input, &ConversionOptions::default())
        .unwrap();
    assert!(result.markdown.contains(" hello "));
    assert!(result.markdown.contains(" world "));
}

#[test]
fn csv_conv_test_csv_supported_extensions() {
    let converter = CsvConverter;
    assert!(converter.supported_extensions().contains(&"csv"));
    assert!(!converter.supported_extensions().contains(&"txt"));
}

#[test]
fn csv_conv_test_csv_can_convert() {
    let converter = CsvConverter;
    assert!(converter.can_convert("csv", &[]));
    assert!(!converter.can_convert("json", &[]));
}

#[test]
fn csv_conv_test_csv_no_title_images_warnings() {
    let converter = CsvConverter;
    let result = converter
        .convert(b"A\n1\n", &ConversionOptions::default())
        .unwrap();
    assert!(result.title.is_none());
    assert!(result.images.is_empty());
    assert!(result.warnings.is_empty());
}

#[test]
fn test_csv_invalid_utf8_returns_error() {
    let converter = CsvConverter;
    let input = vec![0xFF, 0xFE];
    let result = converter.convert(&input, &ConversionOptions::default());
    assert!(result.is_err());
}
