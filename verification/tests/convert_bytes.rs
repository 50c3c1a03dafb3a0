use anytomd::{convert_bytes, convert_file_bytes, detect_extension, ConversionOptions};

#[test]
fn test_convert_bytes_input_too_large() {
    let data = vec![0u8; 1024];
    let options = ConversionOptions {
        max_input_bytes: 512,
        ..Default::default()
    };
    let result = convert_bytes(&data, "txt", &options);
    assert!(result.is_err());
    let err = result.unwrap_err();
    assert!(
        err.message().contains("input too large"),
        "error was: {err:?}"
    );
}

#[test]
fn test_convert_bytes_at_exact_limit_succeeds() {
    let data = b"Hello, world!";
    let options = ConversionOptions {
        max_input_bytes: data.len(),
        ..Default::default()
    };
    let result = convert_bytes(data, "txt", &options);
    assert!(result.is_ok());
}

#[test]
fn test_convert_file_bytes_input_too_large() {
    let data = b"a,b\n1,2\n";
    let options = ConversionOptions {
        max_input_bytes: data.len() - 1,
        ..Default::default()
    };
    let err = convert_file_bytes("tests/fixtures/sample.csv", data, &options).unwrap_err();
    assert!(err.message().contains("input too large"), "error was: {err:?}");
}

#[test]
fn test_convert_file_bytes_uses_path_extension() {
    let options = ConversionOptions::default();
    let result = convert_file_bytes("data/table.csv", b"a,b\n1,2\n", &options).unwrap();
    assert!(result.markdown.contains("| a | b |"), "markdown: {}", result.markdown);
}

#[test]
fn test_detect_extension_magic_bytes_beat_name() {
    assert_eq!(detect_extension("notes.txt", b"  {\"a\": 1}"), "json");
    assert_eq!(detect_extension("report.docx", b"not a zip"), "docx");
    assert_eq!(detect_extension("noext", b"plain"), "");
    assert_eq!(detect_extension("broken.bin", b"PK\x03\x04garbage"), "bin");
}

#[test]
fn test_convert_file_bytes_unsupported_extension() {
    let options = ConversionOptions::default();
    let err = convert_file_bytes("archive.rar", b"Rar!", &options).unwrap_err();
    assert!(matches!(err, anytomd::ConvertError::UnsupportedFormat { .. }), "error was: {err:?}");
}
