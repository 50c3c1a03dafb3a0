use anytomd::converter::docx::DocxConverter;
use anytomd::converter::Converter;

#[test]
fn test_docx_supported_extensions() {
    let converter = DocxConverter;
    assert_eq!(converter.supported_extensions(), &["docx"]);
}

#[test]
fn test_docx_can_convert() {
    let converter = DocxConverter;
    assert!(converter.can_convert("docx", &[]));
    assert!(!converter.can_convert("xlsx", &[]));
    assert!(!converter.can_convert("pdf", &[]));
    assert!(!converter.can_convert("txt", &[]));
}
