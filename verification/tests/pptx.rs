use anytomd::converter::pptx::{derive_rels_path, resolve_relative_path, PptxConverter};
use anytomd::converter::Converter;

#[test]
fn test_pptx_supported_extensions() {
    let converter = PptxConverter;
    assert_eq!(converter.supported_extensions(), &["pptx"]);
}

#[test]
fn test_pptx_can_convert() {
    let converter = PptxConverter;
    assert!(converter.can_convert("pptx", &[]));
    assert!(!converter.can_convert("docx", &[]));
    assert!(!converter.can_convert("xlsx", &[]));
    assert!(!converter.can_convert("pdf", &[]));
}

#[test]
fn test_pptx_derive_rels_path() {
    assert_eq!(
        derive_rels_path("ppt/slides/slide1.xml"),
        "ppt/slides/_rels/slide1.xml.rels"
    );
    assert_eq!(
        derive_rels_path("ppt/presentation.xml"),
        "ppt/_rels/presentation.xml.rels"
    );
    assert_eq!(derive_rels_path("file.xml"), "_rels/file.xml.rels");
}

#[test]
fn test_pptx_resolve_relative_path() {
    assert_eq!(
        resolve_relative_path("ppt/slides/slide1.xml", "../media/image1.png"),
        "ppt/media/image1.png"
    );
    assert_eq!(
        resolve_relative_path("ppt/slides/slide1.xml", "../notesSlides/notesSlide1.xml"),
        "ppt/notesSlides/notesSlide1.xml"
    );
    assert_eq!(
        resolve_relative_path("ppt/slides/slide1.xml", "chart1.xml"),
        "ppt/slides/chart1.xml"
    );
}
