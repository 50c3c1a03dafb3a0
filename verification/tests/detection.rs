use std::path::PathBuf;

use anytomd::detection::detect_format;


#[test]
fn test_detect_format_docx_by_extension() {
    let path = PathBuf::from("document.docx");
    assert_eq!(detect_format(path.to_str().unwrap(), &[]), Some("docx"));
}

#[test]
fn test_detect_format_pptx_by_extension() {
    let path = PathBuf::from("slides.pptx");
    assert_eq!(detect_format(path.to_str().unwrap(), &[]), Some("pptx"));
}

#[test]
fn test_detect_format_xlsx_by_extension() {
    let path = PathBuf::from("data.xlsx");
    assert_eq!(detect_format(path.to_str().unwrap(), &[]), Some("xlsx"));
}

#[test]
fn test_detect_format_csv_by_extension() {
    let path = PathBuf::from("data.csv");
    assert_eq!(detect_format(path.to_str().unwrap(), &[]), Some("csv"));
}

#[test]
fn test_detect_format_json_by_extension() {
    let path = PathBuf::from("config.json");
    assert_eq!(detect_format(path.to_str().unwrap(), &[]), Some("json"));
}

#[test]
fn test_detect_format_txt_by_extension() {
    let path = PathBuf::from("readme.txt");
    assert_eq!(detect_format(path.to_str().unwrap(), &[]), Some("txt"));
}

#[test]
fn test_detect_format_text_variants() {
    for ext in &[
        "log", "md", "markdown", "rst", "ini", "cfg", "conf", "toml", "yaml", "yml",
    ] {
        let path = PathBuf::from(format!("file.{}", ext));
        assert_eq!(
            detect_format(path.to_str().unwrap(), &[]),
            Some("txt"),
            "expected 'txt' for .{}",
            ext
        );
    }
}

#[test]
fn test_detect_format_pdf_by_extension() {
    let path = PathBuf::from("paper.pdf");
    assert_eq!(detect_format(path.to_str().unwrap(), &[]), Some("pdf"));
}

#[test]
fn test_detect_format_html_by_extension() {
    let path = PathBuf::from("page.html");
    assert_eq!(detect_format(path.to_str().unwrap(), &[]), Some("html"));
    let path2 = PathBuf::from("page.htm");
    assert_eq!(detect_format(path2.to_str().unwrap(), &[]), Some("html"));
}

#[test]
fn test_detect_format_unknown_returns_none() {
    let path = PathBuf::from("file.xyz");
    assert_eq!(detect_format(path.to_str().unwrap(), &[]), None);
}

#[test]
fn test_detect_format_no_extension_returns_none() {
    let path = PathBuf::from("Makefile");
    assert_eq!(detect_format(path.to_str().unwrap(), &[]), None);
}

#[test]
fn test_detect_format_zip_magic_bytes_override_extension() {
    let path = PathBuf::from("data.csv");
    let zip_header = [0x50, 0x4B, 0x03, 0x04];
    // ZIP magic bytes should win over .csv extension
    assert_eq!(detect_format(path.to_str().unwrap(), &zip_header), Some("zip"));
}

#[test]
fn test_detect_format_pdf_magic_bytes_override_extension() {
    let path = PathBuf::from("file.txt");
    let pdf_header = b"%PDF-1.7";
    assert_eq!(detect_format(path.to_str().unwrap(), pdf_header), Some("pdf"));
}

#[test]
fn test_detect_format_json_heuristic_object() {
    let path = PathBuf::from("data.bin");
    let json_bytes = b"  { \"key\": \"value\" }";
    assert_eq!(detect_format(path.to_str().unwrap(), json_bytes), Some("json"));
}

#[test]
fn test_detect_format_json_heuristic_array() {
    let path = PathBuf::from("data.bin");
    let json_bytes = b"[1, 2, 3]";
    assert_eq!(detect_format(path.to_str().unwrap(), json_bytes), Some("json"));
}

#[test]
fn test_detect_format_png_by_extension() {
    let path = PathBuf::from("photo.png");
    assert_eq!(detect_format(path.to_str().unwrap(), &[]), Some("image"));
}

#[test]
fn test_detect_format_jpg_by_extension() {
    let path = PathBuf::from("photo.jpg");
    assert_eq!(detect_format(path.to_str().unwrap(), &[]), Some("image"));
}

#[test]
fn test_detect_format_jpeg_by_extension() {
    let path = PathBuf::from("photo.jpeg");
    assert_eq!(detect_format(path.to_str().unwrap(), &[]), Some("image"));
}

#[test]
fn test_detect_format_svg_by_extension() {
    let path = PathBuf::from("icon.svg");
    assert_eq!(detect_format(path.to_str().unwrap(), &[]), Some("image"));
}

#[test]
fn test_detect_format_image_variants() {
    for ext in &[
        "png", "jpg", "jpeg", "gif", "webp", "bmp", "tiff", "tif", "svg", "heic", "heif",
        "avif",
    ] {
        let path = PathBuf::from(format!("file.{}", ext));
        assert_eq!(
            detect_format(path.to_str().unwrap(), &[]),
            Some("image"),
            "expected 'image' for .{}",
            ext
        );
    }
}
