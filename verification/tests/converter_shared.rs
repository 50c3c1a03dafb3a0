use anytomd::converter::{decode_text, mime_from_image, replace_image_alt_by_placeholder, WarningCode};

#[test]
fn test_decode_text_utf8_passthrough() {
    let (text, warning) = decode_text(b"Hello, world!");
    assert_eq!(text, "Hello, world!");
    assert!(warning.is_none());
}

#[test]
fn test_decode_text_utf8_bom_stripped() {
    let mut input = vec![0xEF, 0xBB, 0xBF]; // UTF-8 BOM
    input.extend_from_slice(b"BOM content");
    let (text, warning) = decode_text(&input);
    assert_eq!(text, "BOM content");
    assert!(warning.is_none());
}

#[test]
fn test_decode_text_utf16_le_bom() {
    // UTF-16 LE BOM + "AB"
    let input: Vec<u8> = vec![0xFF, 0xFE, b'A', 0x00, b'B', 0x00];
    let (text, warning) = decode_text(&input);
    assert_eq!(text, "AB");
    assert!(warning.is_some());
}

#[test]
fn test_decode_text_utf16_be_bom() {
    // UTF-16 BE BOM + "AB"
    let input: Vec<u8> = vec![0xFE, 0xFF, 0x00, b'A', 0x00, b'B'];
    let (text, warning) = decode_text(&input);
    assert_eq!(text, "AB");
    assert!(warning.is_some());
}

#[test]
fn test_decode_text_windows_1252_fallback() {
    // 0xE9 = é in Windows-1252
    let input = b"caf\xe9";
    let (text, warning) = decode_text(input);
    assert_eq!(text, "café");
    assert!(warning.is_some());
    let w = warning.unwrap();
    assert_eq!(w.code, WarningCode::UnsupportedFeature);
}

#[test]
fn test_decode_text_cjk_utf8() {
    let input = "한국어 中文 日本語".as_bytes();
    let (text, warning) = decode_text(input);
    assert_eq!(text, "한국어 中文 日本語");
    assert!(warning.is_none());
}

// ---- MIME detection tests ----

#[test]
fn test_mime_from_image_png_magic_bytes() {
    let png_header = [0x89, b'P', b'N', b'G', 0x0D, 0x0A, 0x1A, 0x0A];
    assert_eq!(mime_from_image("image.png", &png_header), "image/png");
    // Magic bytes take priority over extension
    assert_eq!(mime_from_image("image.jpg", &png_header), "image/png");
}

#[test]
fn test_mime_from_image_jpeg_magic_bytes() {
    let jpeg_header = [0xFF, 0xD8, 0xFF, 0xE0, 0x00, 0x10, 0x4A, 0x46];
    assert_eq!(mime_from_image("photo.jpg", &jpeg_header), "image/jpeg");
}

#[test]
fn test_mime_from_image_gif_magic_bytes() {
    assert_eq!(mime_from_image("anim.gif", b"GIF89a.."), "image/gif");
    assert_eq!(mime_from_image("old.gif", b"GIF87a.."), "image/gif");
}

#[test]
fn test_mime_from_image_webp_magic_bytes() {
    let webp = b"RIFF\x00\x00\x00\x00WEBP";
    assert_eq!(mime_from_image("photo.webp", webp), "image/webp");
}

#[test]
fn test_mime_from_image_extension_fallback() {
    let empty = b"unknown";
    assert_eq!(mime_from_image("file.png", empty), "image/png");
    assert_eq!(mime_from_image("file.jpg", empty), "image/jpeg");
    assert_eq!(mime_from_image("file.jpeg", empty), "image/jpeg");
    assert_eq!(mime_from_image("file.gif", empty), "image/gif");
    assert_eq!(mime_from_image("file.webp", empty), "image/webp");
    assert_eq!(mime_from_image("file.bmp", empty), "image/bmp");
    assert_eq!(mime_from_image("file.tiff", empty), "image/tiff");
    assert_eq!(mime_from_image("file.svg", empty), "image/svg+xml");
    assert_eq!(mime_from_image("file.heic", empty), "image/heic");
    assert_eq!(mime_from_image("file.heif", empty), "image/heic");
    assert_eq!(mime_from_image("file.avif", empty), "image/avif");
    assert_eq!(
        mime_from_image("file.xyz", empty),
        "application/octet-stream"
    );
}

// ---- ConversionOptions tests ----

#[test]
fn test_replace_image_alt_placeholder_match() {
    let md = "![__img_0__](cat.png)";
    let result = replace_image_alt_by_placeholder(md, "__img_0__", "A cute cat", "cat.png");
    assert_eq!(result, "![A cute cat](cat.png)");
}

#[test]
fn test_replace_image_alt_placeholder_no_match() {
    let md = "![__img_0__](cat.png)";
    let result = replace_image_alt_by_placeholder(md, "__img_99__", "description", "cat.png");
    assert_eq!(result, md);
}

#[test]
fn test_replace_image_alt_placeholder_only_first_occurrence() {
    let md = "![__img_0__](cat.png) and ![__img_0__](cat.png)";
    let result = replace_image_alt_by_placeholder(md, "__img_0__", "A cat", "cat.png");
    assert_eq!(result, "![A cat](cat.png) and ![__img_0__](cat.png)");
}

#[test]
fn test_replace_image_alt_placeholder_same_filename_different_placeholders() {
    let md = "![__img_0__](logo.png)\n![__img_1__](logo.png)";
    let result = replace_image_alt_by_placeholder(md, "__img_1__", "Second logo", "logo.png");
    assert!(result.contains("![__img_0__](logo.png)"));
    assert!(result.contains("![Second logo](logo.png)"));
}
