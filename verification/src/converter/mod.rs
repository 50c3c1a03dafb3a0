//! Shared conversion types and helpers: warnings, options, results, text
//! decoding with encoding fallback, image MIME sniffing and image
//! placeholder resolution.


use vstd::prelude::*;

pub mod code;
pub mod csv;
pub mod csv_conv;
pub mod docx;
pub mod docx_body;
pub mod docx_comments;
pub mod docx_styles;
pub mod gemini;
pub mod html;
pub mod html_table;
pub mod image;
pub mod ipynb;
pub mod json;
pub mod json_conv;
pub mod plain_text;
pub mod pptx;
pub mod xlsx;
pub mod xml;
pub mod ooxml_utils;

use crate::error::ConvertError;
use crate::text::{
    chars_of, contains_seq, eq_str, first_occurrence, find, has_prefix, lower_ascii, push_all, push_str,
    slice_chars, string_from_chars, to_ascii_lower,
};

verus! {

broadcast use vstd::string::group_string_axioms;

/// Categories for recoverable conversion warnings.
#[derive(Debug, Clone, Copy, PartialEq, Eq, Structural)]
pub enum WarningCode {
    SkippedElement,
    UnsupportedFeature,
    ResourceLimitReached,
    MalformedSegment,
}

/// A recoverable issue encountered during conversion.
#[derive(Debug)]
pub struct ConversionWarning {
    pub code: WarningCode,
    pub message: String,
    pub location: Option<String>,
}

/// Options controlling conversion behavior.
#[derive(Debug, Clone, Copy)]
pub struct ConversionOptions {
    /// Extract embedded images into `ConversionResult.images`.
    pub extract_images: bool,
    /// Hard cap for total extracted image bytes per document.
    pub max_total_image_bytes: usize,
    /// If true, return an error on recoverable parse failures instead of warnings.
    pub strict: bool,
    /// Maximum input file size in bytes. Larger inputs are rejected.
    pub max_input_bytes: usize,
    /// Maximum total uncompressed size of entries in a ZIP-based document.
    pub max_uncompressed_zip_bytes: usize,
    /// Append the comments of a DOCX document as a trailing section.
    pub extract_comments: bool,
}

impl ConversionOptions {
    /// The default limits: 50 MB of images, 100 MB of input, 500 MB of
    /// uncompressed ZIP content; no image extraction, not strict, no comments.
    pub open spec fn spec_default() -> ConversionOptions {
        ConversionOptions {
            extract_images: false,
            max_total_image_bytes: 52428800,
            strict: false,
            max_input_bytes: 104857600,
            max_uncompressed_zip_bytes: 524288000,
            extract_comments: false,
        }
    }
}

impl Default for ConversionOptions {
    fn default() -> (r: Self)
        ensures
            r == ConversionOptions::spec_default(),
    {
        ConversionOptions {
            extract_images: false,
            max_total_image_bytes: 50 * 1024 * 1024,
            strict: false,
            max_input_bytes: 100 * 1024 * 1024,
            max_uncompressed_zip_bytes: 500 * 1024 * 1024,
            extract_comments: false,
        }
    }
}

/// The result of converting a document to Markdown.
#[derive(Debug)]
pub struct ConversionResult {
    /// Converted Markdown content.
    pub markdown: String,
    /// The same content as plain text, without Markdown markers.
    pub plain_text: String,
    /// Document title, if detected.
    pub title: Option<String>,
    /// Extracted images as (filename, bytes) pairs.
    pub images: Vec<(String, Vec<u8>)>,
    /// Recoverable issues encountered during conversion.
    pub warnings: Vec<ConversionWarning>,
}

impl ConversionResult {
    /// A result holding only `markdown` and `plain_text`.
    pub fn text_only(markdown: String, plain_text: String) -> (r: ConversionResult)
        ensures
            r.markdown@ == markdown@,
            r.plain_text@ == plain_text@,
            r.title is None,
            r.images@.len() == 0,
            r.warnings@.len() == 0,
    {
        ConversionResult {
            markdown,
            plain_text,
            title: None,
            images: Vec::new(),
            warnings: Vec::new(),
        }
    }
}

impl Default for ConversionResult {
    fn default() -> (r: Self)
        ensures
            r.markdown@.len() == 0,
            r.plain_text@.len() == 0,
            r.title is None,
            r.images@.len() == 0,
            r.warnings@.len() == 0,
    {
        ConversionResult::text_only(String::new(), String::new())
    }
}

/// A warning with the given code, message and location.
pub fn warning(code: WarningCode, message: Vec<char>, location: Option<String>) -> (w:
    ConversionWarning)
    ensures
        w.code == code,
        w.message@ == message@,
        w.location == location,
{
    ConversionWarning { code, message: string_from_chars(message.as_slice()), location }
}

// ---------------------------------------------------------------------------
// Text decoding
// ---------------------------------------------------------------------------

/// The encodings the text decoder can fall back to.
#[derive(Debug, Clone, Copy, PartialEq, Eq, Structural)]
pub enum TextEncoding {
    Utf8,
    Utf16Le,
    Utf16Be,
    Windows1252,
}

/// The byte-order mark detection of `encoding_rs::Encoding::for_bom`:
/// `EF BB BF` is UTF-8, `FF FE` is UTF-16LE, `FE FF` is UTF-16BE.
pub open spec fn bom_of(data: Seq<u8>) -> Option<(TextEncoding, nat)> {
    if data.len() >= 3 && data[0] == 0xEF && data[1] == 0xBB && data[2] == 0xBF {
        Some((TextEncoding::Utf8, 3))
    } else if data.len() >= 2 && data[0] == 0xFF && data[1] == 0xFE {
        Some((TextEncoding::Utf16Le, 2))
    } else if data.len() >= 2 && data[0] == 0xFE && data[1] == 0xFF {
        Some((TextEncoding::Utf16Be, 2))
    } else {
        None
    }
}

/// The WHATWG name of an encoding (`encoding_rs::Encoding::name`).
pub open spec fn encoding_name(e: TextEncoding) -> Seq<char> {
    match e {
        TextEncoding::Utf8 => "UTF-8"@,
        TextEncoding::Utf16Le => "UTF-16LE"@,
        TextEncoding::Utf16Be => "UTF-16BE"@,
        TextEncoding::Windows1252 => "windows-1252"@,
    }
}

/// What `encoding_rs` decodes from `bytes` with encoding `e`
/// (`Encoding::decode`): the text, and whether malformed sequences were
/// replaced.
pub uninterp spec fn decoded_with(e: TextEncoding, bytes: Seq<u8>) -> (Seq<char>, bool);

/// Decodes `bytes` with `encoding_rs` (`Encoding::decode`).
#[verifier::external_body]
fn decode_with(e: TextEncoding, bytes: &[u8]) -> (r: (String, bool))
    ensures
        (r.0@, r.1) == decoded_with(e, bytes@),
{
    let enc = match e {
        TextEncoding::Utf8 => encoding_rs::UTF_8,
        TextEncoding::Utf16Le => encoding_rs::UTF_16LE,
        TextEncoding::Utf16Be => encoding_rs::UTF_16BE,
        TextEncoding::Windows1252 => encoding_rs::WINDOWS_1252,
    };
    let (text, _used, had_errors) = enc.decode(bytes);
    (text.into_owned(), had_errors)
}

/// `s` without a leading U+FEFF.
pub open spec fn strip_bom_spec(s: Seq<char>) -> Seq<char> {
    if s.len() > 0 && s[0] == '\u{feff}' {
        s.drop_first()
    } else {
        s
    }
}

/// The warning message for a fallback decoding.
pub open spec fn decode_warning_message(e: TextEncoding, fallback: bool, had_errors: bool) -> Seq<
    char,
> {
    if had_errors {
        "replacement characters inserted during "@ + encoding_name(e) + " decoding"@
    } else if fallback {
        "decoded from windows-1252 encoding (fallback)"@
    } else {
        "decoded from "@ + encoding_name(e) + " encoding"@
    }
}

/// The text decoded from raw bytes and whether a warning accompanies it, with
/// the warning's code and message: valid UTF-8 passes through without a
/// warning (a leading BOM removed); otherwise a detected BOM selects UTF-8 or
/// UTF-16, and without one Windows-1252 is used.
pub open spec fn decode_text_spec(data: Seq<u8>) -> (Seq<char>, Option<(WarningCode, Seq<char>)>) {
    if vstd::utf8::valid_utf8(data) {
        (strip_bom_spec(vstd::utf8::decode_utf8(data)), None)
    } else {
        let (e, fallback, rest) = match bom_of(data) {
            Some((e, n)) => (e, false, data.subrange(n as int, data.len() as int)),
            None => (TextEncoding::Windows1252, true, data),
        };
        let (text, errs) = decoded_with(e, rest);
        let code = if errs {
            WarningCode::MalformedSegment
        } else {
            WarningCode::UnsupportedFeature
        };
        (text, Some((code, decode_warning_message(e, fallback, errs))))
    }
}

/// The view of a decoding outcome.
pub open spec fn decoded_view(r: (String, Option<ConversionWarning>)) -> (
    Seq<char>,
    Option<(WarningCode, Seq<char>)>,
) {
    (
        r.0@,
        match r.1 {
            Some(w) => Some((w.code, w.message@)),
            None => None,
        },
    )
}

/// `s` without a leading U+FEFF.
pub fn strip_bom(s: &[char]) -> (v: Vec<char>)
    ensures
        v@ == strip_bom_spec(s@),
{
    if s.len() > 0 && s[0] == '\u{feff}' {
        slice_chars(s, 1, s.len())
    } else {
        slice_chars(s, 0, s.len())
    }
}

fn bom(data: &[u8]) -> (r: Option<(TextEncoding, usize)>)
    ensures
        r matches Some((e, n)) ==> bom_of(data@) == Some((e, n as nat)),
        r is None ==> bom_of(data@) is None,
{
    if data.len() >= 3 && data[0] == 0xEF && data[1] == 0xBB && data[2] == 0xBF {
        Some((TextEncoding::Utf8, 3))
    } else if data.len() >= 2 && data[0] == 0xFF && data[1] == 0xFE {
        Some((TextEncoding::Utf16Le, 2))
    } else if data.len() >= 2 && data[0] == 0xFE && data[1] == 0xFF {
        Some((TextEncoding::Utf16Be, 2))
    } else {
        None
    }
}

fn push_encoding_name(out: &mut Vec<char>, e: TextEncoding)
    ensures
        final(out)@ == old(out)@ + encoding_name(e),
{
    match e {
        TextEncoding::Utf8 => push_str(out, "UTF-8"),
        TextEncoding::Utf16Le => push_str(out, "UTF-16LE"),
        TextEncoding::Utf16Be => push_str(out, "UTF-16BE"),
        TextEncoding::Windows1252 => push_str(out, "windows-1252"),
    }
}

/// Decodes raw bytes to text, handling BOM detection and encoding fallback.
///
/// Returns the decoded text and a warning when an encoding other than UTF-8
/// was used (see [`decode_text_spec`]).
pub fn decode_text(data: &[u8]) -> (r: (String, Option<ConversionWarning>))
    ensures
        decoded_view(r) == decode_text_spec(data@),
        r.1 matches Some(w) ==> w.location is None,
{
    match crate::zip_io::utf8_to_string(data) {
        Some(text) => {
            let c = chars_of(text.as_str());
            let s = strip_bom(c.as_slice());
            return (string_from_chars(s.as_slice()), None);
        },
        None => {},
    }
    let (e, fallback, start) = match bom(data) {
        Some((e, n)) => (e, false, n),
        None => (TextEncoding::Windows1252, true, 0),
    };
    let rest = crate::text::bytes_slice(data, start, data.len());
    proof {
        if fallback {
            assert(rest@ =~= data@);
        }
    }
    let (text, errs) = decode_with(e, rest.as_slice());
    let mut msg: Vec<char> = Vec::new();
    if errs {
        push_str(&mut msg, "replacement characters inserted during ");
        push_encoding_name(&mut msg, e);
        push_str(&mut msg, " decoding");
    } else if fallback {
        push_str(&mut msg, "decoded from windows-1252 encoding (fallback)");
    } else {
        push_str(&mut msg, "decoded from ");
        push_encoding_name(&mut msg, e);
        push_str(&mut msg, " encoding");
    }
    let code = if errs {
        WarningCode::MalformedSegment
    } else {
        WarningCode::UnsupportedFeature
    };
    proof {
        assert(msg@ =~= decode_warning_message(e, fallback, errs));
    }
    (text, Some(warning(code, msg, None)))
}

// ---------------------------------------------------------------------------
// Image MIME sniffing
// ---------------------------------------------------------------------------

/// The part of a file name after its last `.` (the whole name without one).
pub open spec fn after_last_dot(name: Seq<char>) -> Seq<char> {
    match crate::detection::last_index_of(name, '.') {
        Some(i) => name.subrange(i + 1, name.len() as int),
        None => name,
    }
}

/// The MIME type implied by a lower-cased image file extension.
pub open spec fn mime_for_ext(e: Seq<char>) -> &'static str {
    if e == "png"@ {
        "image/png"
    } else if e == "jpg"@ || e == "jpeg"@ {
        "image/jpeg"
    } else if e == "gif"@ {
        "image/gif"
    } else if e == "webp"@ {
        "image/webp"
    } else if e == "bmp"@ {
        "image/bmp"
    } else if e == "tiff"@ || e == "tif"@ {
        "image/tiff"
    } else if e == "svg"@ {
        "image/svg+xml"
    } else if e == "heic"@ || e == "heif"@ {
        "image/heic"
    } else if e == "avif"@ {
        "image/avif"
    } else {
        "application/octet-stream"
    }
}

/// MIME type of an image: magic bytes first (only for data of at least 8
/// bytes), then the file name's extension.
pub open spec fn mime_spec(filename: Seq<char>, data: Seq<u8>) -> &'static str {
    if data.len() >= 8 && crate::detection::bytes_prefix(
        data,
        seq![0x89u8, 0x50u8, 0x4Eu8, 0x47u8, 0x0Du8, 0x0Au8, 0x1Au8, 0x0Au8],
    ) {
        "image/png"
    } else if data.len() >= 8 && crate::detection::bytes_prefix(data, seq![0xFFu8, 0xD8u8, 0xFFu8]) {
        "image/jpeg"
    } else if data.len() >= 8 && (crate::detection::bytes_prefix(
        data,
        seq![0x47u8, 0x49u8, 0x46u8, 0x38u8, 0x37u8, 0x61u8],
    ) || crate::detection::bytes_prefix(
        data,
        seq![0x47u8, 0x49u8, 0x46u8, 0x38u8, 0x39u8, 0x61u8],
    )) {
        "image/gif"
    } else if data.len() >= 12 && crate::detection::bytes_prefix(
        data,
        seq![0x52u8, 0x49u8, 0x46u8, 0x46u8],
    ) && data.subrange(8, 12) == seq![0x57u8, 0x45u8, 0x42u8, 0x50u8] {
        "image/webp"
    } else {
        mime_for_ext(lower_ascii(after_last_dot(filename)))
    }
}

fn bytes_at(data: &[u8], at: usize, p: &[u8]) -> (r: bool)
    requires
        at <= data.len(),
    ensures
        r == (at + p.len() <= data.len() && data@.subrange(at as int, at + p.len()) == p@),
{
    if p.len() > data.len() - at {
        return false;
    }
    let mut i: usize = 0;
    while i < p.len()
        invariant
            at + p.len() <= data.len(),
            i <= p.len(),
            forall|k: int| 0 <= k < i ==> data@[at + k] == p@[k],
        decreases p.len() - i,
    {
        if data[at + i] != p[i] {
            assert(data@.subrange(at as int, at + p.len())[i as int] != p@[i as int]);
            return false;
        }
        i = i + 1;
    }
    assert(data@.subrange(at as int, at + p.len()) =~= p@);
    true
}

/// The MIME type for a lower-cased image extension.
pub fn mime_for_extension(e: &[char]) -> (r: &'static str)
    ensures
        r == mime_for_ext(e@),
{
    if eq_str(e, "png") {
        "image/png"
    } else if eq_str(e, "jpg") || eq_str(e, "jpeg") {
        "image/jpeg"
    } else if eq_str(e, "gif") {
        "image/gif"
    } else if eq_str(e, "webp") {
        "image/webp"
    } else if eq_str(e, "bmp") {
        "image/bmp"
    } else if eq_str(e, "tiff") || eq_str(e, "tif") {
        "image/tiff"
    } else if eq_str(e, "svg") {
        "image/svg+xml"
    } else if eq_str(e, "heic") || eq_str(e, "heif") {
        "image/heic"
    } else if eq_str(e, "avif") {
        "image/avif"
    } else {
        "application/octet-stream"
    }
}

/// The part of `name` after its last `.`.
pub fn extension_after_dot(name: &[char]) -> (v: Vec<char>)
    ensures
        v@ == after_last_dot(name@),
{
    match crate::text::last_index(name, '.') {
        Some(i) => slice_chars(name, i + 1, name.len()),
        None => slice_chars(name, 0, name.len()),
    }
}

/// Infers a MIME type from an image's magic bytes, falling back to the
/// filename extension and then to `application/octet-stream`.
pub fn mime_from_image(filename: &str, data: &[u8]) -> (r: &'static str)
    ensures
        r == mime_spec(filename@, data@),
{
    if data.len() >= 8 {
        let png: [u8; 8] = [0x89, 0x50, 0x4E, 0x47, 0x0D, 0x0A, 0x1A, 0x0A];
        let jpg: [u8; 3] = [0xFF, 0xD8, 0xFF];
        let gif7: [u8; 6] = [0x47, 0x49, 0x46, 0x38, 0x37, 0x61];
        let gif9: [u8; 6] = [0x47, 0x49, 0x46, 0x38, 0x39, 0x61];
        let riff: [u8; 4] = [0x52, 0x49, 0x46, 0x46];
        let webp: [u8; 4] = [0x57, 0x45, 0x42, 0x50];
        assert(png@ =~= seq![0x89u8, 0x50u8, 0x4Eu8, 0x47u8, 0x0Du8, 0x0Au8, 0x1Au8, 0x0Au8]);
        assert(jpg@ =~= seq![0xFFu8, 0xD8u8, 0xFFu8]);
        assert(gif7@ =~= seq![0x47u8, 0x49u8, 0x46u8, 0x38u8, 0x37u8, 0x61u8]);
        assert(gif9@ =~= seq![0x47u8, 0x49u8, 0x46u8, 0x38u8, 0x39u8, 0x61u8]);
        assert(riff@ =~= seq![0x52u8, 0x49u8, 0x46u8, 0x46u8]);
        assert(webp@ =~= seq![0x57u8, 0x45u8, 0x42u8, 0x50u8]);
        if bytes_at(data, 0, png.as_slice()) {
            return "image/png";
        }
        if bytes_at(data, 0, jpg.as_slice()) {
            return "image/jpeg";
        }
        if bytes_at(data, 0, gif7.as_slice()) || bytes_at(data, 0, gif9.as_slice()) {
            return "image/gif";
        }
        if data.len() >= 12 && bytes_at(data, 0, riff.as_slice()) && bytes_at(
            data,
            8,
            webp.as_slice(),
        ) {
            return "image/webp";
        }
    }
    let name = chars_of(filename);
    let ext = extension_after_dot(name.as_slice());
    let lower = to_ascii_lower(ext.as_slice());
    mime_for_extension(lower.as_slice())
}

// ---------------------------------------------------------------------------
// Image placeholders
// ---------------------------------------------------------------------------

/// The Markdown image `![alt](filename)`.
pub open spec fn image_md(alt: Seq<char>, filename: Seq<char>) -> Seq<char> {
    seq!['!', '['] + alt + seq![']', '('] + filename + seq![')']
}

/// `markdown` with its first `![placeholder](filename)` rewritten to
/// `![description](filename)`; unchanged when there is none.
pub open spec fn replace_placeholder_spec(
    markdown: Seq<char>,
    placeholder: Seq<char>,
    description: Seq<char>,
    filename: Seq<char>,
) -> Seq<char> {
    let target = image_md(placeholder, filename);
    match first_occurrence(markdown, target) {
        Some(pos) => markdown.subrange(0, pos) + image_md(description, filename)
            + markdown.subrange(pos + target.len(), markdown.len() as int),
        None => markdown,
    }
}

/// Builds `![alt](filename)`.
pub fn build_image_md(alt: &[char], filename: &[char]) -> (v: Vec<char>)
    ensures
        v@ == image_md(alt@, filename@),
{
    let mut v: Vec<char> = Vec::new();
    v.push('!');
    v.push('[');
    push_all(&mut v, alt);
    v.push(']');
    v.push('(');
    push_all(&mut v, filename);
    v.push(')');
    assert(v@ =~= image_md(alt@, filename@));
    v
}

/// Replaces the first `![placeholder](filename)` in `markdown` with
/// `![description](filename)` (see [`replace_placeholder_spec`]).
pub fn replace_image_alt_by_placeholder(
    markdown: &str,
    placeholder: &str,
    description: &str,
    filename: &str,
) -> (r: String)
    ensures
        r@ == replace_placeholder_spec(markdown@, placeholder@, description@, filename@),
{
    let md = chars_of(markdown);
    let p = chars_of(placeholder);
    let d = chars_of(description);
    let f = chars_of(filename);
    let v = replace_placeholder_chars(md.as_slice(), p.as_slice(), d.as_slice(), f.as_slice());
    string_from_chars(v.as_slice())
}

/// [`replace_image_alt_by_placeholder`] over character slices.
pub fn replace_placeholder_chars(md: &[char], p: &[char], d: &[char], f: &[char]) -> (v: Vec<
    char,
>)
    ensures
        v@ == replace_placeholder_spec(md@, p@, d@, f@),
{
    let target = build_image_md(p, f);
    let ts = target.as_slice();
    let tl = ts.len();
    match find(md, ts) {
        Some(pos) => {
            assert(pos + tl <= md.len());
            let mut out = slice_chars(md, 0, pos);
            let rep = build_image_md(d, f);
            push_all(&mut out, rep.as_slice());
            let tail = slice_chars(md, pos + tl, md.len());
            push_all(&mut out, tail.as_slice());
            assert(out@ == md@.subrange(0, pos as int) + image_md(d@, f@) + md@.subrange(
                pos + target@.len(),
                md@.len() as int,
            ));
            out
        },
        None => {
            assert(md@.subrange(0, md@.len() as int) =~= md@);
            slice_chars(md, 0, md.len())
        },
    }
}

/// `s` with its first occurrence of `pat` replaced by `rep`; unchanged when
/// there is none.
pub open spec fn replace_first_spec(s: Seq<char>, pat: Seq<char>, rep: Seq<char>) -> Seq<char> {
    match first_occurrence(s, pat) {
        Some(pos) => s.subrange(0, pos) + rep + s.subrange(pos + pat.len(), s.len() as int),
        None => s,
    }
}

/// Replaces the first occurrence of `pat` in `s` by `rep` (see
/// [`replace_first_spec`]).
pub fn replace_first(s: &str, pat: &str, rep: &str) -> (r: String)
    ensures
        r@ == replace_first_spec(s@, pat@, rep@),
{
    let sc = chars_of(s);
    let pc = chars_of(pat);
    match find(sc.as_slice(), pc.as_slice()) {
        Some(pos) => {
            assert(pos + pc.len() <= sc.len());
            let mut out = slice_chars(sc.as_slice(), 0, pos);
            push_str(&mut out, rep);
            let tail = slice_chars(sc.as_slice(), pos + pc.len(), sc.len());
            push_all(&mut out, tail.as_slice());
            assert(out@ =~= replace_first_spec(s@, pat@, rep@));
            string_from_chars(out.as_slice())
        },
        None => string_from_chars(sc.as_slice()),
    }
}

/// Information about an image placed in the markdown with a placeholder.
#[derive(Debug)]
pub struct ImageInfo {
    /// The unique alt-text placeholder, e.g. `__img_0__`.
    pub placeholder: String,
    /// The alt text from the document, used when no description is made.
    pub original_alt: String,
    /// The image file name used in the markdown link.
    pub filename: String,
    /// The key under which the image bytes are stored.
    pub bytes_key: String,
}

/// Images collected by a converter, awaiting placeholder resolution.
#[derive(Debug)]
pub struct PendingImageResolution {
    pub infos: Vec<ImageInfo>,
    /// Image bytes by key; a later entry for the same key supersedes earlier ones.
    pub bytes: Vec<(String, Vec<u8>)>,
}

/// Trait for generating image descriptions using an LLM or other backend.
///
/// Implementors receive raw image bytes and return a textual description.
pub trait ImageDescriber {
    /// Describe the given image.
    fn describe(&self, image_bytes: &[u8], mime_type: &str, prompt: &str) -> Result<
        String,
        ConvertError,
    >;
}

/// The describer type of conversions made without a describer; it never
/// describes anything.
pub struct NoDescriber;

impl ImageDescriber for NoDescriber {
    fn describe(&self, image_bytes: &[u8], mime_type: &str, prompt: &str) -> (r: Result<
        String,
        ConvertError,
    >)
        ensures
            r matches Err(ConvertError::ImageDescriptionError { reason }) && reason@.len() == 0,
    {
        Err(ConvertError::ImageDescriptionError { reason: String::new() })
    }
}

/// The prompt handed to an image describer.
pub open spec fn describe_prompt() -> Seq<char> {
    "Describe this image concisely for use as alt text."@
}

/// The bytes stored under `key` (the last entry with that key).
pub open spec fn lookup_bytes(bytes: Seq<(String, Vec<u8>)>, key: Seq<char>) -> Option<Seq<u8>>
    decreases bytes.len(),
{
    if bytes.len() == 0 {
        None
    } else if bytes.last().0@ == key {
        Some(bytes.last().1@)
    } else {
        lookup_bytes(bytes.drop_last(), key)
    }
}

/// Finds the bytes stored under `key`.
pub fn find_bytes<'a>(bytes: &'a Vec<(String, Vec<u8>)>, key: &str) -> (r: Option<&'a Vec<u8>>)
    ensures
        r matches Some(b) ==> lookup_bytes(bytes@, key@) == Some(b@),
        r is None ==> lookup_bytes(bytes@, key@) is None,
{
    let mut j = bytes.len();
    let k = chars_of(key);
    assert(bytes@.subrange(0, bytes.len() as int) =~= bytes@);
    while j > 0
        invariant
            j <= bytes.len(),
            k@ == key@,
            lookup_bytes(bytes@.subrange(0, j as int), key@) == lookup_bytes(bytes@, key@),
        decreases j,
    {
        assert(bytes@.subrange(0, j as int).drop_last() =~= bytes@.subrange(0, j - 1));
        let n = chars_of(bytes[j - 1].0.as_str());
        if crate::text::eq_chars(n.as_slice(), k.as_slice()) {
            return Some(&bytes[j - 1].1);
        }
        j = j - 1;
    }
    None
}

/// A warning as plain values: code, message and location.
pub open spec fn warn_view(w: ConversionWarning) -> (WarningCode, Seq<char>, Option<Seq<char>>) {
    (
        w.code,
        w.message@,
        match w.location {
            Some(l) => Some(l@),
            None => None,
        },
    )
}

/// The views of some warnings.
pub open spec fn warns_view(ws: Seq<ConversionWarning>) -> Seq<
    (WarningCode, Seq<char>, Option<Seq<char>>),
> {
    ws.map_values(|w: ConversionWarning| warn_view(w))
}

/// An image placed in the text as plain values: placeholder, alt text,
/// file name and the key of its bytes.
pub open spec fn img_view(i: ImageInfo) -> (Seq<char>, Seq<char>, Seq<char>, Seq<char>) {
    (i.placeholder@, i.original_alt@, i.filename@, i.bytes_key@)
}

/// The views of some images.
pub open spec fn imgs_view(v: Seq<ImageInfo>) -> Seq<(Seq<char>, Seq<char>, Seq<char>, Seq<char>)> {
    v.map_values(|i: ImageInfo| img_view(i))
}

/// Replaces each image placeholder with its original alt text.
pub open spec fn resolve_without_describer(
    md: Seq<char>,
    infos: Seq<(Seq<char>, Seq<char>, Seq<char>, Seq<char>)>,
) -> Seq<char>
    decreases infos.len(),
{
    if infos.len() == 0 {
        md
    } else {
        replace_placeholder_spec(
            resolve_without_describer(md, infos.drop_last()),
            infos.last().0,
            infos.last().1,
            infos.last().2,
        )
    }
}

/// Replaces each bare image placeholder in plain text with its original
/// alt text.
pub open spec fn resolve_plain_without_describer(
    plain: Seq<char>,
    infos: Seq<(Seq<char>, Seq<char>, Seq<char>, Seq<char>)>,
) -> Seq<char>
    decreases infos.len(),
{
    if infos.len() == 0 {
        plain
    } else {
        replace_first_spec(
            resolve_plain_without_describer(plain, infos.drop_last()),
            infos.last().0,
            infos.last().1,
        )
    }
}

/// The message of the warning for an image whose description failed.
pub open spec fn failure_message(filename: Seq<char>, e: ConvertError) -> Seq<char> {
    "image description failed for '"@ + filename + "': "@ + e.message_spec()
}

/// The bytes and MIME type to describe an image with: the bytes stored
/// under its key, if any (see [`lookup_bytes`], [`mime_spec`]).
pub fn image_request<'a>(info: &ImageInfo, image_bytes: &'a Vec<(String, Vec<u8>)>) -> (r: Option<
    (&'a Vec<u8>, &'static str),
>)
    ensures
        match r {
            Some((b, m)) => lookup_bytes(image_bytes@, info.bytes_key@) == Some(b@) && m == mime_spec(
                info.filename@,
                b@,
            ),
            None => lookup_bytes(image_bytes@, info.bytes_key@) is None,
        },
{
    match find_bytes(image_bytes, info.bytes_key.as_str()) {
        Some(img) => {
            let mime = mime_from_image(info.filename.as_str(), img.as_slice());
            Some((img, mime))
        },
        None => None,
    }
}

/// Resolves one image placeholder from what describing the image gave
/// (`None` when it was not described): a description takes the
/// placeholder's place in the Markdown image and in the plain text;
/// otherwise the original alt text does, and a failed description adds a
/// `SkippedElement` warning naming the file.
pub fn apply_description(
    markdown: &mut String,
    plain: &mut String,
    info: &ImageInfo,
    outcome: Option<Result<String, ConvertError>>,
    warnings: &mut Vec<ConversionWarning>,
)
    ensures
        match outcome {
            Some(Ok(d)) => {
                &&& final(markdown)@ == replace_placeholder_spec(
                    old(markdown)@,
                    info.placeholder@,
                    d@,
                    info.filename@,
                )
                &&& final(plain)@ == replace_first_spec(old(plain)@, info.placeholder@, d@)
                &&& final(warnings)@ == old(warnings)@
            },
            _ => {
                &&& final(markdown)@ == replace_placeholder_spec(
                    old(markdown)@,
                    info.placeholder@,
                    info.original_alt@,
                    info.filename@,
                )
                &&& final(plain)@ == replace_first_spec(
                    old(plain)@,
                    info.placeholder@,
                    info.original_alt@,
                )
            },
        },
        outcome matches Some(Err(e)) ==> {
            &&& final(warnings)@.len() == old(warnings)@.len() + 1
            &&& final(warnings)@.subrange(0, old(warnings)@.len() as int) == old(warnings)@
            &&& final(warnings)@.last().code == WarningCode::SkippedElement
            &&& final(warnings)@.last().message@ == failure_message(info.filename@, e)
            &&& final(warnings)@.last().location matches Some(l) && l@ == info.filename@
        },
        !(outcome matches Some(Err(_))) ==> final(warnings)@ == old(warnings)@,
{
    let ghost before = warnings@;
    match outcome {
        Some(Ok(description)) => {
            let r = replace_image_alt_by_placeholder(
                markdown.as_str(),
                info.placeholder.as_str(),
                description.as_str(),
                info.filename.as_str(),
            );
            *markdown = r;
            let rp = replace_first(plain.as_str(), info.placeholder.as_str(), description.as_str());
            *plain = rp;
            return ;
        },
        Some(Err(e)) => {
            let mut msg: Vec<char> = Vec::new();
            push_str(&mut msg, "image description failed for '");
            push_str(&mut msg, info.filename.as_str());
            push_str(&mut msg, "': ");
            let em = e.message();
            push_str(&mut msg, em.as_str());
            let loc = info.filename.clone();
            warnings.push(warning(WarningCode::SkippedElement, msg, Some(loc)));
            assert(warnings@.subrange(0, before.len() as int) =~= before);
        },
        None => {},
    }
    let r = replace_image_alt_by_placeholder(
        markdown.as_str(),
        info.placeholder.as_str(),
        info.original_alt.as_str(),
        info.filename.as_str(),
    );
    *markdown = r;
    let rp = replace_first(plain.as_str(), info.placeholder.as_str(), info.original_alt.as_str());
    *plain = rp;
}

/// Replaces image placeholders in `markdown` with descriptions from the
/// describer, or falls back to the original alt text. Without a describer
/// every placeholder gets its original alt text. With one, each image whose
/// bytes are known is described (prompt [`describe_prompt`], MIME type from
/// [`mime_spec`]); on failure the alt text is used and a `SkippedElement`
/// warning is appended.
pub fn resolve_image_placeholders<D: ImageDescriber>(
    markdown: &mut String,
    plain: &mut String,
    image_infos: &Vec<ImageInfo>,
    image_bytes: &Vec<(String, Vec<u8>)>,
    describer: Option<&D>,
    warnings: &mut Vec<ConversionWarning>,
)
    ensures
        describer is None ==> final(markdown)@ == resolve_without_describer(
            old(markdown)@,
            imgs_view(image_infos@),
        ),
        describer is None ==> final(plain)@ == resolve_plain_without_describer(
            old(plain)@,
            imgs_view(image_infos@),
        ),
        describer is None ==> final(warnings)@ == old(warnings)@,
        final(warnings)@.len() >= old(warnings)@.len(),
        final(warnings)@.subrange(0, old(warnings)@.len() as int) == old(warnings)@,
{
    let mut i: usize = 0;
    let ghost iv = imgs_view(image_infos@);
    while i < image_infos.len()
        invariant
            i <= image_infos.len(),
            iv == imgs_view(image_infos@),
            describer is None ==> markdown@ == resolve_without_describer(
                old(markdown)@,
                iv.subrange(0, i as int),
            ),
            describer is None ==> plain@ == resolve_plain_without_describer(
                old(plain)@,
                iv.subrange(0, i as int),
            ),
            describer is None ==> warnings@ == old(warnings)@,
            warnings@.len() >= old(warnings)@.len(),
            warnings@.subrange(0, old(warnings)@.len() as int) == old(warnings)@,
        decreases image_infos.len() - i,
    {
        let info = &image_infos[i];
        let ghost before = warnings@;
        let outcome = match describer {
            Some(d) => match image_request(info, image_bytes) {
                Some((img, mime)) => Some(
                    d.describe(img.as_slice(), mime, "Describe this image concisely for use as alt text."),
                ),
                None => None,
            },
            None => None,
        };
        apply_description(markdown, plain, info, outcome, warnings);
        i = i + 1;
        proof {
            assert(iv.subrange(0, i as int).drop_last() =~= iv.subrange(0, i - 1));
            assert(iv.subrange(0, i as int).last() == img_view(image_infos@[i - 1]));
            assert(warnings@.subrange(0, old(warnings)@.len() as int) =~= old(warnings)@) by {
                assert(before.subrange(0, old(warnings)@.len() as int) =~= old(warnings)@);
            }
        }
    }
    assert(iv.subrange(0, image_infos.len() as int) =~= iv);
}

// ---------------------------------------------------------------------------
// Converter trait
// ---------------------------------------------------------------------------

/// Whether `extension` is one of `exts`.
pub open spec fn ext_listed(exts: Seq<&'static str>, extension: Seq<char>) -> bool {
    exists|i: int| 0 <= i < exts.len() && exts[i]@ == extension
}

/// Trait implemented by each format-specific converter.
pub trait Converter {
    /// The file extensions this converter handles.
    spec fn extensions(&self) -> Seq<&'static str>;

    /// Returns the file extensions this converter supports (e.g., `["docx"]`).
    fn supported_extensions(&self) -> (r: Vec<&'static str>)
        ensures
            r@ == self.extensions(),
    ;

    /// Whether this converter handles the given extension.
    fn can_convert(&self, extension: &str, _header_bytes: &[u8]) -> (r: bool)
        ensures
            r == ext_listed(self.extensions(), extension@),
    {
        let exts = self.supported_extensions();
        let e = chars_of(extension);
        let mut i: usize = 0;
        while i < exts.len()
            invariant
                i <= exts.len(),
                exts@ == self.extensions(),
                e@ == extension@,
                forall|k: int| 0 <= k < i ==> exts@[k]@ != extension@,
            decreases exts.len() - i,
        {
            if crate::text::eq_str(e.as_slice(), exts[i]) {
                return true;
            }
            i = i + 1;
        }
        false
    }

    /// Convert file bytes to Markdown.
    fn convert(&self, data: &[u8], options: &ConversionOptions) -> Result<
        ConversionResult,
        ConvertError,
    >;
}

} // verus!
