//! Conversion of documents (DOCX, PPTX, XLSX, HTML, CSV, JSON, XML, plain
//! text and more) to Markdown, with a plain-text twin of the output.

pub mod converter;
pub mod csv_io;
pub mod detection;
pub mod error;
pub mod json_value;
pub mod markdown;
pub mod text;
pub mod xml_io;
pub mod zip_io;
pub mod zip_utils;

pub use converter::{
    ConversionOptions, ConversionResult, ConversionWarning, Converter, ImageDescriber, WarningCode,
};
pub use error::ConvertError;

use vstd::prelude::*;

use converter::csv_conv::CsvConverter;
use converter::docx::DocxConverter;
use converter::html::HtmlConverter;
use converter::json_conv::JsonConverter;
use converter::plain_text::PlainTextConverter;
use converter::pptx::PptxConverter;
use converter::xlsx::XlsxConverter;
use converter::xml::XmlConverter;
use converter::ext_listed;
use converter::csv_conv::strict_csv_outcome;
use converter::docx::docx_convert_outcome;
use converter::html::html_convert_outcome;
use converter::json_conv::strict_json_outcome;
use converter::plain_text::plain_text_outcome;
use converter::pptx::pptx_convert_outcome;
use converter::xlsx::xlsx_convert_outcome;
use converter::xml::xml_outcome;

verus! {

/// The converters [`convert_bytes`] tries, in order.
#[derive(Debug, Clone, Copy, PartialEq, Eq, Structural)]
pub enum ConverterKind {
    Docx,
    Pptx,
    Xlsx,
    Json,
    Xml,
    Csv,
    Html,
    PlainText,
}

/// The first converter, in [`ConverterKind`] order, that handles
/// `extension`.
pub open spec fn converter_for_spec(extension: Seq<char>) -> Option<ConverterKind> {
    if ext_listed(DocxConverter.extensions(), extension) {
        Some(ConverterKind::Docx)
    } else if ext_listed(PptxConverter.extensions(), extension) {
        Some(ConverterKind::Pptx)
    } else if ext_listed(XlsxConverter.extensions(), extension) {
        Some(ConverterKind::Xlsx)
    } else if ext_listed(JsonConverter.extensions(), extension) {
        Some(ConverterKind::Json)
    } else if ext_listed(XmlConverter.extensions(), extension) {
        Some(ConverterKind::Xml)
    } else if ext_listed(CsvConverter.extensions(), extension) {
        Some(ConverterKind::Csv)
    } else if ext_listed(HtmlConverter.extensions(), extension) {
        Some(ConverterKind::Html)
    } else if ext_listed(PlainTextConverter.extensions(), extension) {
        Some(ConverterKind::PlainText)
    } else {
        None
    }
}

/// The converter for `extension` (see [`converter_for_spec`]).
pub fn converter_for(extension: &str) -> (k: Option<ConverterKind>)
    ensures
        k == converter_for_spec(extension@),
{
    if DocxConverter.can_convert(extension, &[]) {
        Some(ConverterKind::Docx)
    } else if PptxConverter.can_convert(extension, &[]) {
        Some(ConverterKind::Pptx)
    } else if XlsxConverter.can_convert(extension, &[]) {
        Some(ConverterKind::Xlsx)
    } else if JsonConverter.can_convert(extension, &[]) {
        Some(ConverterKind::Json)
    } else if XmlConverter.can_convert(extension, &[]) {
        Some(ConverterKind::Xml)
    } else if CsvConverter.can_convert(extension, &[]) {
        Some(ConverterKind::Csv)
    } else if HtmlConverter.can_convert(extension, &[]) {
        Some(ConverterKind::Html)
    } else if PlainTextConverter.can_convert(extension, &[]) {
        Some(ConverterKind::PlainText)
    } else {
        None
    }
}

/// What the converter `kind` gives for `data` (see each converter's
/// `convert`).
pub open spec fn converted_by(
    kind: ConverterKind,
    data: Seq<u8>,
    options: ConversionOptions,
    r: Result<ConversionResult, ConvertError>,
) -> bool {
    match kind {
        ConverterKind::Docx => docx_convert_outcome(data, options, r),
        ConverterKind::Pptx => pptx_convert_outcome(data, options, r),
        ConverterKind::Xlsx => xlsx_convert_outcome(data, options, r),
        ConverterKind::Json => strict_json_outcome(data, r),
        ConverterKind::Xml => xml_outcome(data, r),
        ConverterKind::Csv => strict_csv_outcome(data, r),
        ConverterKind::Html => html_convert_outcome(data, options, r),
        ConverterKind::PlainText => plain_text_outcome(data, r),
    }
}

/// Converts raw bytes to Markdown with an explicit format extension: input
/// over `max_input_bytes` is refused; otherwise the first converter that
/// handles the extension converts it (see [`converter_for_spec`]), and an
/// extension none handles is an unsupported format.
pub fn convert_bytes(data: &[u8], extension: &str, options: &ConversionOptions) -> (r: Result<
    ConversionResult,
    ConvertError,
>)
    ensures
        data.len() > options.max_input_bytes ==> (r matches Err(ConvertError::InputTooLarge { size, limit })
            && size == data.len() && limit == options.max_input_bytes),
        data.len() <= options.max_input_bytes && converter_for_spec(extension@) is None ==> (r matches Err(
            ConvertError::UnsupportedFormat { extension: e },
        ) && e@ == extension@),
        r is Ok ==> data.len() <= options.max_input_bytes && converter_for_spec(extension@) is Some,
        data.len() <= options.max_input_bytes ==> (converter_for_spec(extension@) matches Some(k)
            ==> converted_by(k, data@, *options, r)),
{
    if data.len() > options.max_input_bytes {
        return Err(ConvertError::InputTooLarge { size: data.len(), limit: options.max_input_bytes });
    }
    match converter_for(extension) {
        Some(ConverterKind::Docx) => DocxConverter.convert(data, options),
        Some(ConverterKind::Pptx) => PptxConverter.convert(data, options),
        Some(ConverterKind::Xlsx) => XlsxConverter.convert(data, options),
        Some(ConverterKind::Json) => JsonConverter.convert(data, options),
        Some(ConverterKind::Xml) => XmlConverter.convert(data, options),
        Some(ConverterKind::Csv) => CsvConverter.convert(data, options),
        Some(ConverterKind::Html) => HtmlConverter.convert(data, options),
        Some(ConverterKind::PlainText) => PlainTextConverter.convert(data, options),
        None => Err(ConvertError::UnsupportedFormat { extension: extension.to_string() }),
    }
}

/// The format of a file at `path` whose bytes are `data`: detected from
/// its first 16 bytes and its name (see [`detection::detect_format_spec`]);
/// a ZIP archive is told apart by its entry names (see
/// [`detection::zip_format_from_names`]). `None` when neither decides.
pub open spec fn detected_format(path: Seq<char>, data: Seq<u8>) -> Option<Seq<char>> {
    let n = if data.len() < 16 {
        data.len() as int
    } else {
        16
    };
    match detection::detect_format_spec(path, data.take(n)) {
        Some(f) => if f@ == "zip"@ {
            match zip_io::zip_entry_names(data) {
                Some(names) => match detection::zip_format_from_names(names) {
                    Some(z) => Some(z@),
                    None => None,
                },
                None => None,
            }
        } else {
            Some(f@)
        },
        None => None,
    }
}

/// The extension a file is converted as: its detected format (see
/// [`detected_format`]), else the extension of its path, else nothing.
pub open spec fn file_extension(path: Seq<char>, data: Seq<u8>) -> Seq<char> {
    match detected_format(path, data) {
        Some(f) => f,
        None => match detection::path_extension(path) {
            Some(e) => e,
            None => Seq::empty(),
        },
    }
}

/// The extension a file at `path` holding `data` is converted as (see
/// [`file_extension`]).
pub fn detect_extension(path: &str, data: &[u8]) -> (e: String)
    ensures
        e@ == file_extension(path@, data@),
{
    let n: usize = if data.len() < 16 {
        data.len()
    } else {
        16
    };
    let header = text::bytes_slice(data, 0, n);
    assert(header@ == data@.take(n as int));
    let format = match detection::detect_format(path, header.as_slice()) {
        Some(f) => {
            let fc = text::chars_of(f);
            if text::eq_str(fc.as_slice(), "zip") {
                detection::detect_zip_format(data)
            } else {
                Some(f)
            }
        },
        None => None,
    };
    let ghost det = detected_format(path@, data@);
    assert(match format {
        Some(f) => det == Some(f@),
        None => det is None,
    });
    match format {
        Some(f) => f.to_string(),
        None => match detection::extension_of(path) {
            Some(v) => text::string_from_chars(v.as_slice()),
            None => String::new(),
        },
    }
}

/// Converts the bytes `data` of the file at `path` to Markdown, the format
/// auto-detected from its magic bytes and its name: input over
/// `max_input_bytes` is refused; otherwise it is converted as
/// [`convert_bytes`] does for the extension [`file_extension`] gives.
pub fn convert_file_bytes(path: &str, data: &[u8], options: &ConversionOptions) -> (r: Result<
    ConversionResult,
    ConvertError,
>)
    ensures
        data.len() > options.max_input_bytes ==> (r matches Err(ConvertError::InputTooLarge { size, limit })
            && size == data.len() && limit == options.max_input_bytes),
        data.len() <= options.max_input_bytes ==> match converter_for_spec(
            file_extension(path@, data@),
        ) {
            Some(k) => converted_by(k, data@, *options, r),
            None => r matches Err(ConvertError::UnsupportedFormat { extension: e }) && e@
                == file_extension(path@, data@),
        },
{
    if data.len() > options.max_input_bytes {
        return Err(ConvertError::InputTooLarge { size: data.len(), limit: options.max_input_bytes });
    }
    let extension = detect_extension(path, data);
    convert_bytes(data, extension.as_str(), options)
}

} // verus!
