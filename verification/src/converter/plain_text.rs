//! Plain text files, passed through unchanged.

use vstd::prelude::*;

use crate::converter::{strip_bom, strip_bom_spec, ConversionOptions, ConversionResult, Converter};
use crate::error::ConvertError;
use crate::text::{chars_of, string_from_chars};
use crate::zip_io::utf8_to_string;

verus! {

broadcast use vstd::string::group_string_axioms;

/// Converts plain text files: the text itself, without a leading BOM.
pub struct PlainTextConverter;

/// The extensions of plain text files.
pub open spec fn plain_text_extensions() -> Seq<&'static str> {
    seq!["txt", "text", "log", "md", "markdown", "rst", "ini", "cfg", "conf", "toml", "yaml", "yml"]
}

/// The Markdown of a UTF-8 text file: the text without a leading U+FEFF;
/// invalid UTF-8 is an error.
pub open spec fn plain_text_outcome(data: Seq<u8>, r: Result<ConversionResult, ConvertError>) -> bool {
    if vstd::utf8::valid_utf8(data) {
        r matches Ok(res) && res.markdown@ == strip_bom_spec(vstd::utf8::decode_utf8(data))
            && res.plain_text@.len() == 0 && res.title is None && res.images@.len() == 0
            && res.warnings@.len() == 0
    } else {
        r matches Err(e) && e == ConvertError::Utf8Error
    }
}

impl PlainTextConverter {
    /// Converts a text file (see [`plain_text_outcome`]).
    pub fn convert_text(&self, data: &[u8]) -> (r: Result<ConversionResult, ConvertError>)
        ensures
            plain_text_outcome(data@, r),
    {
        let text = match utf8_to_string(data) {
            Some(t) => t,
            None => {
                return Err(ConvertError::Utf8Error);
            },
        };
        let c = chars_of(text.as_str());
        let s = strip_bom(c.as_slice());
        let mut result = ConversionResult::default();
        result.markdown = string_from_chars(s.as_slice());
        Ok(result)
    }
}

impl Converter for PlainTextConverter {
    open spec fn extensions(&self) -> Seq<&'static str> {
        plain_text_extensions()
    }

    fn supported_extensions(&self) -> (r: Vec<&'static str>) {
        let v = vec!["txt", "text", "log", "md", "markdown", "rst", "ini", "cfg", "conf", "toml", "yaml", "yml"];
        assert(v@ =~= plain_text_extensions());
        v
    }

    fn convert(&self, data: &[u8], _options: &ConversionOptions) -> (r: Result<
        ConversionResult,
        ConvertError,
    >)
        ensures
            plain_text_outcome(data@, r),
    {
        self.convert_text(data)
    }
}

} // verus!
