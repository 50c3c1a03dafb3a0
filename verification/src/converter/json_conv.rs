//! JSON files (strict UTF-8), pretty-printed inside a fenced `json` block.

use vstd::prelude::*;

use crate::converter::json::json_block;
use crate::converter::{ConversionOptions, ConversionResult, Converter};
use crate::error::{is_malformed, malformed, ConvertError};
use crate::json_value::{json_parse, json_pretty, parse_json, to_json_pretty};
use crate::text::{push_str, string_from_chars};
use crate::zip_io::utf8_to_string;

verus! {

broadcast use vstd::string::group_string_axioms;

/// Converts UTF-8 JSON files to pretty-printed fenced code blocks.
pub struct JsonConverter;

/// The outcome of converting JSON bytes that must be UTF-8: invalid UTF-8
/// is an error; otherwise a parse or serialization error, or the
/// pretty-printed document in a fenced block.
pub open spec fn strict_json_outcome(data: Seq<u8>, r: Result<ConversionResult, ConvertError>) -> bool {
    if !vstd::utf8::valid_utf8(data) {
        r matches Err(e) && e == ConvertError::Utf8Error
    } else {
        match json_parse(vstd::utf8::decode_utf8(data)) {
            Err(m) => r matches Err(e) && is_malformed(e, "invalid JSON: "@ + m),
            Ok(v) => match json_pretty(v) {
                Err(m) => r matches Err(e) && is_malformed(e, "failed to serialize JSON: "@ + m),
                Ok(p) => r matches Ok(res) && res.markdown@ == json_block(p)
                    && res.plain_text@.len() == 0 && res.warnings@.len() == 0,
            },
        }
    }
}

impl JsonConverter {
    /// Converts UTF-8 JSON bytes (see [`strict_json_outcome`]).
    pub fn convert_json(&self, data: &[u8]) -> (r: Result<ConversionResult, ConvertError>)
        ensures
            strict_json_outcome(data@, r),
    {
        let text = match utf8_to_string(data) {
            Some(t) => t,
            None => {
                return Err(ConvertError::Utf8Error);
            },
        };
        let v = match parse_json(text.as_str()) {
            Ok(v) => v,
            Err(m) => {
                return Err(malformed("invalid JSON: ", m.as_str()));
            },
        };
        let pretty = match to_json_pretty(&v) {
            Ok(p) => p,
            Err(m) => {
                return Err(malformed("failed to serialize JSON: ", m.as_str()));
            },
        };
        let mut md: Vec<char> = Vec::new();
        push_str(&mut md, "```json\n");
        push_str(&mut md, pretty.as_str());
        push_str(&mut md, "\n```\n");
        let mut result = ConversionResult::default();
        result.markdown = string_from_chars(md.as_slice());
        Ok(result)
    }
}

impl Converter for JsonConverter {
    open spec fn extensions(&self) -> Seq<&'static str> {
        seq!["json"]
    }

    fn supported_extensions(&self) -> (r: Vec<&'static str>) {
        let v = vec!["json"];
        assert(v@ =~= seq!["json"]);
        v
    }

    fn convert(&self, data: &[u8], _options: &ConversionOptions) -> (r: Result<
        ConversionResult,
        ConvertError,
    >)
        ensures
            strict_json_outcome(data@, r),
    {
        self.convert_json(data)
    }
}

} // verus!
