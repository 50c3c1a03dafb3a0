//! JSON files, pretty-printed inside a fenced `json` block.

use vstd::prelude::*;

use crate::converter::{
    decode_text, decode_text_spec, ConversionOptions, ConversionResult, ConversionWarning,
    Converter,
};
use crate::error::{is_malformed, malformed, ConvertError};
use crate::json_value::{json_parse, json_pretty, parse_json, to_json_pretty};
use crate::text::{push_str, string_from_chars};

verus! {

broadcast use vstd::string::group_string_axioms;

/// Converts JSON files to pretty-printed fenced code blocks.
pub struct JsonConverter;

/// The fenced block around pretty-printed JSON.
pub open spec fn json_block(pretty: Seq<char>) -> Seq<char> {
    "```json\n"@ + pretty + "\n```\n"@
}

/// The outcome of converting the JSON text `text`: a parse error or a
/// serialization error as a malformed-document error, or the
/// pretty-printed document in a fenced block (Markdown) and on its own
/// (plain text).
pub open spec fn json_outcome(text: Seq<char>, r: Result<ConversionResult, ConvertError>) -> bool {
    match json_parse(text) {
        Err(m) => r matches Err(e) && is_malformed(e, "invalid JSON: "@ + m),
        Ok(v) => match json_pretty(v) {
            Err(m) => r matches Err(e) && is_malformed(e, "failed to serialize JSON: "@ + m),
            Ok(p) => r matches Ok(res) && res.markdown@ == json_block(p) && res.plain_text@ == p
                + seq!['\n'] && res.title is None && res.images@.len() == 0,
        },
    }
}

impl JsonConverter {
    /// Converts JSON bytes, decoded with encoding fallback (see
    /// [`json_outcome`]); a decoding warning is kept on success.
    pub fn convert_json(&self, data: &[u8]) -> (r: Result<ConversionResult, ConvertError>)
        ensures
            json_outcome(decode_text_spec(data@).0, r),
            r matches Ok(res) ==> match decode_text_spec(data@).1 {
                Some(w) => res.warnings@.len() == 1 && res.warnings@[0].code == w.0
                    && res.warnings@[0].message@ == w.1 && res.warnings@[0].location is None,
                None => res.warnings@.len() == 0,
            },
    {
        let (text, w) = decode_text(data);
        let v = match parse_json(text.as_str()) {
            Ok(v) => v,
            Err(m) => {
                return Err(malformed("invalid JSON: ", m.as_str()));
            },
        };
        let pretty = match to_json_pretty(&v) {
            Ok(p) => p,
            Err(m) => {
                return Err(malformed("failed to serialize JSON: ", m.as_str()));
            },
        };
        let mut md: Vec<char> = Vec::new();
        push_str(&mut md, "```json\n");
        push_str(&mut md, pretty.as_str());
        push_str(&mut md, "\n```\n");
        let mut plain: Vec<char> = Vec::new();
        push_str(&mut plain, pretty.as_str());
        plain.push('\n');
        assert(plain@ =~= pretty@ + seq!['\n']);
        let mut warnings: Vec<ConversionWarning> = Vec::new();
        match w {
            Some(w) => {
                warnings.push(w);
            },
            None => {},
        }
        let mut result = ConversionResult::default();
        result.markdown = string_from_chars(md.as_slice());
        result.plain_text = string_from_chars(plain.as_slice());
        result.warnings = warnings;
        Ok(result)
    }
}

impl Converter for JsonConverter {
    open spec fn extensions(&self) -> Seq<&'static str> {
        seq!["json"]
    }

    fn supported_extensions(&self) -> (r: Vec<&'static str>) {
        let v = vec!["json"];
        assert(v@ =~= seq!["json"]);
        v
    }

    fn convert(&self, data: &[u8], _options: &ConversionOptions) -> (r: Result<
        ConversionResult,
        ConvertError,
    >)
        ensures
            json_outcome(decode_text_spec(data@).0, r),
            r matches Ok(res) ==> match decode_text_spec(data@).1 {
                Some(w) => res.warnings@.len() == 1 && res.warnings@[0].code == w.0
                    && res.warnings@[0].message@ == w.1 && res.warnings@[0].location is None,
                None => res.warnings@.len() == 0,
            },
    {
        self.convert_json(data)
    }
}

} // verus!
