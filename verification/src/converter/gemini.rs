//! The Google Gemini image describer: its configuration, the request it
//! sends and how its reply is read. Sending the request is left to the
//! caller.

use base64::Engine;
use vstd::prelude::*;

use crate::error::ConvertError;
use crate::json_value::{
    as_str, element, get, get_member, json_compact, json_parse, member, parse_json, to_json_string,
    JsonValue,
};
use crate::text::{chars_of, push_str, string_from_chars, trim, trim_ws};

verus! {

broadcast use vstd::string::group_string_axioms;

/// An image describer backed by the Google Gemini API.
pub struct GeminiDescriber {
    pub api_key: String,
    pub model: String,
}

/// The model used unless another is chosen.
pub open spec fn default_model() -> Seq<char> {
    "gemini-3-flash-preview"@
}

impl GeminiDescriber {
    /// A describer using `api_key` and the default model.
    pub fn new(api_key: String) -> (d: GeminiDescriber)
        ensures
            d.api_key@ == api_key@,
            d.model@ == default_model(),
    {
        let m = chars_of("gemini-3-flash-preview");
        GeminiDescriber { api_key, model: string_from_chars(m.as_slice()) }
    }

    /// The same describer using `model`.
    pub fn with_model(self, model: String) -> (d: GeminiDescriber)
        ensures
            d.api_key@ == self.api_key@,
            d.model@ == model@,
    {
        GeminiDescriber { api_key: self.api_key, model }
    }

    /// The `generateContent` endpoint of the describer's model.
    pub fn request_url(&self) -> (u: String)
        ensures
            u@ == "https://generativelanguage.googleapis.com/v1beta/models/"@ + self.model@
                + ":generateContent"@,
    {
        let mut v: Vec<char> = Vec::new();
        push_str(&mut v, "https://generativelanguage.googleapis.com/v1beta/models/");
        push_str(&mut v, self.model.as_str());
        push_str(&mut v, ":generateContent");
        string_from_chars(v.as_slice())
    }

    /// The JSON request asking to describe an image: one content whose
    /// parts are the base64-encoded image with its MIME type, then the
    /// prompt.
    pub fn request_body(&self, image_bytes: &[u8], mime_type: &str, prompt: &str) -> (r: Result<
        String,
        ConvertError,
    >)
        ensures
            exists|v: JsonValue|
                is_request(v, base64_standard(image_bytes@), mime_type@, prompt@) && match json_compact(
                    v,
                ) {
                    Ok(s) => r matches Ok(b) && b@ == s,
                    Err(m) => r matches Err(e) && is_description_error(e, m),
                },
    {
        let encoded = base64_encode(image_bytes);
        let v = build_request(encoded, mime_type, prompt);
        match to_json_string(&v) {
            Ok(s) => Ok(s),
            Err(m) => Err(ConvertError::ImageDescriptionError { reason: m }),
        }
    }
}

/// Whether `e` is an image-description error with the given reason.
pub open spec fn is_description_error(e: ConvertError, reason: Seq<char>) -> bool {
    e matches ConvertError::ImageDescriptionError { reason: r } && r@ == reason
}

/// Whether `v` is the request for an image `data` (base64 text) of MIME
/// type `mime` with `prompt`:
/// `{"contents":[{"parts":[{"inline_data":{"mime_type":..,"data":..}},{"text":..}]}]}`.
pub open spec fn is_request(v: JsonValue, data: Seq<char>, mime: Seq<char>, prompt: Seq<char>) -> bool {
    &&& as_str(get(get(element(get(element(member(v, "contents"@), 0), "parts"@), 0), "inline_data"@), "mime_type"@)) == Some(mime)
    &&& as_str(get(get(element(get(element(member(v, "contents"@), 0), "parts"@), 0), "inline_data"@), "data"@)) == Some(data)
    &&& as_str(get(element(get(element(member(v, "contents"@), 0), "parts"@), 1), "text"@)) == Some(prompt)
}

/// A one-member object.
fn object1(k: &str, v: JsonValue) -> (r: JsonValue)
    ensures
        member(r, k@) == Some(v),
        r is Object,
{
    let mut m: Vec<(String, JsonValue)> = Vec::new();
    m.push((string_from_chars(chars_of(k).as_slice()), v));
    let r = JsonValue::Object(m);
    proof {
        assert(m@[0].0@ == k@);
    }
    r
}

/// Builds the request value.
fn build_request(data: String, mime: &str, prompt: &str) -> (r: JsonValue)
    ensures
        is_request(r, data@, mime@, prompt@),
{
    let mut inline: Vec<(String, JsonValue)> = Vec::new();
    inline.push((string_from_chars(chars_of("mime_type").as_slice()), JsonValue::Str(string_from_chars(chars_of(mime).as_slice()))));
    let ghost d = data@;
    inline.push((string_from_chars(chars_of("data").as_slice()), JsonValue::Str(data)));
    let inline_v = JsonValue::Object(inline);
    proof {
        reveal_strlit("mime_type");
        reveal_strlit("data");
        assert(member(inline_v, "mime_type"@) == Some(inline@[0].1));
        assert(inline@[0].0@ == "mime_type"@);
        assert(inline@[1].0@ == "data"@);
        assert(inline@.drop_first()[0] == inline@[1]);
        assert(crate::json_value::member_of(inline@.drop_first(), "data"@) == Some(inline@[1].1));
        assert(member(inline_v, "data"@) == Some(inline@[1].1));
    }
    let part1 = object1("inline_data", inline_v);
    let part2 = object1("text", JsonValue::Str(string_from_chars(chars_of(prompt).as_slice())));
    let mut parts: Vec<JsonValue> = Vec::new();
    parts.push(part1);
    parts.push(part2);
    let content = object1("parts", JsonValue::Array(parts));
    let mut contents: Vec<JsonValue> = Vec::new();
    contents.push(content);
    object1("contents", JsonValue::Array(contents))
}

// ---------------------------------------------------------------------------
// Base64
// ---------------------------------------------------------------------------

/// The character of a 6-bit value in the standard base64 alphabet.
pub open spec fn b64_char(v: nat) -> char {
    if v < 26 {
        (65 + v) as char
    } else if v < 52 {
        (97 + v - 26) as char
    } else if v < 62 {
        (48 + v - 52) as char
    } else if v == 62 {
        '+'
    } else {
        '/'
    }
}

/// Standard base64 (RFC 4648) with `=` padding.
pub open spec fn base64_standard(b: Seq<u8>) -> Seq<char>
    decreases b.len(),
{
    if b.len() == 0 {
        Seq::empty()
    } else if b.len() == 1 {
        seq![b64_char(b[0] as nat / 4), b64_char((b[0] as nat % 4) * 16), '=', '=']
    } else if b.len() == 2 {
        seq![
            b64_char(b[0] as nat / 4),
            b64_char((b[0] as nat % 4) * 16 + b[1] as nat / 16),
            b64_char((b[1] as nat % 16) * 4),
            '=',
        ]
    } else {
        seq![
            b64_char(b[0] as nat / 4),
            b64_char((b[0] as nat % 4) * 16 + b[1] as nat / 16),
            b64_char((b[1] as nat % 16) * 4 + b[2] as nat / 64),
            b64_char(b[2] as nat % 64),
        ] + base64_standard(b.subrange(3, b.len() as int))
    }
}

/// Encodes bytes as standard base64 with padding
/// (`base64::engine::general_purpose::STANDARD`).
#[verifier::external_body]
fn base64_encode(b: &[u8]) -> (s: String)
    ensures
        s@ == base64_standard(b@),
{
    base64::engine::general_purpose::STANDARD.encode(b)
}

// ---------------------------------------------------------------------------
// The reply
// ---------------------------------------------------------------------------

/// The path to the description in a reply:
/// `candidates[0].content.parts[0].text`.
pub open spec fn reply_text(v: JsonValue) -> Option<Seq<char>> {
    as_str(get(element(get(get(element(member(v, "candidates"@), 0), "content"@), "parts"@), 0), "text"@))
}

/// The outcome of reading a reply body: unparsable JSON, an `error`
/// member (with its message, or `unknown error`) and a missing description
/// are image-description errors; otherwise the description, trimmed.
pub open spec fn reply_outcome(body: Seq<char>, r: Result<String, ConvertError>) -> bool {
    match json_parse(body) {
        Err(m) => r matches Err(e) && is_description_error(e, "failed to parse Gemini response: "@ + m),
        Ok(v) => match member(v, "error"@) {
            Some(err) => r matches Err(e) && is_description_error(
                e,
                "Gemini API error: "@ + match as_str(member(err, "message"@)) {
                    Some(m) => m,
                    None => "unknown error"@,
                },
            ),
            None => match reply_text(v) {
                Some(t) => r matches Ok(s) && s@ == trim_ws(t),
                None => r matches Err(e) && is_description_error(
                    e,
                    "unexpected Gemini response structure: missing candidates[0].content.parts[0].text"@,
                ),
            },
        },
    }
}

/// Element `i` of an optional array.
fn element_at<'a>(v: Option<&'a JsonValue>, i: usize) -> (r: Option<&'a JsonValue>)
    ensures
        match r {
            Some(x) => element(match v { Some(y) => Some(*y), None => None }, i as int) == Some(*x),
            None => element(match v { Some(y) => Some(*y), None => None }, i as int) is None,
        },
{
    match v {
        Some(JsonValue::Array(a)) => if i < a.len() {
            Some(&a[i])
        } else {
            None
        },
        _ => None,
    }
}

/// The member `key` of an optional value.
fn member_at<'a>(v: Option<&'a JsonValue>, key: &str) -> (r: Option<&'a JsonValue>)
    ensures
        match r {
            Some(x) => get(match v { Some(y) => Some(*y), None => None }, key@) == Some(*x),
            None => get(match v { Some(y) => Some(*y), None => None }, key@) is None,
        },
{
    match v {
        Some(x) => get_member(x, key),
        None => None,
    }
}

/// An image-description error with the reason `prefix` followed by
/// `detail`.
fn description_error(prefix: &str, detail: &str) -> (e: ConvertError)
    ensures
        is_description_error(e, prefix@ + detail@),
{
    let mut m: Vec<char> = Vec::new();
    push_str(&mut m, prefix);
    push_str(&mut m, detail);
    ConvertError::ImageDescriptionError { reason: string_from_chars(m.as_slice()) }
}

/// Reads the description out of a reply body (see [`reply_outcome`]).
pub fn parse_response(body: &str) -> (r: Result<String, ConvertError>)
    ensures
        reply_outcome(body@, r),
{
    let v = match parse_json(body) {
        Ok(v) => v,
        Err(m) => {
            return Err(description_error("failed to parse Gemini response: ", m.as_str()));
        },
    };
    match get_member(&v, "error") {
        Some(err) => {
            let message = match get_member(err, "message") {
                Some(JsonValue::Str(s)) => string_from_chars(chars_of(s.as_str()).as_slice()),
                _ => string_from_chars(chars_of("unknown error").as_slice()),
            };
            return Err(description_error("Gemini API error: ", message.as_str()));
        },
        None => {},
    }
    let text = member_at(
        element_at(member_at(member_at(element_at(get_member(&v, "candidates"), 0), "content"), "parts"), 0),
        "text",
    );
    match text {
        Some(JsonValue::Str(s)) => {
            let t = trim(chars_of(s.as_str()).as_slice());
            Ok(string_from_chars(t.as_slice()))
        },
        _ => {
            let m = chars_of(
                "unexpected Gemini response structure: missing candidates[0].content.parts[0].text",
            );
            Err(ConvertError::ImageDescriptionError { reason: string_from_chars(m.as_slice()) })
        },
    }
}

} // verus!
