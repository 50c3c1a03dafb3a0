//! JSON documents as plain values, read and written through `serde_json`.

use vstd::prelude::*;

use crate::text::chars_of;

verus! {

broadcast use vstd::string::group_string_axioms;

/// `serde_json`'s document type, converted to [`JsonValue`] on reading.
#[verifier::external_type_specification]
#[verifier::external_body]
pub struct ExSerdeValue(serde_json::Value);

/// A JSON value. Numbers keep their textual form; an object keeps its
/// members in the order `serde_json` yields them.
#[derive(Debug)]
pub enum JsonValue {
    Null,
    Bool(bool),
    Number(String),
    Str(String),
    Array(Vec<JsonValue>),
    Object(Vec<(String, JsonValue)>),
}

/// What `serde_json::from_str::<serde_json::Value>` gives for `text`: the
/// document, or the parser's error message.
pub uninterp spec fn json_parse(text: Seq<char>) -> Result<JsonValue, Seq<char>>;

/// What `serde_json::to_string` writes for `v` (compact form), or its
/// error message.
pub uninterp spec fn json_compact(v: JsonValue) -> Result<Seq<char>, Seq<char>>;

/// What `serde_json::to_string_pretty` writes for `v` (two-space
/// indentation), or its error message.
pub uninterp spec fn json_pretty(v: JsonValue) -> Result<Seq<char>, Seq<char>>;

/// The view of an outcome carrying a string.
pub open spec fn text_result(r: Result<String, String>) -> Result<Seq<char>, Seq<char>> {
    match r {
        Ok(s) => Ok(s@),
        Err(e) => Err(e@),
    }
}

/// The view of a parse outcome.
pub open spec fn parse_result(r: Result<JsonValue, String>) -> Result<JsonValue, Seq<char>> {
    match r {
        Ok(v) => Ok(v),
        Err(e) => Err(e@),
    }
}

/// Converts a `serde_json` value into the plain model.
#[verifier::external_body]
fn from_serde(v: &serde_json::Value) -> JsonValue {
    match v {
        serde_json::Value::Null => JsonValue::Null,
        serde_json::Value::Bool(b) => JsonValue::Bool(*b),
        serde_json::Value::Number(n) => JsonValue::Number(n.to_string()),
        serde_json::Value::String(s) => JsonValue::Str(s.clone()),
        serde_json::Value::Array(a) => JsonValue::Array(a.iter().map(from_serde).collect()),
        serde_json::Value::Object(m) => JsonValue::Object(
            m.iter().map(|(k, x)| (k.clone(), from_serde(x))).collect(),
        ),
    }
}

/// Converts the plain model back into a `serde_json` value (a number that
/// no longer parses becomes `null`).
#[verifier::external_body]
fn to_serde(v: &JsonValue) -> serde_json::Value {
    match v {
        JsonValue::Null => serde_json::Value::Null,
        JsonValue::Bool(b) => serde_json::Value::Bool(*b),
        JsonValue::Number(n) => n.parse::<serde_json::Number>().map(serde_json::Value::Number).unwrap_or(
            serde_json::Value::Null,
        ),
        JsonValue::Str(s) => serde_json::Value::String(s.clone()),
        JsonValue::Array(a) => serde_json::Value::Array(a.iter().map(to_serde).collect()),
        JsonValue::Object(m) => serde_json::Value::Object(
            m.iter().map(|(k, x)| (k.clone(), to_serde(x))).collect(),
        ),
    }
}

/// Parses JSON text (`serde_json::from_str`), giving the document or the
/// error message.
#[verifier::external_body]
pub fn parse_json(text: &str) -> (r: Result<JsonValue, String>)
    ensures
        parse_result(r) == json_parse(text@),
{
    match serde_json::from_str::<serde_json::Value>(text) {
        Ok(v) => Ok(from_serde(&v)),
        Err(e) => Err(e.to_string()),
    }
}

/// Writes a value as compact JSON text (`serde_json::to_string`).
#[verifier::external_body]
pub fn to_json_string(v: &JsonValue) -> (r: Result<String, String>)
    ensures
        text_result(r) == json_compact(*v),
{
    serde_json::to_string(&to_serde(v)).map_err(|e| e.to_string())
}

/// Writes a value as indented JSON text (`serde_json::to_string_pretty`).
#[verifier::external_body]
pub fn to_json_pretty(v: &JsonValue) -> (r: Result<String, String>)
    ensures
        text_result(r) == json_pretty(*v),
{
    serde_json::to_string_pretty(&to_serde(v)).map_err(|e| e.to_string())
}

// ---------------------------------------------------------------------------
// Navigation
// ---------------------------------------------------------------------------

/// The member `key` of an object (its first occurrence); `None` for a
/// missing member or a value that is not an object.
pub open spec fn member(v: JsonValue, key: Seq<char>) -> Option<JsonValue> {
    match v {
        JsonValue::Object(m) => member_of(m@, key),
        _ => None,
    }
}

/// The first member called `key`.
pub open spec fn member_of(m: Seq<(String, JsonValue)>, key: Seq<char>) -> Option<JsonValue>
    decreases m.len(),
{
    if m.len() == 0 {
        None
    } else if m[0].0@ == key {
        Some(m[0].1)
    } else {
        member_of(m.drop_first(), key)
    }
}

/// The string a value holds, if it is a string.
pub open spec fn as_str(v: Option<JsonValue>) -> Option<Seq<char>> {
    match v {
        Some(JsonValue::Str(s)) => Some(s@),
        _ => None,
    }
}

/// The element `i` of an array; `None` out of range or for a non-array.
pub open spec fn element(v: Option<JsonValue>, i: int) -> Option<JsonValue> {
    match v {
        Some(JsonValue::Array(a)) => if 0 <= i < a@.len() {
            Some(a@[i])
        } else {
            None
        },
        _ => None,
    }
}

/// The member `key` of `v`, when `v` is present.
pub open spec fn get(v: Option<JsonValue>, key: Seq<char>) -> Option<JsonValue> {
    match v {
        Some(x) => member(x, key),
        None => None,
    }
}

/// The first member called `key` of an object (see [`member`]).
pub fn get_member<'a>(v: &'a JsonValue, key: &str) -> (r: Option<&'a JsonValue>)
    ensures
        match r {
            Some(x) => member(*v, key@) == Some(*x),
            None => member(*v, key@) is None,
        },
{
    match v {
        JsonValue::Object(m) => {
            let k = chars_of(key);
            let mut i: usize = 0;
            assert(m@.subrange(0, m.len() as int) =~= m@);
            while i < m.len()
                invariant
                    i <= m.len(),
                    k@ == key@,
                    *v == JsonValue::Object(*m),
                    member_of(m@.subrange(i as int, m.len() as int), key@) == member_of(m@, key@),
                decreases m.len() - i,
            {
                assert(m@.subrange(i as int, m.len() as int).drop_first() =~= m@.subrange(
                    i + 1,
                    m.len() as int,
                ));
                let n = chars_of(m[i].0.as_str());
                if crate::text::eq_chars(n.as_slice(), k.as_slice()) {
                    assert(m@.subrange(i as int, m.len() as int)[0] == m@[i as int]);
                    assert(m@[i as int].0@ == key@);
                    assert(member_of(m@.subrange(i as int, m.len() as int), key@) == Some(
                        m@[i as int].1,
                    ));
                    assert(*v == JsonValue::Object(*m));
                    return Some(&m[i].1);
                }
                i = i + 1;
            }
            assert(m@.subrange(m.len() as int, m.len() as int) =~= Seq::<(String, JsonValue)>::empty());
            None
        },
        _ => None,
    }
}

} // verus!
