//! Parsing one input line into the library's JSON value.

use vstd::prelude::*;
use crate::value::Json;

verus! {

#[verifier::external_type_specification]
#[verifier::external_body]
pub struct ExJsonValue(json::JsonValue);

/// What parsing one line yields: the library's value for the line's JSON
/// text, or nothing when the line is not valid UTF-8 JSON.  The result is
/// a function of the bytes alone.
pub uninterp spec fn parse_of(line: Seq<u8>) -> Option<Json>;

/// Relies on the json crate's value tree: each variant is carried over
/// one-for-one; a number keeps the decimal text the crate renders for it.
#[verifier::external_body]
fn from_json(v: &json::JsonValue) -> Json {
    match v {
        json::JsonValue::Null => Json::Null,
        json::JsonValue::Boolean(b) => Json::Bool(*b),
        json::JsonValue::Number(n) => Json::Number(n.to_string()),
        json::JsonValue::Short(s) => Json::Str(s.as_str().to_string()),
        json::JsonValue::String(s) => Json::Str(s.clone()),
        json::JsonValue::Array(a) => Json::Array(a.iter().map(from_json).collect()),
        json::JsonValue::Object(o) => Json::Object(
            o.iter().map(|(k, x)| (k.to_string(), from_json(x))).collect(),
        ),
    }
}

/// Relies on `str::from_utf8` and `json::parse`: one line of bytes is
/// decoded and parsed as one JSON value; parsing is deterministic in the
/// bytes, and the error text is the parser's own.
#[verifier::external_body]
pub fn parse_record(line: &Vec<u8>) -> (r: Result<Json, String>)
    ensures
        r is Ok <==> parse_of(line@) is Some,
        r is Ok ==> parse_of(line@) == Some(r->Ok_0),
{
    let text = match core::str::from_utf8(line) {
        Ok(t) => t,
        Err(e) => {
            return Err(e.to_string());
        },
    };
    match json::parse(text) {
        Ok(v) => Ok(from_json(&v)),
        Err(e) => Err(e.to_string()),
    }
}

} // verus!
