use vstd::prelude::*;

use crate::json::{JsonModel, JsonValue};
use crate::render::FormatError;

verus! {

#[verifier::external_type_specification]
#[verifier::external_body]
pub struct ExValue(serde_json::Value);

#[verifier::external_type_specification]
#[verifier::external_body]
pub struct ExError(serde_json::Error);

/// What parsing one line of text yields: the model of the parsed document,
/// or nothing when the text is not one valid JSON document.
pub uninterp spec fn parse_of(s: Seq<char>) -> Option<JsonModel>;

/// What a parsed document holds, seen as the formatter's model.
pub uninterp spec fn serde_model(v: serde_json::Value) -> JsonModel;

/// Relies on `serde_json::from_str`: it returns a document exactly when the
/// text is one valid JSON document, and the document holds what the text
/// describes.
#[verifier::external_body]
fn parse_serde(line: &str) -> (r: Result<serde_json::Value, serde_json::Error>)
    ensures
        match r {
            Result::Ok(v) => parse_of(line@) == Option::Some(serde_model(v)),
            Result::Err(_) => parse_of(line@) is None,
        },
{
    serde_json::from_str::<serde_json::Value>(line)
}

/// Relies on the variants of `serde_json::Value`: each is moved field by
/// field into the formatter's own document type, a number as the text
/// serde_json renders it with.
#[verifier::external_body]
fn from_serde(v: &serde_json::Value) -> (r: JsonValue)
    ensures
        r@ == serde_model(*v),
{
    match v {
        serde_json::Value::Null => JsonValue::Null,
        serde_json::Value::Bool(b) => JsonValue::Bool(*b),
        serde_json::Value::Number(n) => JsonValue::Number(n.to_string()),
        serde_json::Value::String(s) => JsonValue::Str(s.clone()),
        serde_json::Value::Array(a) => JsonValue::Array(a.iter().map(from_serde).collect()),
        serde_json::Value::Object(o) => JsonValue::Object(
            o.iter().map(|(k, x)| (k.clone(), from_serde(x))).collect(),
        ),
    }
}

/// Parses one input line into a document, or reports the line malformed.
pub fn parse_record(line: &str) -> (r: Result<JsonValue, FormatError>)
    ensures
        match r {
            Result::Ok(v) => parse_of(line@) == Option::Some(v@),
            Result::Err(e) => parse_of(line@) is None && e == FormatError::Parse,
        },
{
    match parse_serde(line) {
        Result::Ok(v) => Result::Ok(from_serde(&v)),
        Result::Err(_) => Result::Err(FormatError::Parse),
    }
}

} // verus!
