//! The library's trusted boundary: every call into an outside crate is made
//! here, behind a small wrapper whose contract states what the call returns.
//! Results that take pages to state (case conversions, JSON parsing,
//! timestamp syntax) are given an uninterpreted name instead; each such name
//! is pinned down only by the wrapper that applies it.

use vstd::prelude::*;

use crate::json::{JsonElem, JsonShape};

verus! {

// The snake_case rendering that convert_case gives to a string.
pub uninterp spec fn snake_of(s: Seq<char>) -> Seq<char>;

// The camelCase rendering that convert_case gives to a string.
pub uninterp spec fn camel_of(s: Seq<char>) -> Seq<char>;

// Whether uuid accepts the string as a UUID literal.
pub uninterp spec fn uuid_parses(s: Seq<char>) -> bool;

// Whether jiff accepts the string as a timestamp.
pub uninterp spec fn timestamp_parses(s: Seq<char>) -> bool;

// The top-level JSON shape that serde_json reads from the string.
pub uninterp spec fn json_shape_of(s: Seq<char>) -> JsonShape;

/// Relies on convert_case's `Casing::to_case` with `Case::Snake`: the result
/// depends on the input characters alone.
#[verifier::external_body]
pub fn to_snake_case(s: &str) -> (r: String)
    ensures
        r@ == snake_of(s@),
{
    convert_case::Casing::to_case(&s, convert_case::Case::Snake)
}

/// Relies on convert_case's `Casing::to_case` with `Case::Camel`: the result
/// depends on the input characters alone.
#[verifier::external_body]
pub fn to_camel_case(s: &str) -> (r: String)
    ensures
        r@ == camel_of(s@),
{
    convert_case::Casing::to_case(&s, convert_case::Case::Camel)
}

/// Relies on `uuid::Uuid::try_parse`: whether the text is a UUID literal
/// depends on the characters alone.
#[verifier::external_body]
pub fn is_uuid_literal(s: &str) -> (r: bool)
    ensures
        r == uuid_parses(s@),
{
    uuid::Uuid::try_parse(s).is_ok()
}

/// Relies on jiff's `FromStr` for `Timestamp`: whether the text is an
/// RFC3339-style timestamp depends on the characters alone.
#[verifier::external_body]
pub fn is_timestamp_literal(s: &str) -> (r: bool)
    ensures
        r == timestamp_parses(s@),
{
    s.parse::<jiff::Timestamp>().is_ok()
}

/// Relies on `serde_json::from_str::<Value>` to read the top-level shape of
/// a JSON literal, on `Value::to_string` for each element's serialized text
/// and on `Value::as_str` for a string element's content.  A JSON string
/// literal spends at least its two quote characters on top of its content,
/// so an unwrapped string is strictly shorter than its source text.
#[verifier::external_body]
pub fn json_shape(s: &str) -> (r: JsonShape)
    ensures
        r == json_shape_of(s@),
        r matches JsonShape::Text(t) ==> t@.len() < s@.len(),
{
    match serde_json::from_str::<serde_json::Value>(s) {
        Err(_) => JsonShape::NotJson,
        Ok(serde_json::Value::Null) => JsonShape::Null,
        Ok(serde_json::Value::String(t)) => JsonShape::Text(t),
        Ok(serde_json::Value::Array(v)) => JsonShape::Array(
            v.iter().map(
                |e| JsonElem { text: e.to_string(), quoted: e.as_str().map(|q| q.to_string()) },
            ).collect(),
        ),
        Ok(other) => JsonShape::Scalar(other.to_string()),
    }
}

} // verus!
