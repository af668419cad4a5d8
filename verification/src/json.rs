//! The structured-payload type carried through the engine unchanged:
//! `serde_json::Value`, opaque to the verified code.

use vstd::prelude::*;

verus! {

#[verifier::external_type_specification]
#[verifier::external_body]
pub struct ExJsonValue(serde_json::Value);

#[verifier::external_type_specification]
#[verifier::external_body]
pub struct ExJsonNumber(serde_json::Number);

/// The document `serde_json::from_slice` decodes from these bytes, if
/// they are valid JSON.
pub uninterp spec fn json_document(bytes: Seq<u8>) -> Option<serde_json::Value>;

/// The text (`Display`) of the error `serde_json::from_slice` reports on
/// these bytes.
pub uninterp spec fn json_error_text(bytes: Seq<u8>) -> Seq<char>;

/// The `"value"` member of a JSON object; `None` for any other value and
/// for an object without that member.
pub uninterp spec fn value_member(v: serde_json::Value) -> Option<serde_json::Value>;

/// Which kind of JSON value a document is.
pub uninterp spec fn scalar_of(v: serde_json::Value) -> JsonScalar;

/// A JSON value split by kind: the three scalar kinds the engine reads,
/// and everything else.
#[derive(Debug)]
pub enum JsonScalar {
    Number(serde_json::Number),
    Text(String),
    Boolean(bool),
    Other(serde_json::Value),
}

/// Trusted: `serde_json::from_slice` decodes a document from bytes; the
/// result depends on the bytes alone (`json_document`), and a failure is
/// reported with the error's text (`json_error_text`).
#[verifier::external_body]
pub(crate) fn parse_json(bytes: &[u8]) -> (r: Result<serde_json::Value, String>)
    ensures
        match r {
            Ok(v) => json_document(bytes@) == Some(v),
            Err(m) => json_document(bytes@) is None && m@ == json_error_text(bytes@),
        },
{
    match serde_json::from_slice(bytes) {
        Ok(v) => Ok(v),
        Err(e) => Err(e.to_string()),
    }
}

/// Trusted: `serde_json::Map::get("value")` on an object (cloned); `None`
/// for a value that is not an object.
#[verifier::external_body]
pub(crate) fn json_value_member(v: &serde_json::Value) -> (r: Option<serde_json::Value>)
    ensures
        r == value_member(*v),
{
    match v {
        serde_json::Value::Object(o) => o.get("value").cloned(),
        _ => None,
    }
}

/// Trusted: tells the variants of `serde_json::Value` apart, moving the
/// number, string or boolean out.
#[verifier::external_body]
pub(crate) fn json_scalar(v: serde_json::Value) -> (r: JsonScalar)
    ensures
        r == scalar_of(v),
{
    match v {
        serde_json::Value::Number(n) => JsonScalar::Number(n),
        serde_json::Value::String(s) => JsonScalar::Text(s),
        serde_json::Value::Bool(b) => JsonScalar::Boolean(b),
        other => JsonScalar::Other(other),
    }
}

/// The JSON text of a value (`serde_json::Value::to_string`).
pub uninterp spec fn json_text(v: serde_json::Value) -> Seq<char>;

/// Trusted: `serde_json::Value::to_string`; the text depends on the value
/// alone (`json_text`).
#[verifier::external_body]
pub(crate) fn json_to_text(v: &serde_json::Value) -> (r: String)
    ensures
        r@ == json_text(*v),
{
    v.to_string()
}

/// Trusted: `<serde_json::Value as Clone>::clone` yields an identical value.
#[verifier::external_body]
pub(crate) fn clone_json(v: &serde_json::Value) -> (r: serde_json::Value)
    ensures
        r == *v,
{
    v.clone()
}

/// The JSON string value of a text (`serde_json::Value::String`).
pub uninterp spec fn text_value(s: Seq<char>) -> serde_json::Value;

/// The JSON boolean value (`serde_json::Value::Bool`).
pub uninterp spec fn bool_value(b: bool) -> serde_json::Value;

/// Trusted: `serde_json::Value::from(&str)`, a string value holding the
/// text.
#[verifier::external_body]
pub(crate) fn json_text_value(s: &str) -> (r: serde_json::Value)
    ensures
        r == text_value(s@),
{
    serde_json::Value::from(s)
}

/// Trusted: `serde_json::Value::from(bool)`, a boolean value.
#[verifier::external_body]
pub(crate) fn json_bool_value(b: bool) -> (r: serde_json::Value)
    ensures
        r == bool_value(b),
{
    serde_json::Value::from(b)
}


/// The member `key` of a JSON object (`serde_json::Value::get` with a
/// string key): `None` when the value is not an object or has no such
/// member.
pub uninterp spec fn member_of(v: serde_json::Value, key: Seq<char>) -> Option<serde_json::Value>;

/// The elements of a JSON array (`serde_json::Value::as_array`): `None`
/// when the value is not an array.
pub uninterp spec fn array_items(v: serde_json::Value) -> Option<Seq<serde_json::Value>>;

/// Trusted: `serde_json::Value::get(key)`, cloned; the result depends on
/// the value and the key alone (`member_of`).
#[verifier::external_body]
pub(crate) fn json_member(v: &serde_json::Value, key: &str) -> (r: Option<serde_json::Value>)
    ensures
        r == member_of(*v, key@),
{
    v.get(key).cloned()
}

/// Trusted: `serde_json::Value::as_array`, cloned; the result depends on
/// the value alone (`array_items`).
#[verifier::external_body]
pub(crate) fn json_array_items(v: &serde_json::Value) -> (r: Option<Vec<serde_json::Value>>)
    ensures
        match r {
            Some(items) => array_items(*v) == Some(items@),
            None => array_items(*v) is None,
        },
{
    v.as_array().cloned()
}

/// The JSON object collected from these members
/// (`serde_json::Map::from_iter`; a repeated key keeps its last value).
pub uninterp spec fn object_of(members: Seq<(Seq<char>, serde_json::Value)>) -> serde_json::Value;

/// Members with their names as characters.
pub open spec fn members_view(m: Seq<(String, serde_json::Value)>) -> Seq<(Seq<char>, serde_json::Value)> {
    m.map_values(|p: (String, serde_json::Value)| (p.0@, p.1))
}

/// Trusted: collects the members into a `serde_json::Map` and wraps it
/// as an object; the value depends on the members alone (`object_of`).
#[verifier::external_body]
pub(crate) fn json_object(members: Vec<(String, serde_json::Value)>) -> (r: serde_json::Value)
    ensures
        r == object_of(members_view(members@)),
{
    serde_json::Value::Object(members.into_iter().collect())
}

/// The JSON number of an unsigned integer (`serde_json::Value::from(u64)`).
pub uninterp spec fn u64_value(v: u64) -> serde_json::Value;

/// The JSON number of a signed integer (`serde_json::Value::from(i64)`).
pub uninterp spec fn i64_value(v: i64) -> serde_json::Value;

/// The JSON of an optional value (`serde_json::Value::from(Option<Value>)`):
/// null when absent.
pub uninterp spec fn option_value(o: Option<serde_json::Value>) -> serde_json::Value;

/// Trusted: `serde_json::Value::from(u64)`.
#[verifier::external_body]
pub(crate) fn json_u64_value(v: u64) -> (r: serde_json::Value)
    ensures
        r == u64_value(v),
{
    serde_json::Value::from(v)
}

/// Trusted: `serde_json::Value::from(i64)`.
#[verifier::external_body]
pub(crate) fn json_i64_value(v: i64) -> (r: serde_json::Value)
    ensures
        r == i64_value(v),
{
    serde_json::Value::from(v)
}

/// Trusted: `serde_json::Value::from(Option<Value>)`: the value itself
/// when present, null when absent.
#[verifier::external_body]
pub(crate) fn json_option_value(o: Option<serde_json::Value>) -> (r: serde_json::Value)
    ensures
        r == option_value(o),
        o matches Some(v) ==> r == v,
{
    serde_json::Value::from(o)
}

} // verus!
