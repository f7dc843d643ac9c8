//! JSON values, as `serde_json` holds them.

use vstd::prelude::*;

use crate::text;

verus! {

/// What a JSON value is. Of a number only its numeral is told.
pub enum Json {
    Null,
    Bool(bool),
    Number(text::Text),
    Text(text::Text),
    Array(Seq<Json>),
    Object(Map<text::Text, Json>),
}

/// `serde_json::Value`.
#[verifier::external_type_specification]
#[verifier::external_body]
pub struct ExValue(serde_json::Value);

/// What a `serde_json::Value` holds.
pub uninterp spec fn json_model(v: serde_json::Value) -> Json;

/// What an object holds at a key.
pub open spec fn field(v: Json, key: text::Text) -> Option<Json> {
    match v {
        Json::Object(m) => if m.contains_key(key) {
            Some(m[key])
        } else {
            None
        },
        _ => None,
    }
}

/// The text that a value is, if it is one.
pub open spec fn as_text(v: Json) -> Option<text::Text> {
    match v {
        Json::Text(t) => Some(t),
        _ => None,
    }
}

/// The text that an object holds at a key.
pub open spec fn text_field(v: Json, key: text::Text) -> Option<text::Text> {
    match field(v, key) {
        Some(inner) => as_text(inner),
        None => None,
    }
}

/// What the values hold, one by one.
pub open spec fn models(values: Seq<serde_json::Value>) -> Seq<Json> {
    Seq::new(values.len(), |i: int| json_model(values[i]))
}

/// `serde_json::Value::as_str`: the text of a string value, nothing of any other.
pub assume_specification[ serde_json::Value::as_str ](v: &serde_json::Value) -> (r: Option<&str>)
    ensures
        text::opt_view(r) == as_text(json_model(*v)),
;

/// `serde_json::Value::get` with a text for an index: what an object holds at
/// that key, nothing for any other value.
#[verifier::external_body]
pub(crate) fn get<'a>(v: &'a serde_json::Value, key: &str) -> (r: Option<&'a serde_json::Value>)
    ensures
        match r {
            Some(inner) => field(json_model(*v), key@) == Some(json_model(*inner)),
            None => field(json_model(*v), key@) is None,
        },
{
    v.get(key)
}

/// `Clone` of `serde_json::Value`: the copy holds what the value holds.
#[verifier::external_body]
pub(crate) fn copy_of(v: &serde_json::Value) -> (r: serde_json::Value)
    ensures
        json_model(r) == json_model(*v),
{
    v.clone()
}

/// `serde_json::Value::Null`.
#[verifier::external_body]
pub(crate) fn null() -> (r: serde_json::Value)
    ensures
        json_model(r) == Json::Null,
{
    serde_json::Value::Null
}

/// `serde_json::Value::Bool`.
#[verifier::external_body]
pub(crate) fn boolean(b: bool) -> (r: serde_json::Value)
    ensures
        json_model(r) == Json::Bool(b),
{
    serde_json::Value::Bool(b)
}

/// `serde_json::Value::String`.
#[verifier::external_body]
pub(crate) fn string(t: &str) -> (r: serde_json::Value)
    ensures
        json_model(r) == Json::Text(t@),
{
    serde_json::Value::String(t.to_string())
}

/// `serde_json::Value::Array`: the values in their order.
#[verifier::external_body]
pub(crate) fn array(values: Vec<serde_json::Value>) -> (r: serde_json::Value)
    ensures
        json_model(r) == Json::Array(models(values@)),
{
    serde_json::Value::Array(values)
}

/// `serde_json::Map::new`, as a value: an object without entries.
#[verifier::external_body]
pub(crate) fn empty_object() -> (r: serde_json::Value)
    ensures
        json_model(r) == Json::Object(Map::empty()),
{
    serde_json::Value::Object(serde_json::Map::new())
}

/// `serde_json::Map::insert` into an object: it holds `value` at `key`, in place
/// of what it held there. Any other value stays as it is.
#[verifier::external_body]
pub(crate) fn with_field(object: serde_json::Value, key: &str, value: serde_json::Value) -> (r:
    serde_json::Value)
    ensures
        json_model(r) == match json_model(object) {
            Json::Object(m) => Json::Object(m.insert(key@, json_model(value))),
            other => other,
        },
{
    match object {
        serde_json::Value::Object(mut map) => {
            map.insert(key.to_string(), value);
            serde_json::Value::Object(map)
        },
        other => other,
    }
}

/// The text that an object holds at a key.
pub(crate) fn get_text<'a>(v: &'a serde_json::Value, key: &str) -> (r: Option<&'a str>)
    ensures
        text::opt_view(r) == text_field(json_model(*v), key@),
{
    match get(v, key) {
        Some(inner) => inner.as_str(),
        None => None,
    }
}

} // verus!
