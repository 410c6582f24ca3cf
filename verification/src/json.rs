//! JSON values.
//!
//! Values are `serde_json::Value`s. What one holds is named by [`json_of`],
//! and the text that it serialises to by [`text_of`]; the functions of this
//! module that read or build values are stated over these two names.

use vstd::prelude::*;

verus! {

/// The JSON value type of `serde_json`.
#[verifier::external_type_specification]
#[verifier::external_body]
pub struct ExValue(serde_json::Value);

/// A JSON value.
#[verifier::ext_equal]
pub enum Json {
    Null,
    Bool(bool),
    /// An integer.
    Int(int),
    /// Any other number, by its text.
    Float(Seq<char>),
    Str(Seq<char>),
    Arr(Seq<Json>),
    Obj(Map<Seq<char>, Json>),
}

/// What a `serde_json::Value` holds.
pub uninterp spec fn json_of(v: serde_json::Value) -> Json;

/// The compact text of a `serde_json::Value`.
pub uninterp spec fn text_of(v: serde_json::Value) -> Seq<char>;

/// A value together with its compact text.
#[verifier::ext_equal]
pub struct JsonView {
    pub value: Json,
    pub text: Seq<char>,
}

/// What a `serde_json::Value` holds, and its compact text.
pub open spec fn jv(v: serde_json::Value) -> JsonView {
    JsonView { value: json_of(v), text: text_of(v) }
}

/// The same of an optional value.
pub open spec fn jv_opt(v: Option<serde_json::Value>) -> Option<JsonView> {
    match v {
        Some(x) => Some(jv(x)),
        None => None,
    }
}

/// What the values of a sequence hold.
pub open spec fn jsons(s: Seq<serde_json::Value>) -> Seq<Json> {
    Seq::new(s.len(), |i: int| json_of(s[i]))
}

/// The empty object.
pub open spec fn empty_object() -> JsonView {
    JsonView { value: Json::Obj(Map::empty()), text: "{}"@ }
}

/// The value that `serde_json::from_str` reads from a text, `None` where it fails.
pub uninterp spec fn json_parse(text: Seq<char>) -> Option<JsonView>;

/// The entry of an object under `key`.
pub open spec fn field(j: Json, key: Seq<char>) -> Option<Json> {
    match j {
        Json::Obj(m) => if m.contains_key(key) {
            Some(m[key])
        } else {
            None
        },
        _ => None,
    }
}

/// The characters of a string value.
pub open spec fn as_string(j: Json) -> Option<Seq<char>> {
    match j {
        Json::Str(s) => Some(s),
        _ => None,
    }
}

/// The elements of an array value.
pub open spec fn as_elems(j: Json) -> Option<Seq<Json>> {
    match j {
        Json::Arr(s) => Some(s),
        _ => None,
    }
}

/// The number of an integer value that fits in 64 bits without sign.
pub open spec fn as_number(j: Json) -> Option<u64> {
    match j {
        Json::Int(i) => if 0 <= i <= u64::MAX {
            Some(i as u64)
        } else {
            None
        },
        _ => None,
    }
}

/// What an optional value holds.
pub open spec fn json_opt(v: Option<serde_json::Value>) -> Option<Json> {
    match v {
        Some(x) => Some(json_of(x)),
        None => None,
    }
}

/// An object with an optional further entry.
pub open spec fn put(j: Json, key: Seq<char>, value: Option<Json>) -> Json {
    match (j, value) {
        (Json::Obj(m), Some(v)) => Json::Obj(m.insert(key, v)),
        _ => j,
    }
}

// ---------------------------------------------------------------------------
// Calls into `serde_json`
// ---------------------------------------------------------------------------

/// Cloning a `serde_json::Value` gives a value that holds the same JSON and
/// has the same text.
pub assume_specification[ <serde_json::Value as Clone>::clone ](v: &serde_json::Value) -> (r:
    serde_json::Value)
    ensures
        jv(r) == jv(*v),
;

/// `serde_json::from_str` into a `Value`: `None` stands for an error. The
/// result is named by [`json_parse`].
#[verifier::external_body]
pub(crate) fn parse_value(text: &str) -> (r: Option<serde_json::Value>)
    ensures
        jv_opt(r) == json_parse(text@),
{
    serde_json::from_str::<serde_json::Value>(text).ok()
}

/// `Value::to_string`, the compact text of a value.
#[verifier::external_body]
pub(crate) fn value_text(v: &serde_json::Value) -> (r: String)
    ensures
        r@ == text_of(*v),
{
    v.to_string()
}

/// `Value::get` with a string key: the entry of an object under that key,
/// nothing for another value or another key.
#[verifier::external_body]
pub(crate) fn get<'a>(v: &'a serde_json::Value, key: &str) -> (r: Option<&'a serde_json::Value>)
    ensures
        match r {
            Some(x) => field(json_of(*v), key@) == Some(json_of(*x)),
            None => field(json_of(*v), key@) is None,
        },
{
    v.get(key)
}

/// `Value::as_str`: the text of a string value.
#[verifier::external_body]
pub(crate) fn as_str<'a>(v: &'a serde_json::Value) -> (r: Option<&'a str>)
    ensures
        match r {
            Some(x) => as_string(json_of(*v)) == Some(x@),
            None => as_string(json_of(*v)) is None,
        },
{
    v.as_str()
}

/// `Value::as_array`: the elements of an array value.
#[verifier::external_body]
pub(crate) fn as_array<'a>(v: &'a serde_json::Value) -> (r: Option<&'a Vec<serde_json::Value>>)
    ensures
        match r {
            Some(x) => as_elems(json_of(*v)) == Some(jsons(x@)),
            None => as_elems(json_of(*v)) is None,
        },
{
    v.as_array()
}

/// `Value::as_u64`: the number of a non-negative integer value.
#[verifier::external_body]
pub(crate) fn as_u64(v: &serde_json::Value) -> (r: Option<u64>)
    ensures
        r == as_number(json_of(*v)),
{
    v.as_u64()
}

/// `Value::String`, a string value.
#[verifier::external_body]
pub(crate) fn string_value(s: String) -> (r: serde_json::Value)
    ensures
        json_of(r) == Json::Str(s@),
{
    serde_json::Value::String(s)
}

/// `Value::Bool`, a truth value.
#[verifier::external_body]
pub(crate) fn bool_value(b: bool) -> (r: serde_json::Value)
    ensures
        json_of(r) == Json::Bool(b),
{
    serde_json::Value::Bool(b)
}

/// `Value::from` of a `u64`, an integer value.
#[verifier::external_body]
pub(crate) fn u64_value(n: u64) -> (r: serde_json::Value)
    ensures
        json_of(r) == Json::Int(n as int),
{
    serde_json::Value::from(n)
}

/// `Value::Array`, an array value.
#[verifier::external_body]
pub(crate) fn array_value(items: Vec<serde_json::Value>) -> (r: serde_json::Value)
    ensures
        json_of(r) == Json::Arr(jsons(items@)),
{
    serde_json::Value::Array(items)
}

/// The default `serde_json::Map` as a value: the object without entries,
/// whose text is `{}`.
#[verifier::external_body]
pub(crate) fn empty_object_value() -> (r: serde_json::Value)
    ensures
        jv(r) == empty_object(),
{
    serde_json::Value::Object(serde_json::Map::default())
}

/// `Map::insert` on an object value: the entry under `key` becomes `value`. A
/// value that is no object stays as it is.
#[verifier::external_body]
pub(crate) fn with_entry(v: serde_json::Value, key: String, value: serde_json::Value) -> (r:
    serde_json::Value)
    ensures
        json_of(r) == match json_of(v) {
            Json::Obj(m) => Json::Obj(m.insert(key@, json_of(value))),
            other => other,
        },
{
    match v {
        serde_json::Value::Object(mut map) => {
            map.insert(key, value);
            serde_json::Value::Object(map)
        },
        other => other,
    }
}

/// `Map::remove` on an object value: there is no entry under `key` any more. A
/// value that is no object stays as it is.
#[verifier::external_body]
pub(crate) fn without_entry(v: serde_json::Value, key: &str) -> (r: serde_json::Value)
    ensures
        json_of(r) == match json_of(v) {
            Json::Obj(m) => Json::Obj(m.remove(key@)),
            other => other,
        },
{
    match v {
        serde_json::Value::Object(mut map) => {
            map.remove(key);
            serde_json::Value::Object(map)
        },
        other => other,
    }
}

// ---------------------------------------------------------------------------
// Built on these
// ---------------------------------------------------------------------------

/// `v` with the entry `key`, a string.
pub(crate) fn with_str(v: serde_json::Value, key: &str, s: &str) -> (r: serde_json::Value)
    ensures
        json_of(r) == match json_of(v) {
            Json::Obj(m) => Json::Obj(m.insert(key@, Json::Str(s@))),
            other => other,
        },
{
    with_entry(v, key.to_owned(), string_value(s.to_owned()))
}

/// `v` with the entry `key` if there is a value for it.
pub(crate) fn put_opt(v: serde_json::Value, key: &str, value: Option<serde_json::Value>) -> (r:
    serde_json::Value)
    ensures
        json_of(r) == put(json_of(v), key@, json_opt(value)),
{
    match value {
        Some(x) => with_entry(v, key.to_owned(), x),
        None => v,
    }
}

/// An entry that is put into an object is found under its key, and all others stay; without a value
/// nothing changes.
pub proof fn law_put(m: Map<Seq<char>, Json>, key: Seq<char>, value: Option<Json>, other: Seq<char>)
    ensures
        value is Some ==> field(put(Json::Obj(m), key, value), key) == value,
        other != key ==> field(put(Json::Obj(m), key, value), other) == field(Json::Obj(m), other),
        value is None ==> put(Json::Obj(m), key, value) == Json::Obj(m),
{
}

} // verus!
