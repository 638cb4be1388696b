//! JSON values, by the `serde_json` crate.

use serde_json::Value;
use vstd::prelude::*;
use vstd::utf8::*;

verus! {

/// A JSON value.
pub enum Json {
    /// `null`.
    Null,
    /// A truth value.
    Bool(bool),
    /// A number, as it is written.
    Number(Seq<char>),
    /// A string.
    Text(Seq<char>),
    /// An array.
    Array(Seq<Json>),
    /// An object.
    Object(Map<Seq<char>, Json>),
}

/// A value of the `serde_json` crate.
#[verifier::external_type_specification]
#[verifier::external_body]
pub struct ExValue(Value);

/// What a value of the `serde_json` crate holds.
pub uninterp spec fn json_of(v: Value) -> Json;

/// What `Value`'s `to_string` writes. Objects are written in the order of their keys.
pub uninterp spec fn json_text(j: Json) -> Seq<char>;

/// What `serde_json::from_slice` reads as a value; `None` if it fails.
pub uninterp spec fn json_parsed(bytes: Seq<u8>) -> Option<Json>;

/// What some values hold.
pub open spec fn json_seq(s: Seq<Value>) -> Seq<Json> {
    Seq::new(s.len(), |i: int| json_of(s[i]))
}

/// Whether a number is written as an integer.
pub open spec fn is_integer_text(s: Seq<char>) -> bool {
    forall|i: int| 0 <= i < s.len() ==> (#[trigger] s[i] == '-' || '0' <= s[i] <= '9')
}

/// Whether a value reads back from what it is written as: its numbers are integers, and arrays
/// and objects are not nested deeper than `depth`.
pub open spec fn is_plain(j: Json, depth: nat) -> bool
    decreases depth,
{
    match j {
        Json::Null => true,
        Json::Bool(_) => true,
        Json::Number(n) => is_integer_text(n),
        Json::Text(_) => true,
        Json::Array(items) => depth > 0 && forall|i: int|
            0 <= i < items.len() ==> is_plain(#[trigger] items[i], (depth - 1) as nat),
        Json::Object(fields) => depth > 0 && forall|k: Seq<char>|
            fields.contains_key(k) ==> is_plain(#[trigger] fields[k], (depth - 1) as nat),
    }
}

/// How deep arrays and objects may be nested for the reader.
pub open spec fn nesting_limit() -> nat {
    127
}

/// Calls `serde_json::from_slice`. Of the error nothing is said.
#[verifier::external_body]
pub(crate) fn parse(bytes: &[u8]) -> (r: Option<Value>)
    ensures
        match r {
            Some(v) => json_parsed(bytes@) == Some(json_of(v)),
            None => json_parsed(bytes@) is None,
        },
{
    serde_json::from_slice(bytes).ok()
}

/// Calls `to_string` of a `Value`. What it writes reads back, if its numbers are integers and it
/// is not nested too deep for the reader.
#[verifier::external_body]
pub(crate) fn text(v: &Value) -> (r: String)
    ensures
        r@ == json_text(json_of(*v)),
        is_plain(json_of(*v), nesting_limit()) ==> json_parsed(encode_utf8(r@)) == Some(
            json_of(*v),
        ),
{
    v.to_string()
}

/// Calls `Value::as_array`.
#[verifier::external_body]
pub(crate) fn items(v: &Value) -> (r: Option<&Vec<Value>>)
    ensures
        match json_of(*v) {
            Json::Array(items) => r matches Some(s) && json_seq(s@) == items,
            _ => r is None,
        },
{
    v.as_array()
}

/// Calls `Value::as_str`.
#[verifier::external_body]
pub(crate) fn string(v: &Value) -> (r: Option<&str>)
    ensures
        match json_of(*v) {
            Json::Text(t) => r matches Some(s) && s@ == t,
            _ => r is None,
        },
{
    v.as_str()
}

/// Calls `Value::is_object`.
#[verifier::external_body]
pub(crate) fn is_object(v: &Value) -> (r: bool)
    ensures
        r == (json_of(*v) is Object),
{
    v.is_object()
}

/// Calls `clone` of a `Value`.
#[verifier::external_body]
pub(crate) fn copy(v: &Value) -> (r: Value)
    ensures
        json_of(r) == json_of(*v),
{
    v.clone()
}

/// `Value::Null`.
#[verifier::external_body]
pub(crate) fn null() -> (r: Value)
    ensures
        json_of(r) == Json::Null,
{
    Value::Null
}

/// `Value::String`.
#[verifier::external_body]
pub(crate) fn of_string(s: String) -> (r: Value)
    ensures
        json_of(r) == Json::Text(s@),
{
    Value::String(s)
}

/// `Value::from` on bytes: an array of numbers.
#[verifier::external_body]
pub(crate) fn of_bytes(s: &[u8]) -> (r: Value)
    ensures
        json_of(r) == bytes_json(s@),
{
    Value::from(s)
}

/// The array of the numbers of some bytes.
pub open spec fn bytes_json(s: Seq<u8>) -> Json {
    Json::Array(s.map_values(|b: u8| Json::Number(crate::text::decimal(b as nat))))
}

/// `Value::Array`.
#[verifier::external_body]
pub(crate) fn array(items: Vec<Value>) -> (r: Value)
    ensures
        json_of(r) == Json::Array(json_seq(items@)),
{
    Value::Array(items)
}

/// `Value::Object` of no fields.
#[verifier::external_body]
pub(crate) fn object() -> (r: Value)
    ensures
        json_of(r) is Object,
        json_of(r)->Object_0.dom() == Set::<Seq<char>>::empty(),
{
    Value::Object(serde_json::Map::new())
}

/// Calls `serde_json::Map::insert` on the fields of an object.
#[verifier::external_body]
pub(crate) fn set_field(v: &mut Value, k: &str, field: Value)
    requires
        json_of(*old(v)) is Object,
    ensures
        json_of(*final(v)) == Json::Object(
            json_of(*old(v))->Object_0.insert(k@, json_of(field)),
        ),
{
    v.as_object_mut().unwrap().insert(k.to_owned(), field);
}

/// An object without fields.
pub open spec fn no_fields() -> Json {
    Json::Object(Map::empty())
}

/// An object without fields.
pub fn empty_object() -> (r: Value)
    ensures
        json_of(r) == no_fields(),
{
    let r = object();
    assert(json_of(r)->Object_0 =~= Map::<Seq<char>, Json>::empty());
    r
}

/// An object with one field.
pub open spec fn field(k: Seq<char>, v: Json) -> Json {
    Json::Object(Map::<Seq<char>, Json>::empty().insert(k, v))
}

/// An object with one field.
pub fn object_with(k: &str, v: Value) -> (r: Value)
    ensures
        json_of(r) == field(k@, json_of(v)),
{
    let mut r = empty_object();
    set_field(&mut r, k, v);
    r
}

/// A string, or `null` if there is none.
pub open spec fn optional(s: Option<Seq<char>>) -> Json {
    match s {
        Some(t) => Json::Text(t),
        None => Json::Null,
    }
}

/// A string, or `null` if there is none.
pub fn optional_string(s: Option<&str>) -> (r: Value)
    ensures
        json_of(r) == optional(
            match s {
                Some(t) => Some(t@),
                None => None,
            },
        ),
{
    match s {
        Some(t) => of_string(t.to_owned()),
        None => null(),
    }
}

/// The string that a value is, if it is one.
pub open spec fn as_text(j: Json) -> Option<Seq<char>> {
    match j {
        Json::Text(t) => Some(t),
        _ => None,
    }
}

} // verus!
