//! JSON documents, read by `serde_json`.

use serde_json::Value;

use vstd::prelude::*;

verus! {

/// The type of JSON values in `serde_json`.
#[verifier::external_type_specification]
#[verifier::external_body]
pub struct ExValue(Value);

/// What a JSON value holds. Of a number it is known only whether it is an unsigned integer of
/// 64 bits, and which.
pub enum Json {
    Null,
    Bool(bool),
    Number(Option<u64>),
    Text(Seq<char>),
    Array(Seq<Json>),
    Object(Map<Seq<char>, Json>),
}

impl Json {
    /// The member of an object under `key`.
    pub open spec fn member(self, key: Seq<char>) -> Option<Json> {
        match self {
            Json::Object(members) => if members.contains_key(key) {
                Some(members[key])
            } else {
                None
            },
            _ => None,
        }
    }

    /// The elements of an array.
    pub open spec fn elements(self) -> Option<Seq<Json>> {
        match self {
            Json::Array(elements) => Some(elements),
            _ => None,
        }
    }

    /// The text of a string.
    pub open spec fn text(self) -> Option<Seq<char>> {
        match self {
            Json::Text(text) => Some(text),
            _ => None,
        }
    }

    /// The value of a number that is an unsigned integer of 64 bits.
    pub open spec fn unsigned(self) -> Option<u64> {
        match self {
            Json::Number(n) => n,
            _ => None,
        }
    }

    /// The text of the string under `key`, empty where there is no string under it.
    pub open spec fn text_or_empty(self, key: Seq<char>) -> Seq<char> {
        match self.member(key) {
            Some(value) => match value.text() {
                Some(text) => text,
                None => Seq::empty(),
            },
            None => Seq::empty(),
        }
    }
}

/// What a value of `serde_json` holds.
pub uninterp spec fn json_contents(value: Value) -> Json;

/// What `serde_json::from_slice` reads from `bytes`: the document that they hold, or nothing
/// where they hold none.
pub uninterp spec fn json_document(bytes: Seq<u8>) -> Option<Json>;

/// `serde_json::from_slice` for a `Value`: which document the bytes hold is a function of the
/// bytes.
#[verifier::external_body]
pub(crate) fn parse(bytes: &[u8]) -> (value: Option<Value>)
    ensures
        value is Some <==> json_document(bytes@) is Some,
        value matches Some(v) ==> json_contents(v) == json_document(bytes@)->0,
{
    serde_json::from_slice::<Value>(bytes).ok()
}

/// `Value::get` with a string: the member of an object under that key, and nothing for a value
/// that is no object.
#[verifier::external_body]
pub(crate) fn member<'a>(value: &'a Value, key: &str) -> (found: Option<&'a Value>)
    ensures
        match found {
            Some(v) => json_contents(*value).member(key@) == Some(json_contents(*v)),
            None => json_contents(*value).member(key@) is None,
        },
{
    value.get(key)
}

/// `Value::as_array`: the elements of an array in order, and nothing for any other value.
#[verifier::external_body]
pub(crate) fn elements(value: &Value) -> (found: Option<&Vec<Value>>)
    ensures
        match found {
            Some(vs) => json_contents(*value).elements() == Some(
                vs@.map_values(|v: Value| json_contents(v)),
            ),
            None => json_contents(*value).elements() is None,
        },
{
    value.as_array()
}

/// `Value::as_str`: the text of a string, and nothing for any other value.
#[verifier::external_body]
pub(crate) fn text(value: &Value) -> (found: Option<&str>)
    ensures
        match found {
            Some(s) => json_contents(*value).text() == Some(s@),
            None => json_contents(*value).text() is None,
        },
{
    value.as_str()
}

/// `Value::as_u64`: the value of a number that is an unsigned integer of 64 bits, and nothing
/// for any other value.
#[verifier::external_body]
pub(crate) fn unsigned(value: &Value) -> (found: Option<u64>)
    ensures
        found == json_contents(*value).unsigned(),
{
    value.as_u64()
}

/// The text of the string under `key`, empty where there is no string under it.
pub(crate) fn text_or_empty(value: &Value, key: &str) -> (found: String)
    ensures
        found@ == json_contents(*value).text_or_empty(key@),
{
    match member(value, key) {
        Some(v) => match text(v) {
            Some(s) => s.to_owned(),
            None => String::new(),
        },
        None => String::new(),
    }
}

} // verus!
