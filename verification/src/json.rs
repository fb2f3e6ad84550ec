//! The JSON reader that the diagnostic decoder stands on.
//!
//! Parsing and the accessors of a parsed value are `serde_json`'s. Nothing in
//! this file is proved: each contract states what the library takes the
//! outside function to do.

use vstd::prelude::*;

verus! {

/// `serde_json::Value`: a parsed JSON value, opaque to the verifier.
#[verifier::external_type_specification]
#[verifier::external_body]
pub struct ExValue(serde_json::Value);

/// `serde_json::Error`: why a text is not JSON.
#[verifier::external_type_specification]
#[verifier::external_body]
pub struct ExError(serde_json::Error);

/// The outermost layer of a JSON value, as far as the decoder reads it.
pub enum JsonShape {
    /// `null`.
    Null,
    /// A number written as an integer from 0 to 2^64 - 1.
    Unsigned(u64),
    /// A string.
    Text(Seq<char>),
    /// An array, with its elements in order.
    Array(Seq<serde_json::Value>),
    /// An object, with the value of each key.
    Object(Map<Seq<char>, serde_json::Value>),
    /// A boolean, or a number that is negative or not an integer.
    Other,
}

/// The outermost layer of `value`.
pub uninterp spec fn json_shape(value: serde_json::Value) -> JsonShape;

/// The value that `text` denotes as JSON, or `None` where `text` is not one
/// JSON value.
pub uninterp spec fn json_parsed(text: Seq<char>) -> Option<serde_json::Value>;

/// `serde_json::from_str` at type `Value`: parsing depends on the text
/// alone, and succeeds exactly on the texts that denote a value.
#[verifier::external_body]
pub(crate) fn parse_json(text: &str) -> (r: Result<serde_json::Value, serde_json::Error>)
    ensures
        match r {
            Ok(value) => json_parsed(text@) == Some(value),
            Err(_) => json_parsed(text@).is_none(),
        },
{
    serde_json::from_str::<serde_json::Value>(text)
}

/// `Value::get` with a string index: the member of an object under `key`,
/// `None` where there is no such key or `value` is no object.
#[verifier::external_body]
pub(crate) fn json_member<'a>(value: &'a serde_json::Value, key: &str) -> (r: Option<&'a serde_json::Value>)
    ensures
        match r {
            Some(member) => member_of(*value, key@) == Some(*member),
            None => member_of(*value, key@).is_none(),
        },
{
    value.get(key)
}

/// The member of `value` under `key`, if `value` is an object that has one.
pub open spec fn member_of(value: serde_json::Value, key: Seq<char>) -> Option<serde_json::Value> {
    match json_shape(value) {
        JsonShape::Object(members) => if members.contains_key(key) {
            Some(members[key])
        } else {
            None
        },
        _ => None,
    }
}

/// `Value::is_null`.
pub assume_specification[ serde_json::Value::is_null ](value: &serde_json::Value) -> (r: bool)
    ensures
        r == (json_shape(*value) is Null),
;

/// `Value::is_object`.
pub assume_specification[ serde_json::Value::is_object ](value: &serde_json::Value) -> (r: bool)
    ensures
        r == (json_shape(*value) is Object),
;

/// `Value::as_str`: the text of a string, `None` for any other value.
pub assume_specification<'a>[ serde_json::Value::as_str ](value: &'a serde_json::Value) -> (r:
    Option<&'a str>)
    ensures
        match r {
            Some(text) => json_shape(*value) == JsonShape::Text(text@),
            None => !(json_shape(*value) is Text),
        },
;

/// `Value::as_u64`: the number where it is an integer from 0 to 2^64 - 1,
/// `None` for any other value.
pub assume_specification[ serde_json::Value::as_u64 ](value: &serde_json::Value) -> (r: Option<u64>)
    ensures
        match r {
            Some(n) => json_shape(*value) == JsonShape::Unsigned(n),
            None => !(json_shape(*value) is Unsigned),
        },
;

/// `Value::as_array`: the elements of an array, `None` for any other value.
pub assume_specification<'a>[ serde_json::Value::as_array ](value: &'a serde_json::Value) -> (r:
    Option<&'a Vec<serde_json::Value>>)
    ensures
        match r {
            Some(items) => json_shape(*value) == JsonShape::Array(items@),
            None => !(json_shape(*value) is Array),
        },
;

} // verus!
