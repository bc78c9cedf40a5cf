//! The boundary to the `serde_json` crate: what the library relies on of its JSON
//! values.

use vstd::prelude::*;

use serde_json::Value;

verus! {

#[verifier::external_type_specification]
#[verifier::external_body]
pub struct ExValue(serde_json::Value);

#[verifier::external_type_specification]
#[verifier::external_body]
pub struct ExError(serde_json::Error);

/// The values of the JSON array that a text holds, if it can be read as one.
pub uninterp spec fn values_of(json: Seq<char>) -> Option<Seq<serde_json::Value>>;

/// The value that a JSON text holds, if it can be read.
pub uninterp spec fn value_of(json: Seq<char>) -> Option<serde_json::Value>;

/// The value that a JSON object has under a key, if it is an object with that key.
pub uninterp spec fn field_of(value: serde_json::Value, key: Seq<char>) -> Option<serde_json::Value>;

/// The values of a JSON array, if it is one.
pub uninterp spec fn items_of(value: serde_json::Value) -> Option<Seq<serde_json::Value>>;

/// The bits of the double-precision number that a JSON number is taken for, if it
/// is one.
pub uninterp spec fn number_of(value: serde_json::Value) -> Option<u64>;

/// The characters of a JSON string, if it is one.
pub uninterp spec fn text_of(value: serde_json::Value) -> Option<Seq<char>>;

/// The value of a JSON boolean, if it is one.
pub uninterp spec fn flag_of(value: serde_json::Value) -> Option<bool>;

/// The value of a JSON number, if it is a whole one that 64 bits hold.
pub uninterp spec fn count_of(value: serde_json::Value) -> Option<u64>;

/// Whether a JSON value is `null`.
pub uninterp spec fn is_nothing(value: serde_json::Value) -> bool;

/// `serde_json::from_str` into a value: the value that the text holds, or an error
/// where it cannot be read.
#[verifier::external_body]
pub(crate) fn parse_value(json: &str) -> (r: Result<Value, serde_json::Error>)
    ensures
        match r {
            Ok(value) => value_of(json@) == Some(value),
            Err(_) => value_of(json@) is None,
        },
{
    serde_json::from_str(json)
}

/// `serde_json::from_str` into a list of values: the values of the array that the
/// text holds, or an error where it cannot be read as one.
#[verifier::external_body]
pub(crate) fn parse_values(json: &str) -> (r: Result<Vec<Value>, serde_json::Error>)
    ensures
        match r {
            Ok(values) => values_of(json@) == Some(values@),
            Err(_) => values_of(json@) is None,
        },
{
    serde_json::from_str(json)
}

/// `Value::get` with a string: the value that an object has under a key.
#[verifier::external_body]
pub(crate) fn field<'a>(value: &'a Value, key: &str) -> (r: Option<&'a Value>)
    ensures
        match r {
            Some(found) => field_of(*value, key@) == Some(*found),
            None => field_of(*value, key@) is None,
        },
{
    value.get(key)
}

/// `Value::as_array`: the values of an array.
#[verifier::external_body]
pub(crate) fn items(value: &Value) -> (r: Option<&Vec<Value>>)
    ensures
        match r {
            Some(found) => items_of(*value) == Some(found@),
            None => items_of(*value) is None,
        },
{
    value.as_array()
}

/// `Value::as_f64`: the number as a double, here by its bits.
#[verifier::external_body]
pub(crate) fn number_bits(value: &Value) -> (r: Option<u64>)
    ensures
        r == number_of(*value),
{
    value.as_f64().map(|number| number.to_bits())
}

/// `Value::as_str`: the characters of a string.
#[verifier::external_body]
pub(crate) fn text(value: &Value) -> (r: Option<&str>)
    ensures
        match r {
            Some(found) => text_of(*value) == Some(found@),
            None => text_of(*value) is None,
        },
{
    value.as_str()
}

/// `Value::as_bool`: the value of a boolean.
#[verifier::external_body]
pub(crate) fn flag(value: &Value) -> (r: Option<bool>)
    ensures
        r == flag_of(*value),
{
    value.as_bool()
}

/// `Value::as_u64`: the value of a whole number.
#[verifier::external_body]
pub(crate) fn count(value: &Value) -> (r: Option<u64>)
    ensures
        r == count_of(*value),
{
    value.as_u64()
}

/// `Value::is_null`: whether the value is `null`.
#[verifier::external_body]
pub(crate) fn nothing(value: &Value) -> (r: bool)
    ensures
        r == is_nothing(*value),
{
    value.is_null()
}

} // verus!
