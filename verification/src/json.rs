//! JSON documents: their mathematical model, and the calls into `serde_json`
//! that read one.

use vstd::prelude::*;

verus! {

/// The model of a JSON value. Of a number it keeps what the manifest reader
/// asks of one: its value where it is written as an integer, without
/// fraction or exponent, and lies between 0 and `u64::MAX`.
pub enum Json {
    Null,
    Bool(bool),
    Number(Option<u64>),
    Text(Seq<char>),
    Array(Seq<Json>),
    Object(Map<Seq<char>, Json>),
}

/// `serde_json::Value`: a JSON value as `serde_json` holds it. Nothing of
/// its inside is known here but what [`json_of`] names.
#[verifier::external_type_specification]
#[verifier::external_body]
pub struct ExValue(serde_json::Value);

/// `serde_json::Error`: why and where a text was refused.
#[verifier::external_type_specification]
#[verifier::external_body]
pub struct ExError(serde_json::Error);

/// The JSON value that a `serde_json::Value` holds.
pub uninterp spec fn json_of(value: serde_json::Value) -> Json;

/// The JSON value that `serde_json::from_str` reads from a text, where it
/// accepts the text.
pub uninterp spec fn json_text(text: Seq<char>) -> Option<Json>;

/// `serde_json::from_str` at the type `Value`: the value that the text
/// denotes, or an error where the text is refused.
#[verifier::external_body]
pub(crate) fn read_json(text: &str) -> (document: Result<serde_json::Value, serde_json::Error>)
    ensures
        match document {
            Ok(value) => json_text(text@) == Some(json_of(value)),
            Err(_) => json_text(text@) is None,
        },
{
    serde_json::from_str::<serde_json::Value>(text)
}

/// `serde_json::Error::line`: the line at which the text was refused.
#[verifier::external_body]
pub(crate) fn error_line(error: &serde_json::Error) -> usize {
    error.line()
}

/// `serde_json::Error::column`: the column at which the text was refused.
#[verifier::external_body]
pub(crate) fn error_column(error: &serde_json::Error) -> usize {
    error.column()
}

/// `Value::get` with a string key: the member of that name where the value
/// is an object that has one, nothing otherwise.
#[verifier::external_body]
pub(crate) fn member<'a>(value: &'a serde_json::Value, key: &str) -> (found: Option<
    &'a serde_json::Value,
>)
    ensures
        match json_of(*value) {
            Json::Object(members) if members.contains_key(key@) => found matches Some(inner)
                && json_of(*inner) == members[key@],
            _ => found is None,
        },
{
    value.get(key)
}

/// `Value::is_object`: whether the value is an object.
#[verifier::external_body]
pub(crate) fn is_object(value: &serde_json::Value) -> (object: bool)
    ensures
        object == (json_of(*value) is Object),
{
    value.is_object()
}

/// `Value::as_array`: the elements in order where the value is an array,
/// nothing otherwise.
#[verifier::external_body]
pub(crate) fn as_array<'a>(value: &'a serde_json::Value) -> (found: Option<
    &'a Vec<serde_json::Value>,
>)
    ensures
        match json_of(*value) {
            Json::Array(items) => found matches Some(list) && list@.len() == items.len()
                && forall|i: int|
                0 <= i < items.len() ==> json_of(#[trigger] list@[i]) == items[i],
            _ => found is None,
        },
{
    value.as_array()
}

/// `Value::as_u64`: the number where the value is one that is held as an
/// unsigned integer of 64 bits, nothing otherwise.
#[verifier::external_body]
pub(crate) fn as_u64(value: &serde_json::Value) -> (found: Option<u64>)
    ensures
        match json_of(*value) {
            Json::Number(number) => found == number,
            _ => found is None,
        },
{
    value.as_u64()
}

/// `Value::as_str`: the text where the value is a string, nothing otherwise.
#[verifier::external_body]
pub(crate) fn as_str<'a>(value: &'a serde_json::Value) -> (found: Option<&'a str>)
    ensures
        match json_of(*value) {
            Json::Text(text) => found matches Some(inner) && inner@ == text,
            _ => found is None,
        },
{
    value.as_str()
}

} // verus!
