//! Reading fields of JSON text with `serde_json`.
use vstd::prelude::*;

verus! {

/// Whether `serde_json` reads `content` as a JSON value.
pub uninterp spec fn json_accepts(content: Seq<char>) -> bool;

/// What `serde_json` reads at key `key` of the JSON value in `content`
/// when it is a boolean (`None` for text that is no JSON, a value that is no
/// object, a missing key, or a field that holds no boolean).
pub uninterp spec fn json_bool_at(content: Seq<char>, key: Seq<char>) -> Option<bool>;

/// What `serde_json` reads at key `key` of the JSON value in `content`
/// when it is a string (`None` otherwise, as for `json_bool_at`).
pub uninterp spec fn json_text_at(content: Seq<char>, key: Seq<char>) -> Option<Seq<char>>;

/// Calls `serde_json::from_str::<serde_json::Value>` and tells whether it
/// succeeded; the contract claims only that the answer is `json_accepts`
/// of the text.
#[verifier::external_body]
pub(crate) fn is_json(content: &str) -> (r: bool)
    ensures
        r == json_accepts(content@),
{
    serde_json::from_str::<serde_json::Value>(content).is_ok()
}

/// Calls `serde_json::from_str::<serde_json::Value>`, then `Value::get`
/// with `key` and `Value::as_bool`; the contract claims that the answer is
/// `json_bool_at` of the text and the key, and `None` for text that
/// `serde_json` does not read.
#[verifier::external_body]
pub(crate) fn json_bool_field(content: &str, key: &str) -> (r: Option<bool>)
    ensures
        r == json_bool_at(content@, key@),
        !json_accepts(content@) ==> r is None,
{
    match serde_json::from_str::<serde_json::Value>(content) {
        Ok(v) => match v.get(key) {
            Some(field) => field.as_bool(),
            None => None,
        },
        Err(_) => None,
    }
}

/// Calls `serde_json::from_str::<serde_json::Value>`, then `Value::get`
/// with `key` and `Value::as_str`, and copies the string; the contract
/// claims that the answer is `json_text_at` of the text and the key, and
/// `None` for text that `serde_json` does not read.
#[verifier::external_body]
pub(crate) fn json_text_field(content: &str, key: &str) -> (r: Option<String>)
    ensures
        r matches Some(s) ==> json_text_at(content@, key@) == Some(s@),
        r is None <==> json_text_at(content@, key@) is None,
        !json_accepts(content@) ==> r is None,
{
    match serde_json::from_str::<serde_json::Value>(content) {
        Ok(v) => match v.get(key) {
            Some(field) => match field.as_str() {
                Some(s) => Some(s.to_string()),
                None => None,
            },
            None => None,
        },
        Err(_) => None,
    }
}

/// A JSON value as `serde_json` reads it.
#[verifier::external_type_specification]
#[verifier::external_body]
pub struct ExJsonValue(serde_json::Value);

/// The message `serde_json` gives when it cannot read `content` as JSON.
pub uninterp spec fn json_error_of(content: Seq<char>) -> Seq<char>;

/// The value `serde_json` reads from `content` (meaningful when
/// `json_accepts(content)`).
pub uninterp spec fn json_value_of(content: Seq<char>) -> serde_json::Value;

/// What `serde_json` makes of `value` when `key` is set to the boolean `b`
/// in it: the object with that field inserted (or replaced), and any value
/// that is no object unchanged.
pub uninterp spec fn json_with_bool(value: serde_json::Value, key: Seq<char>, b: bool) -> serde_json::Value;

/// Calls `serde_json::from_str::<serde_json::Value>` and hands back the
/// value, or the error's `to_string`; the contract claims that it succeeds
/// exactly when `json_accepts` says so, that the value is `json_value_of`
/// of the text, and that the error text is `json_error_of` of the text.
#[verifier::external_body]
pub(crate) fn parse_json_value(content: &str) -> (r: Result<serde_json::Value, String>)
    ensures
        r is Ok <==> json_accepts(content@),
        r matches Ok(v) ==> v == json_value_of(content@),
        r matches Err(e) ==> e@ == json_error_of(content@),
{
    match serde_json::from_str::<serde_json::Value>(content) {
        Ok(v) => Ok(v),
        Err(e) => Err(e.to_string()),
    }
}

/// Calls `Value::as_object_mut` and, on an object, `Map::insert` of `key`
/// with `Value::Bool(b)`; the contract claims that the value becomes
/// `json_with_bool` of the old value, the key and the boolean.
#[verifier::external_body]
pub(crate) fn set_json_bool(value: &mut serde_json::Value, key: &str, b: bool)
    ensures
        *final(value) == json_with_bool(*old(value), key@, b),
{
    if let Some(obj) = value.as_object_mut() {
        obj.insert(key.to_string(), serde_json::Value::Bool(b));
    }
}

} // verus!
