//! Trusted access to `serde_json` values.
//!
//! A wire frame's payload is parsed by `serde_json` and navigated through the
//! small wrappers below.  A `serde_json::Value` is opaque to the verifier, so
//! none of these wrappers promises anything about what comes back; the frame
//! extraction in `frame_parse` is verified to behave correctly for every
//! possible answer.

use vstd::prelude::*;

verus! {

#[verifier::external_type_specification]
#[verifier::external_body]
pub struct ExValue(serde_json::Value);

/// Relies on `serde_json::from_str`: parses a JSON document, or fails.
#[verifier::external_body]
pub(crate) fn json_parse(s: &str) -> (r: Option<serde_json::Value>)
{
    serde_json::from_str(s).ok()
}

/// Relies on `serde_json::Value::get`: the value under a key of an object.
#[verifier::external_body]
pub(crate) fn json_get<'a>(v: &'a serde_json::Value, key: &str) -> (r: Option<
    &'a serde_json::Value,
>)
{
    v.get(key)
}

/// Relies on `serde_json::Value::as_str`: the text of a JSON string.
#[verifier::external_body]
pub(crate) fn json_as_string(v: &serde_json::Value) -> (r: Option<String>)
{
    v.as_str().map(str::to_string)
}

/// Relies on `serde_json::Value::as_array`: the elements of a JSON array.
#[verifier::external_body]
pub(crate) fn json_as_array<'a>(v: &'a serde_json::Value) -> (r: Option<
    &'a Vec<serde_json::Value>,
>)
{
    v.as_array()
}

/// Relies on `serde_json::Value::is_array`: whether this is a JSON array.
#[verifier::external_body]
pub(crate) fn json_is_array(v: &serde_json::Value) -> (r: bool)
{
    v.is_array()
}

/// Relies on `serde_json::Value::is_null`: whether this is JSON `null`.
#[verifier::external_body]
pub(crate) fn json_is_null(v: &serde_json::Value) -> (r: bool)
{
    v.is_null()
}

/// Relies on `serde_json::Value`'s `Clone`: a deep copy of a JSON value.
#[verifier::external_body]
pub(crate) fn json_clone(v: &serde_json::Value) -> (r: serde_json::Value)
{
    v.clone()
}

/// Relies on `serde_json::Value::as_object_mut` and `Map::insert`: sets a
/// key of a JSON object; a non-object is left unchanged.
#[verifier::external_body]
pub(crate) fn json_object_insert(v: &mut serde_json::Value, key: &str, value: serde_json::Value)
{
    if let Some(obj) = v.as_object_mut() {
        obj.insert(key.to_string(), value);
    }
}

/// Relies on `serde_json::Value::as_i64`: a JSON number as a signed integer.
#[verifier::external_body]
pub(crate) fn json_as_i64(v: &serde_json::Value) -> (r: Option<i64>)
{
    v.as_i64()
}

/// Relies on `serde_json::Value::as_u64`: a JSON number as an unsigned integer.
#[verifier::external_body]
pub(crate) fn json_as_u64(v: &serde_json::Value) -> (r: Option<u64>)
{
    v.as_u64()
}

} // verus!
