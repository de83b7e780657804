//! Trusted declarations for reading the JSON that the metadata probe
//! prints. Each wrapper holds one `serde_json` call; the parsed document is
//! opaque here, so the wrappers promise nothing about its contents — the
//! verified parsing logic takes the extracted plain values as arguments.
use vstd::prelude::*;

verus! {

/// Declares `serde_json::Value` so it can appear in signatures; its
/// contents stay opaque to the verifier.
#[verifier::external_type_specification]
#[verifier::external_body]
pub struct ExJsonValue(serde_json::Value);

/// Relies on `serde_json::from_str`: parses a JSON document, `None` on any
/// parse error.
#[verifier::external_body]
pub(crate) fn json_parse(s: &str) -> Option<serde_json::Value> {
    serde_json::from_str(s).ok()
}

/// Relies on `serde_json::Value::get`: looks a key up in a JSON object.
#[verifier::external_body]
pub(crate) fn json_get<'a>(v: &'a serde_json::Value, key: &str) -> Option<&'a serde_json::Value> {
    v.get(key)
}

/// Relies on `serde_json::Value::as_array`: the elements of a JSON array.
#[verifier::external_body]
pub(crate) fn json_as_array(v: &serde_json::Value) -> Option<&Vec<serde_json::Value>> {
    v.as_array()
}

/// Relies on `serde_json::Value::as_u64`: a JSON number as an unsigned
/// integer, when it is one.
#[verifier::external_body]
pub(crate) fn json_as_u64(v: &serde_json::Value) -> Option<u64> {
    v.as_u64()
}

/// Relies on `serde_json::Value::as_str`: a JSON string's text.
#[verifier::external_body]
pub(crate) fn json_as_str<'a>(v: &'a serde_json::Value) -> Option<&'a str> {
    v.as_str()
}

} // verus!
