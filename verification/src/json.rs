//! JSON text for outgoing payloads, produced by `serde_json`.

use vstd::prelude::*;

verus! {

/// The bytes that `serde_json` writes for the object whose one member has the
/// name `key` and the string `value`.
pub uninterp spec fn json_object(key: Seq<char>, value: Seq<char>) -> Seq<u8>;

/// Calls `serde_json::to_vec` on a `serde_json::Value::Object` with one
/// member, `key`, whose value is the JSON string `value`.
///
/// Trusted: the result is taken to depend on the two texts alone, and is
/// called `json_object` of them. Writing such a value into memory has no
/// failing case in `serde_json`; were there one, the bytes would be empty.
#[verifier::external_body]
pub(crate) fn to_json_object(key: &str, value: &str) -> (bytes: Vec<u8>)
    ensures
        bytes@ == json_object(key@, value@),
{
    let mut members = serde_json::Map::new();
    members.insert(String::from(key), serde_json::Value::String(String::from(value)));
    serde_json::to_vec(&serde_json::Value::Object(members)).unwrap_or_default()
}

} // verus!
