//! The few reads of JSON documents that the console needs, made by serde_json.

use vstd::prelude::*;
use crate::engine;

verus! {

/// The string member `key` of the JSON document `json`, as serde_json reads
/// it; `None` where the text is not JSON, the member is absent or is not a string.
pub uninterp spec fn string_member(json: Seq<char>, key: Seq<char>) -> Option<Seq<char>>;

/// Whether the JSON document `json` has a member `key`, whatever its value.
pub uninterp spec fn has_member(json: Seq<char>, key: Seq<char>) -> bool;

/// The message of serde_json's error for a text that is not JSON; `None` for JSON.
pub uninterp spec fn parse_error(json: Seq<char>) -> Option<Seq<char>>;

/// The elements of the array member `key` of the JSON document `json`, in
/// order, each with whether it is an object and as serde_json writes it out
/// compactly; `None` where there is no such array.
pub uninterp spec fn array_items(json: Seq<char>, key: Seq<char>) -> Option<Seq<(bool, Seq<char>)>>;

/// Reads a string member of a JSON document: `serde_json::from_str` into a
/// `serde_json::Value`, then `Value::get` and `Value::as_str`. Claimed: the
/// result is `string_member` of the document and the key; what JSON
/// serde_json accepts is not stated.
#[verifier::external_body]
pub(crate) fn string_field(json: &str, key: &str) -> (r: Option<String>)
    ensures
        engine::opt_view(r) == string_member(json@, key@),
{
    let v: serde_json::Value = serde_json::from_str(json).ok()?;
    v.get(key)?.as_str().map(|s| s.to_string())
}

/// Whether a JSON document has a member: `serde_json::from_str` into a
/// `serde_json::Value`, then `Value::get`. Claimed: the result is
/// `has_member` of the document and the key.
#[verifier::external_body]
pub(crate) fn has_field(json: &str, key: &str) -> (r: bool)
    ensures
        r == has_member(json@, key@),
{
    match serde_json::from_str::<serde_json::Value>(json) {
        Ok(v) => v.get(key).is_some(),
        Err(_) => false,
    }
}

/// The error of `serde_json::from_str` into a `serde_json::Value`, written
/// with its `Display`. Claimed: the result is `parse_error` of the text.
#[verifier::external_body]
pub(crate) fn error_of(json: &str) -> (r: Option<String>)
    ensures
        engine::opt_view(r) == parse_error(json@),
{
    serde_json::from_str::<serde_json::Value>(json).err().map(|e| e.to_string())
}

/// The views of array elements as `array_field` hands them out.
pub open spec fn item_views(v: Seq<(bool, String)>) -> Seq<(bool, Seq<char>)> {
    v.map_values(|e: (bool, String)| (e.0, e.1@))
}

/// The elements of an array member: `serde_json::from_str` into a
/// `serde_json::Value`, `Value::get`, `Value::as_array`, then for each
/// element `Value::is_object` and the element written with `Value`'s
/// `Display`. Claimed: the result is `array_items` of the document and the key.
#[verifier::external_body]
pub(crate) fn array_field(json: &str, key: &str) -> (r: Option<Vec<(bool, String)>>)
    ensures
        match r {
            Some(v) => array_items(json@, key@) == Some(item_views(v@)),
            None => array_items(json@, key@) is None,
        },
{
    let v: serde_json::Value = serde_json::from_str(json).ok()?;
    let items = v.get(key)?.as_array()?;
    Some(items.iter().map(|x| (x.is_object(), x.to_string())).collect())
}

} // verus!
