//! JSON texts read and written through `serde_json`: arrays of strings (the
//! `parent_codes` column) and metadata objects.
use vstd::prelude::*;

verus! {

#[verifier::external_type_specification]
#[verifier::external_body]
pub struct ExJsonValue(serde_json::Value);

/// What `serde_json` reads from a text that holds a JSON array: for each
/// item, its string value, or `None` for an item that is not a string.
/// `None` when the text is not a JSON array.
pub uninterp spec fn json_array_items_of(text: Seq<char>) -> Option<Seq<Option<Seq<char>>>>;

/// The JSON text that `serde_json` writes for a list of strings.
pub uninterp spec fn json_text_of_strings(items: Seq<Seq<char>>) -> Seq<char>;

/// Whether `serde_json` reads the text as a JSON object.
pub uninterp spec fn json_is_object_text(text: Seq<char>) -> bool;

/// Parses `text` with `serde_json::from_str::<Value>` and, when it is an
/// array, maps each item through `Value::as_str`. The result is named by
/// `json_array_items_of`; parsing depends on the text alone.
#[verifier::external_body]
pub(crate) fn json_array_items(text: &str) -> (r: Option<Vec<Option<String>>>)
    ensures
        r.deep_view() == json_array_items_of(text@),
{
    match serde_json::from_str::<serde_json::Value>(text) {
        Ok(serde_json::Value::Array(items)) => Some(
            items.iter().map(|item| item.as_str().map(|s| s.to_string())).collect(),
        ),
        _ => None,
    }
}

/// Writes a list of strings with `serde_json::to_string`; the text is named
/// by `json_text_of_strings`. `None` only if serialisation reports an error,
/// which serde_json documents for failing `Serialize` impls and maps with
/// non-string keys only, so a list of strings is always written.
#[verifier::external_body]
pub(crate) fn json_strings_text(items: &Vec<String>) -> (r: Option<String>)
    ensures
        r is Some,
        r matches Some(t) ==> t@ == json_text_of_strings(items.deep_view()),
{
    serde_json::to_string(items).ok()
}

/// Parses `text` with `serde_json::from_str::<Value>` and keeps the value
/// when it is an object. Whether it is, is named by `json_is_object_text`;
/// what the object holds is not stated.
#[verifier::external_body]
pub(crate) fn json_object(text: &str) -> (r: Option<serde_json::Value>)
    ensures
        r.is_some() == json_is_object_text(text@),
{
    match serde_json::from_str::<serde_json::Value>(text) {
        Ok(v @ serde_json::Value::Object(_)) => Some(v),
        _ => None,
    }
}

/// An empty JSON object (`Value::Object(Map::new())`). Nothing is stated of
/// the opaque value.
#[verifier::external_body]
pub(crate) fn json_empty_object() -> (r: serde_json::Value) {
    serde_json::Value::Object(serde_json::Map::new())
}

} // verus!
