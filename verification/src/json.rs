//! The JSON text in which lists of patterns and metadata are stored.

use crate::models::unique_keys;
use vstd::prelude::*;

verus! {

/// The JSON array that `serde_json::to_string` writes for a list of strings.
pub uninterp spec fn json_of_texts(items: Seq<Seq<char>>) -> Seq<char>;

/// The list of strings that `serde_json::from_str` reads from a JSON text,
/// or nothing where the text is not an array of strings.
pub uninterp spec fn texts_of_json(text: Seq<char>) -> Option<Seq<Seq<char>>>;

/// The JSON object that `serde_json::to_string` writes for the map that
/// key/value pairs with distinct keys make up.
pub uninterp spec fn json_of_entries(entries: Seq<(Seq<char>, Seq<char>)>) -> Seq<char>;

/// The key/value pairs, in the order of their keys, that
/// `serde_json::from_str` reads from a JSON text, or nothing where the text
/// is not an object of strings.
pub uninterp spec fn entries_of_json(text: Seq<char>) -> Option<Seq<(Seq<char>, Seq<char>)>>;

/// `serde_json::to_string` on a list of strings. It fails only where a
/// value refuses to be written or a map has keys that are not strings;
/// a list of strings is always written.
#[verifier::external_body]
pub(crate) fn encode_texts(items: &Vec<String>) -> (encoded: Result<String, String>)
    ensures
        encoded is Ok,
        encoded matches Ok(text) ==> text@ == json_of_texts(items.deep_view()),
{
    serde_json::to_string(items).map_err(|error| error.to_string())
}

/// `serde_json::from_str` into a list of strings.
#[verifier::external_body]
pub(crate) fn decode_texts(text: &str) -> (decoded: Option<Vec<String>>)
    ensures
        decoded.deep_view() == texts_of_json(text@),
{
    serde_json::from_str::<Vec<String>>(text).ok()
}

/// `serde_json::to_string` on the ordered map collected from the pairs. No
/// two pairs carry the same key, so every pair is an entry of the map. It
/// fails only where a value refuses to be written or a map has keys that
/// are not strings; a map from strings to strings is always written.
#[verifier::external_body]
pub(crate) fn encode_entries(entries: &Vec<(String, String)>) -> (encoded: Result<String, String>)
    requires
        unique_keys(entries.deep_view()),
    ensures
        encoded is Ok,
        encoded matches Ok(text) ==> text@ == json_of_entries(entries.deep_view()),
{
    let map: std::collections::BTreeMap<&String, &String> = entries.iter().map(
        |entry| (&entry.0, &entry.1),
    ).collect();
    serde_json::to_string(&map).map_err(|error| error.to_string())
}

/// `serde_json::from_str` into an ordered map of strings, handed out as
/// pairs in the order of the keys.
#[verifier::external_body]
pub(crate) fn decode_entries(text: &str) -> (decoded: Option<Vec<(String, String)>>)
    ensures
        decoded.deep_view() == entries_of_json(text@),
{
    serde_json::from_str::<std::collections::BTreeMap<String, String>>(text).ok().map(
        |map| map.into_iter().collect(),
    )
}

} // verus!
