//! The members of a JSON object, as the settings readers use them.

use vstd::prelude::*;
use serde_json::Value;

verus! {

/// A JSON number: its text, and its value when it is a whole number that fits 64 bits.
pub struct JsonNumber {
    /// The number as `serde_json` prints it.
    pub text: String,
    /// The value, for whole numbers from 0 to `u64::MAX`.
    pub whole: Option<u64>,
}

/// An element of a JSON array: its text when a string, its printed form when a number.
pub struct JsonItem {
    /// The string, when the element is one.
    pub text: Option<String>,
    /// The number's text, when the element is one.
    pub number: Option<String>,
}

/// A member of a JSON object: its key, the value printed as JSON, and what the value is
/// when it is a string, a number or an array.
pub struct JsonEntry {
    /// The member's key.
    pub key: String,
    /// The value as JSON text.
    pub json: String,
    /// The string, when the value is one.
    pub text: Option<String>,
    /// The number, when the value is one.
    pub number: Option<JsonNumber>,
    /// The elements, when the value is an array.
    pub items: Option<Vec<JsonItem>>,
}

/// An array element as values.
pub type ItemView = (Option<Seq<char>>, Option<Seq<char>>);

/// A member as values: key, JSON text, string, number (text and whole value), elements.
pub type EntryView = (Seq<char>, Seq<char>, Option<Seq<char>>, Option<(Seq<char>, Option<u64>)>, Option<Seq<ItemView>>);

/// An optional text as values.
pub open spec fn text_view(o: Option<String>) -> Option<Seq<char>> {
    match o {
        Some(s) => Some(s@),
        None => None,
    }
}

/// An array element as values.
pub open spec fn item_view(i: JsonItem) -> ItemView {
    (text_view(i.text), text_view(i.number))
}

/// A member as values.
pub open spec fn entry_view(e: JsonEntry) -> EntryView {
    (e.key@, e.json@, text_view(e.text), match e.number {
        Some(n) => Some((n.text@, n.whole)),
        None => None,
    }, match e.items {
        Some(v) => Some(v@.map_values(|i: JsonItem| item_view(i))),
        None => None,
    })
}

/// Members as values.
pub open spec fn entries_view(v: Seq<JsonEntry>) -> Seq<EntryView> {
    v.map_values(|e: JsonEntry| entry_view(e))
}

/// The members of the JSON object that `serde_json` reads from the bytes, in the order its
/// map keeps them, or `None` when the bytes are not a JSON object.
pub uninterp spec fn json_object_entries(data: Seq<u8>) -> Option<Seq<EntryView>>;

/// Reads a JSON object with `serde_json` and lists its members. The result is a function
/// of the bytes alone; which members come out, and in which order, is `serde_json`'s to say
/// and is not stated here.
#[verifier::external_body]
pub(crate) fn read_json_object(data: &[u8]) -> (r: Option<Vec<JsonEntry>>)
    ensures
        match r {
            Some(v) => json_object_entries(data@) == Some(entries_view(v@)),
            None => json_object_entries(data@) is None,
        },
{
    let map: serde_json::Map<String, Value> = serde_json::from_slice(data).ok()?;
    Some(map.into_iter().map(|(key, v)| JsonEntry {
        json: v.to_string(),
        text: v.as_str().map(String::from),
        number: v.as_number().map(|n| JsonNumber { text: n.to_string(), whole: n.as_u64() }),
        items: v.as_array().map(|a| a.iter().map(|x| JsonItem { text: x.as_str().map(String::from), number: x.as_number().map(|n| n.to_string()) }).collect()),
        key,
    }).collect())
}

} // verus!
