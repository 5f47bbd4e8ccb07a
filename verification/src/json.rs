//! The workflow-template metadata files (`*.properties.json`), read as JSON.
//!
//! Parsing is serde_json's work; what the rules read of the parsed document is
//! held here as plain values: the members of a top-level object, each a
//! string, a list whose items are strings or not, or something else.

use vstd::prelude::*;
use serde_json::Value;

verus! {

/// A member's value, as far as the metadata rules look at it.
pub enum JsonField {
    Text(String),
    /// An array; each item is `Some` string or `None` for any other value.
    List(Vec<Option<String>>),
    Other,
}

pub struct JsonMember {
    pub key: String,
    pub value: JsonField,
}

/// A parsed document: a top-level object's members, or any other value.
pub enum JsonDocument {
    Object(Vec<JsonMember>),
    Other,
}

/// What `serde_json::from_str::<Value>` makes of `text`, as a `JsonDocument`
/// (`None` when it is not JSON).
pub uninterp spec fn json_document(text: Seq<char>) -> Option<JsonDocument>;

/// `serde_json::from_str::<serde_json::Value>`: the parsed document, or `None`
/// when `text` is not JSON.  The object's members come from serde_json's map,
/// so each key occurs once.  Nothing is stated of the result beyond its name.
#[verifier::external_body]
pub(crate) fn parse_json(text: &String) -> (r: Option<JsonDocument>)
    ensures
        r == json_document(text@),
{
    let map = match serde_json::from_str::<Value>(text).ok()? {
        Value::Object(map) => map,
        _ => return Some(JsonDocument::Other),
    };
    Some(JsonDocument::Object(map.into_iter().map(|(key, value)| JsonMember { key, value: match value {
        Value::String(s) => JsonField::Text(s),
        Value::Array(items) => JsonField::List(items.into_iter().map(|item| match item {
            Value::String(s) => Some(s),
            _ => None,
        }).collect()),
        _ => JsonField::Other,
    } }).collect()))
}

} // verus!
