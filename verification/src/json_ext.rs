//! Trusted boundary to the JSON library, and the plain value tree it
//! hands back.
//!
//! The status report's generic parsing is the JSON library's job; its
//! result is converted, one arm per variant, into [`JsonNode`] — plain
//! values Verus can reason about.  The parse depends on the text alone, so
//! the whole boundary result is named by [`json_tree_of`], and the typed
//! decoding of the status schema in [`crate::networkd_status`] is verified
//! against that name.

use vstd::prelude::*;

verus! {

#[verifier::external_type_specification]
#[verifier::external_body]
pub struct ExJsonValue(serde_json::Value);

/// A JSON value as plain data.  Numbers representable as `u64` — the only
/// numbers the status schema uses — keep their value; booleans and other
/// numbers collapse to `Other`, which no schema field accepts.
#[derive(Debug)]
pub enum JsonNode {
    Null,
    Text(String),
    UInt(u64),
    Array(Vec<JsonNode>),
    Object(Vec<(String, JsonNode)>),
    Other,
}

/// The value tree of a JSON document, as plain data: `Some` exactly on
/// valid JSON text, `None` otherwise.  The tree is a function of the text
/// alone; object keys are unique, in the parser's (sorted) order.
pub uninterp spec fn json_tree_of(s: Seq<char>) -> Option<JsonNode>;

/// Relies on serde_json::from_str::<serde_json::Value>, which returns the
/// value tree of a valid JSON document — a function of the text alone —
/// and an error otherwise.
#[verifier::external_body]
pub(crate) fn parse_json_document(s: &str) -> (r: Option<JsonNode>)
    ensures
        r == json_tree_of(s@),
{
    match serde_json::from_str::<serde_json::Value>(s) {
        Ok(v) => Some(node_of_value(v)),
        Err(_) => None,
    }
}

/// Relies on serde_json::Value's variants and serde_json::Number::as_u64:
/// converts the parsed tree to plain data, one arm per variant, moving
/// fields.
#[verifier::external_body]
fn node_of_value(v: serde_json::Value) -> JsonNode {
    match v {
        serde_json::Value::Null => JsonNode::Null,
        serde_json::Value::Bool(_) => JsonNode::Other,
        serde_json::Value::Number(n) => match n.as_u64() {
            Some(u) => JsonNode::UInt(u),
            None => JsonNode::Other,
        },
        serde_json::Value::String(s) => JsonNode::Text(s),
        serde_json::Value::Array(a) => JsonNode::Array(a.into_iter().map(node_of_value).collect()),
        serde_json::Value::Object(o) => JsonNode::Object(
            o.into_iter().map(|(k, x)| (k, node_of_value(x))).collect(),
        ),
    }
}

} // verus!
