//! Trusted boundary to the TOML library, and the plain value tree it
//! hands back.
//!
//! The configuration document's generic parsing is the TOML library's
//! job; its result is converted, one arm per variant, into [`TomlNode`] —
//! plain values Verus can reason about.  The parse depends on the text
//! alone, so the whole boundary result is named by [`toml_tree_of`], and
//! reading the two configuration keys in [`crate::dns`] is verified
//! against that name.

use vstd::prelude::*;

verus! {

#[verifier::external_type_specification]
#[verifier::external_body]
pub struct ExTomlValue(toml::Value);

/// A TOML value as plain data.  The configuration schema reads only
/// strings, arrays and the top-level table; every other value — integer,
/// float, boolean, datetime — collapses to `Other`, which no
/// configuration key accepts.
#[derive(Debug)]
pub enum TomlNode {
    Text(String),
    Array(Vec<TomlNode>),
    Table(Vec<(String, TomlNode)>),
    Other,
}

/// The value tree of a TOML document, as plain data: `Some` exactly on a
/// valid TOML document — always a `Table` at the top — and `None`
/// otherwise.  The tree is a function of the text alone; table keys are
/// unique, in the parser's order.
pub uninterp spec fn toml_tree_of(s: Seq<char>) -> Option<TomlNode>;

/// Relies on toml::from_str::<toml::Value>, which returns the value tree
/// of a valid TOML document — a function of the text alone — and an error
/// otherwise.
#[verifier::external_body]
pub(crate) fn parse_toml_document(s: &str) -> (r: Option<TomlNode>)
    ensures
        r == toml_tree_of(s@),
{
    match toml::from_str::<toml::Value>(s) {
        Ok(v) => Some(node_of_value(v)),
        Err(_) => None,
    }
}

/// Relies on toml::Value's variants: converts the parsed tree to plain
/// data, one arm per variant, moving fields.
#[verifier::external_body]
fn node_of_value(v: toml::Value) -> TomlNode {
    match v {
        toml::Value::String(s) => TomlNode::Text(s),
        toml::Value::Array(a) => TomlNode::Array(a.into_iter().map(node_of_value).collect()),
        toml::Value::Table(t) => TomlNode::Table(
            t.into_iter().map(|(k, x)| (k, node_of_value(x))).collect(),
        ),
        _ => TomlNode::Other,
    }
}

} // verus!
