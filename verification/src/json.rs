//! Parsing of a fragment's text, done by `serde_json`.

use vstd::prelude::*;
use crate::document::{AssetNode, Document};

verus! {

#[verifier::external_type_specification]
#[verifier::external_body]
pub struct ExValue(serde_json::Value);

#[verifier::external_type_specification]
#[verifier::external_body]
pub struct ExJsonError(serde_json::Error);

/// The document that a JSON value holds: a string is a template, an object a
/// table of its members, anything else is `Other`.
pub uninterp spec fn value_document(v: serde_json::Value) -> Document;

/// The document that `serde_json::from_str` reads from `text`, or `None`
/// where it rejects the text.
pub uninterp spec fn parsed_document(text: Seq<char>) -> Option<Document>;

/// Calls `serde_json::from_str` for a `serde_json::Value`. Trusted: whether
/// the text is accepted, and the value that is read, depend on the text alone.
#[verifier::external_body]
fn parse_value(text: &str) -> (r: Result<serde_json::Value, serde_json::Error>)
    ensures
        match r {
            Ok(v) => parsed_document(text@) == Some(value_document(v)),
            Err(_) => parsed_document(text@) is None,
        },
{
    serde_json::from_str::<serde_json::Value>(text)
}

/// Copies a `serde_json::Value` into a node, variant by variant: `String` to
/// `Text`, `Object` to `Table` with the members in the order in which the
/// object's `iter` gives them, every other variant to `Other`. Trusted: the
/// node's view is the name given to the value's contents.
#[verifier::external_body]
fn node_of_value(v: &serde_json::Value) -> (r: AssetNode)
    ensures
        r@ == value_document(*v),
{
    match v {
        serde_json::Value::String(s) => AssetNode::Text(s.clone()),
        serde_json::Value::Object(m) => AssetNode::Table(
            m.iter().map(|(k, x)| (k.clone(), node_of_value(x))).collect(),
        ),
        _ => AssetNode::Other,
    }
}

/// Parses the text of one fragment.
pub fn parse_fragment(text: &str) -> (r: Option<AssetNode>)
    ensures
        match r {
            Some(n) => parsed_document(text@) == Some(n@),
            None => parsed_document(text@) is None,
        },
{
    match parse_value(text) {
        Ok(v) => Some(node_of_value(&v)),
        Err(_) => None,
    }
}

} // verus!
