//! Translation tables out of JSON, by way of `serde_json`.
//!
//! Parsing and the canonical text of a value are `serde_json`'s work. What is
//! stated of them here is taken on trust; the conversion into `Table` is
//! verified against it.

use crate::table::{Node, NodeView, Table, TableView};
use serde_json::{Error, Value};
use vstd::prelude::*;

verus! {

/// `serde_json::Value`, a JSON value. Nothing of its inside is known here.
#[verifier::external_type_specification]
#[verifier::external_body]
pub struct ExValue(Value);

/// `serde_json::Map`, the members of a JSON object. Nothing of its inside is
/// known here.
#[verifier::external_type_specification]
#[verifier::external_body]
#[verifier::reject_recursive_types(K)]
#[verifier::reject_recursive_types(V)]
pub struct ExMap<K, V>(serde_json::Map<K, V>);

/// `serde_json::Error`, why a text is no JSON. It is only handed on.
#[verifier::external_type_specification]
#[verifier::external_body]
pub struct ExError(Error);

/// The table that `serde_json::from_str` reads out of `text` as a JSON
/// object, where it accepts `text` as one.
pub uninterp spec fn parsed_object(text: Seq<char>) -> Option<TableView>;

/// What a JSON object holds: its members in the order in which it hands them out.
pub uninterp spec fn object_view(object: serde_json::Map<String, Value>) -> TableView;

/// What a JSON value holds: a string as a text, an object as a nested table
/// with its canonical text, any other value as its canonical text.
pub uninterp spec fn value_view(value: Value) -> NodeView;

/// The three kinds of JSON value that a table tells apart.
enum Shape<'a> {
    Text(&'a String),
    Object(&'a serde_json::Map<String, Value>),
    Other,
}

/// `serde_json::from_str` at the type `serde_json::Map<String, Value>`. It is trusted to
/// be a function of the text alone: `Ok` with the object that `parsed_object`
/// names, or `Err` where `parsed_object` names none.
#[verifier::external_body]
fn parse_object(text: &str) -> (r: Result<serde_json::Map<String, Value>, Error>)
    ensures
        match r {
            Ok(object) => parsed_object(text@) == Some(object_view(object)),
            Err(_) => parsed_object(text@) is None,
        },
{
    serde_json::from_str::<serde_json::Map<String, Value>>(text)
}

/// `Map::iter`, collected. It is trusted to hand out every member once, name
/// and value, in the order of `object_view`.
#[verifier::external_body]
fn members<'a>(object: &'a serde_json::Map<String, Value>) -> (r: Vec<(&'a String, &'a Value)>)
    ensures
        r@.len() == object_view(*object).entries.len(),
        forall|i: int|
            0 <= i < r@.len() ==> (#[trigger] r@[i]).0@ == object_view(*object).entries[i].0
                && value_view(*r@[i].1) == object_view(*object).entries[i].1,
{
    object.iter().collect()
}

/// Tells the variants of `serde_json::Value` apart. A `String` is trusted to
/// be viewed as a text with the same characters, an `Object` as a nested
/// table with the members of its map, every other variant as a scalar.
#[verifier::external_body]
fn shape_of<'a>(value: &'a Value) -> (r: Shape<'a>)
    ensures
        match r {
            Shape::Text(s) => value_view(*value) == NodeView::Text(s@),
            Shape::Object(object) => value_view(*value) matches NodeView::Nested(t, _) && t
                == object_view(*object),
            Shape::Other => value_view(*value) is Scalar,
        },
{
    match value {
        Value::String(s) => Shape::Text(s),
        Value::Object(object) => Shape::Object(object),
        Value::Null => Shape::Other,
        Value::Bool(_) => Shape::Other,
        Value::Number(_) => Shape::Other,
        Value::Array(_) => Shape::Other,
    }
}

/// `Value::to_string`, the compact JSON text of a value. It is trusted to be
/// the canonical text that `value_view` holds for a scalar and for an object.
#[verifier::external_body]
fn canonical_text(value: &Value) -> (r: String)
    ensures
        value_view(*value) matches NodeView::Scalar(text) ==> r@ == text,
        value_view(*value) matches NodeView::Nested(_, text) ==> r@ == text,
{
    value.to_string()
}

/// The node that stands for a JSON value.
pub fn node_from_json(value: &Value) -> (node: Node)
    ensures
        node@ == value_view(*value),
    decreases value_view(*value), 0nat,
{
    match shape_of(value) {
        Shape::Text(s) => Node::Text(s.clone()),
        Shape::Object(object) => {
            let text = canonical_text(value);
            let table = table_from_json(object);
            Node::Nested(table, text)
        },
        Shape::Other => Node::Scalar(canonical_text(value)),
    }
}

/// The table that stands for a JSON object.
pub fn table_from_json(object: &serde_json::Map<String, Value>) -> (table: Table)
    ensures
        table@ == object_view(*object),
    decreases object_view(*object), 1nat,
{
    let found = members(object);
    let ghost all = object_view(*object).entries;
    let mut entries: Vec<(String, Node)> = Vec::new();
    let mut i: usize = 0;
    while i < found.len()
        invariant
            i <= found.len(),
            all == object_view(*object).entries,
            found@.len() == all.len(),
            forall|k: int|
                0 <= k < found@.len() ==> (#[trigger] found@[k]).0@ == all[k].0 && value_view(
                    *found@[k].1,
                ) == all[k].1,
            entries@.len() == i,
            forall|k: int|
                0 <= k < i ==> (#[trigger] entries@[k]).0@ == all[k].0 && entries@[k].1@
                    == all[k].1,
        decreases found.len() - i,
    {
        let name = found[i].0.clone();
        let node = node_from_json(found[i].1);
        entries.push((name, node));
        i += 1;
    }
    let table = Table { entries };
    assert(table@.entries =~= all);
    table
}

/// Reads `text` as a JSON object.
pub fn parse_table(text: &str) -> (r: Result<Table, Error>)
    ensures
        match r {
            Ok(table) => parsed_object(text@) == Some(table@),
            Err(_) => parsed_object(text@) is None,
        },
{
    match parse_object(text) {
        Ok(object) => Ok(table_from_json(&object)),
        Err(error) => Err(error),
    }
}

} // verus!
