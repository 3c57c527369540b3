//! Resolution of a dotted key against one table, with named parameters.

use crate::table::{Node, NodeView, Table, TableView};
use crate::text::{
    append_chars, chars_of, replace_all, replaced, split, split_chars, string_of, trim, trimmed,
    views, CharClass,
};
use vstd::prelude::*;

verus! {

/// The node at the end of `path`: every name but the last must lead to a
/// nested table, and the last may lead to any node.
pub open spec fn descend(table: TableView, path: Seq<Seq<char>>) -> Option<NodeView>
    decreases path.len(),
{
    if path.len() == 0 {
        None
    } else {
        match table.get(path[0]) {
            None => None,
            Some(node) => if path.len() == 1 {
                Some(node)
            } else {
                match node {
                    NodeView::Nested(inner, _) => descend(inner, path.drop_first()),
                    _ => None,
                }
            },
        }
    }
}

/// The template that a node gives: a text as it stands, anything else as its
/// canonical text without quote characters at either end.
pub open spec fn leaf_text(node: NodeView) -> Seq<char> {
    match node {
        NodeView::Text(s) => s,
        NodeView::Scalar(s) => trim(s, CharClass::Exactly('"')),
        NodeView::Nested(_, s) => trim(s, CharClass::Exactly('"')),
    }
}

/// The text that stands for the parameter `name` in a template: the name in
/// double braces.
pub open spec fn placeholder(name: Seq<char>) -> Seq<char> {
    seq!['{', '{'] + name + seq!['}', '}']
}

/// `template` after each parameter in turn has replaced every occurrence of
/// its placeholder in what the parameters before it left.
pub open spec fn substitute(template: Seq<char>, params: Seq<(Seq<char>, Seq<char>)>) -> Seq<char>
    decreases params.len(),
{
    if params.len() == 0 {
        template
    } else {
        substitute(
            replace_all(template, placeholder(params[0].0), params[0].1),
            params.drop_first(),
        )
    }
}

/// The names and values of `params` as character sequences.
pub open spec fn params_view(params: Seq<(&str, &str)>) -> Seq<(Seq<char>, Seq<char>)> {
    Seq::new(params.len(), |i: int| (params[i].0@, params[i].1@))
}

/// What `key` resolves to in `table` with `params`, where it resolves.
pub open spec fn resolution(
    table: TableView,
    key: Seq<char>,
    params: Seq<(Seq<char>, Seq<char>)>,
) -> Option<Seq<char>> {
    match descend(table, split(key, '.')) {
        Some(node) => Some(substitute(leaf_text(node), params)),
        None => None,
    }
}

/// Walks `path` down from `table`.
pub fn find_node<'a>(table: &'a Table, path: &Vec<Vec<char>>) -> (r: Option<&'a Node>)
    ensures
        match r {
            Some(node) => descend(table@, views(path@)) == Some(node@),
            None => descend(table@, views(path@)) is None,
        },
{
    if path.len() == 0 {
        return None;
    }
    let ghost names = views(path@);
    let mut current: &Table = table;
    let mut i: usize = 0;
    assert(names.skip(0) == names);
    while i + 1 < path.len()
        invariant
            i < path.len(),
            names == views(path@),
            descend(table@, names) == descend(current@, names.skip(i as int)),
        decreases path.len() - i,
    {
        let name = string_of(&path[i]);
        proof {
            assert(names.skip(i as int)[0] == name@);
            assert(names.skip(i as int).drop_first() == names.skip(i + 1));
        }
        match current.get(name.as_str()) {
            Some(Node::Nested(inner, _)) => {
                current = inner;
            },
            _ => {
                return None;
            },
        }
        i += 1;
    }
    let name = string_of(&path[i]);
    assert(names.skip(i as int)[0] == name@);
    current.get(name.as_str())
}

/// Puts the template of `node` into a vector.
pub fn template_of(node: &Node) -> (r: Vec<char>)
    ensures
        r@ == leaf_text(node@),
{
    match node {
        Node::Text(s) => chars_of(s.as_str()),
        Node::Scalar(s) => trimmed(&chars_of(s.as_str()), CharClass::Exactly('"')),
        Node::Nested(_, s) => trimmed(&chars_of(s.as_str()), CharClass::Exactly('"')),
    }
}

/// Builds the placeholder of `name`.
pub fn placeholder_of(name: &str) -> (r: Vec<char>)
    ensures
        r@ == placeholder(name@),
{
    let mut r: Vec<char> = Vec::new();
    r.push('{');
    r.push('{');
    let inner = chars_of(name);
    append_chars(&mut r, &inner);
    r.push('}');
    r.push('}');
    assert(r@ =~= placeholder(name@));
    r
}

/// Applies `params` to `template`, one after the other.
pub fn interpolate(template: Vec<char>, params: &[(&str, &str)]) -> (r: Vec<char>)
    ensures
        r@ == substitute(template@, params_view(params@)),
{
    let ghost all = params_view(params@);
    let ghost start = template@;
    let mut current = template;
    let mut i: usize = 0;
    assert(all.skip(0) == all);
    while i < params.len()
        invariant
            i <= params.len(),
            all == params_view(params@),
            substitute(start, all) == substitute(current@, all.skip(i as int)),
        decreases params.len() - i,
    {
        let pat = placeholder_of(params[i].0);
        let to = chars_of(params[i].1);
        proof {
            assert(all.skip(i as int)[0] == (params@[i as int].0@, params@[i as int].1@));
            assert(all.skip(i as int).drop_first() == all.skip(i + 1));
        }
        current = replaced(&current, &pat, &to);
        i += 1;
    }
    current
}

/// Resolves `key` in `table` and applies `params` to what it finds.
pub fn resolve(table: &Table, key: &str, params: &[(&str, &str)]) -> (r: Option<String>)
    ensures
        match r {
            Some(s) => resolution(table@, key@, params_view(params@)) == Some(s@),
            None => resolution(table@, key@, params_view(params@)) is None,
        },
{
    let path = split_chars(&chars_of(key), '.');
    match find_node(table, &path) {
        Some(node) => {
            let text = interpolate(template_of(node), params);
            Some(string_of(&text))
        },
        None => None,
    }
}

} // verus!
