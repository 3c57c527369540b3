//! What holds of resolution and of selection, whatever the tables are.

use crate::lingua::LinguaView;
use crate::resolver::{descend, leaf_text, resolution, substitute};
use crate::table::{NodeView, TableView};
use crate::template::{
    all_plain, distinct_names, filled, lemma_plain_in_any_order, lemma_put_each_is_filled,
    lemma_substitute_is_put_each, lemma_value_of_any_order, plain_params, render, Piece,
};
use crate::text::split;
use vstd::prelude::*;

verus! {

/// The registry after `code` was asked for `n` times in a row.
pub open spec fn selecting_times(v: LinguaView, code: Seq<char>, n: nat) -> LinguaView
    decreases n,
{
    if n == 0 {
        v
    } else {
        selecting_times(v, code, (n - 1) as nat).selecting(code)
    }
}

/// A key that leads to a text resolves, without parameters, to that very
/// text, in every loaded language once it is selected.
pub proof fn law_text_resolves_unchanged(
    v: LinguaView,
    code: Seq<char>,
    key: Seq<char>,
    text: Seq<char>,
)
    requires
        v.has_language(code),
        descend(v.tables[code], split(key, '.')) == Some(NodeView::Text(text)),
    ensures
        resolution(v.tables[code], key, Seq::empty()) == Some(text),
        v.selecting(code).translation(key, Seq::empty()) == Some(text),
{
    assert(leaf_text(NodeView::Text(text)) == text);
    assert(substitute(text, Seq::empty()) == text);
}

/// A path that meets anything but a nested table before its last name leads nowhere.
pub proof fn law_leaf_before_end(table: TableView, path: Seq<Seq<char>>, i: int)
    requires
        0 <= i < path.len() - 1,
        descend(table, path.take(i + 1)) matches Some(node) && !(node is Nested),
    ensures
        descend(table, path) is None,
    decreases i,
{
    let head = path.take(i + 1);
    assert(head[0] == path[0]);
    if i > 0 {
        match table.get(path[0]) {
            Some(NodeView::Nested(inner, _)) => {
                assert(head.drop_first() == path.drop_first().take(i));
                law_leaf_before_end(inner, path.drop_first(), i - 1);
            },
            _ => {},
        }
    }
}

/// A key whose path meets anything but a nested table before its last name
/// does not resolve, whatever the parameters, so `translate` fails for it.
pub proof fn law_key_through_leaf_fails(
    v: LinguaView,
    key: Seq<char>,
    params: Seq<(Seq<char>, Seq<char>)>,
    i: int,
)
    requires
        v.has_language(v.current),
        0 <= i < split(key, '.').len() - 1,
        descend(v.tables[v.current], split(key, '.').take(i + 1)) matches Some(node) && !(
        node is Nested),
    ensures
        v.translation(key, params) is None,
{
    law_leaf_before_end(v.tables[v.current], split(key, '.'), i);
}

/// Selecting a language once more changes nothing: after any number of
/// selections of `code` the registry is what one selection makes it, the
/// tables are what they were, and every key resolves as after one selection.
pub proof fn law_selecting_again(
    v: LinguaView,
    code: Seq<char>,
    n: nat,
    key: Seq<char>,
    params: Seq<(Seq<char>, Seq<char>)>,
)
    requires
        n >= 1,
    ensures
        selecting_times(v, code, n) == v.selecting(code),
        selecting_times(v, code, n).tables == v.tables,
        selecting_times(v, code, n).translation(key, params) == v.selecting(code).translation(
            key,
            params,
        ),
    decreases n,
{
    if n > 1 {
        law_selecting_again(v, code, (n - 1) as nat, key, params);
    } else {
        assert(selecting_times(v, code, 0) == v);
    }
}

/// Asking for a language that is not loaded leaves the registry as it was.
pub proof fn law_unloaded_selection_changes_nothing(v: LinguaView, code: Seq<char>)
    requires
        !v.has_language(code),
    ensures
        v.selecting(code) == v,
{
}

/// Whether a key resolves is decided by its path alone: the parameters
/// change the text, never the outcome.
pub proof fn law_parameters_decide_nothing(
    table: TableView,
    key: Seq<char>,
    params: Seq<(Seq<char>, Seq<char>)>,
)
    ensures
        resolution(table, key, params) is Some <==> descend(table, split(key, '.')) is Some,
{
}

/// In a template of plain pieces, parameters without braces in their names
/// and values fill every placeholder at once: each placeholder becomes the
/// value of the first parameter of its name, and all else stays as it is.
pub proof fn law_parameters_fill_at_once(pieces: Seq<Piece>, params: Seq<(Seq<char>, Seq<char>)>)
    requires
        all_plain(pieces),
        plain_params(params),
    ensures
        substitute(render(pieces), params) == render(filled(pieces, params)),
{
    lemma_substitute_is_put_each(pieces, params);
    lemma_put_each_is_filled(pieces, params);
}

/// In a template of plain pieces, the order of parameters with distinct
/// names, and without braces in their names and values, does not matter:
/// in every order they fill the template as they do at once.
pub proof fn law_parameter_order(
    pieces: Seq<Piece>,
    p: Seq<(Seq<char>, Seq<char>)>,
    q: Seq<(Seq<char>, Seq<char>)>,
)
    requires
        all_plain(pieces),
        plain_params(p),
        distinct_names(p),
        p.to_multiset() == q.to_multiset(),
    ensures
        substitute(render(pieces), p) == render(filled(pieces, p)),
        substitute(render(pieces), q) == substitute(render(pieces), p),
{
    lemma_plain_in_any_order(p, q);
    law_parameters_fill_at_once(pieces, p);
    law_parameters_fill_at_once(pieces, q);
    assert forall|i: int| 0 <= i < pieces.len() implies pieces[i].fill(q) == pieces[i].fill(p) by {
        match pieces[i] {
            Piece::Token(name) => {
                lemma_value_of_any_order(p, q, name);
            },
            Piece::Chunk(_) => {},
        }
    }
    assert(filled(pieces, q) =~= filled(pieces, p));
}

/// A key that leads to a text of plain pieces translates to the same text
/// in every order of parameters with distinct names and without braces in
/// their names and values: the text with every placeholder of a parameter
/// replaced by its value, and all else as it is.
pub proof fn law_translation_in_any_order(
    v: LinguaView,
    key: Seq<char>,
    pieces: Seq<Piece>,
    p: Seq<(Seq<char>, Seq<char>)>,
    q: Seq<(Seq<char>, Seq<char>)>,
)
    requires
        v.has_language(v.current),
        descend(v.tables[v.current], split(key, '.')) == Some(NodeView::Text(render(pieces))),
        all_plain(pieces),
        plain_params(p),
        distinct_names(p),
        p.to_multiset() == q.to_multiset(),
    ensures
        v.translation(key, p) == Some(render(filled(pieces, p))),
        v.translation(key, q) == v.translation(key, p),
{
    law_parameter_order(pieces, p, q);
}

} // verus!
