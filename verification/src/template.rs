//! Templates whose placeholders are well formed, and why the order of the
//! parameters does not matter for them.
//!
//! Such a template is a row of pieces: texts without braces, and
//! placeholders whose names hold no braces. Replacing one placeholder after
//! the other then comes to the same as filling all of them at once.

use crate::resolver::{placeholder, substitute};
use crate::text::{replace_all, starts_with};
use vstd::prelude::*;

verus! {

/// Whether `s` holds neither `{` nor `}`.
pub open spec fn brace_free(s: Seq<char>) -> bool {
    forall|i: int| 0 <= i < s.len() ==> s[i] != '{' && s[i] != '}'
}

/// One piece of a template.
pub enum Piece {
    /// A text that stands for itself.
    Chunk(Seq<char>),
    /// The placeholder of the parameter of this name.
    Token(Seq<char>),
}

impl Piece {
    /// The characters of the piece.
    pub open spec fn text(self) -> Seq<char> {
        match self {
            Piece::Chunk(text) => text,
            Piece::Token(name) => placeholder(name),
        }
    }

    /// Whether the text of a chunk, or the name of a token, holds no brace.
    pub open spec fn plain(self) -> bool {
        match self {
            Piece::Chunk(text) => brace_free(text),
            Piece::Token(name) => brace_free(name),
        }
    }

    /// The piece after the parameter `name` was given `value`.
    pub open spec fn put(self, name: Seq<char>, value: Seq<char>) -> Piece {
        match self {
            Piece::Token(own) => if own == name {
                Piece::Chunk(value)
            } else {
                self
            },
            Piece::Chunk(_) => self,
        }
    }

    /// The piece after every parameter of `params` was given its value at once.
    pub open spec fn fill(self, params: Seq<(Seq<char>, Seq<char>)>) -> Piece {
        match self {
            Piece::Token(own) => match value_of(params, own) {
                Some(value) => Piece::Chunk(value),
                None => self,
            },
            Piece::Chunk(_) => self,
        }
    }
}

/// The value of the first of `params` that is named `name`.
pub open spec fn value_of(params: Seq<(Seq<char>, Seq<char>)>, name: Seq<char>) -> Option<
    Seq<char>,
>
    decreases params.len(),
{
    if params.len() == 0 {
        None
    } else if params[0].0 == name {
        Some(params[0].1)
    } else {
        value_of(params.drop_first(), name)
    }
}

/// The characters of a row of pieces.
pub open spec fn render(pieces: Seq<Piece>) -> Seq<char>
    decreases pieces.len(),
{
    if pieces.len() == 0 {
        Seq::empty()
    } else {
        pieces[0].text() + render(pieces.drop_first())
    }
}

/// Whether every piece is plain.
pub open spec fn all_plain(pieces: Seq<Piece>) -> bool {
    forall|i: int| 0 <= i < pieces.len() ==> (#[trigger] pieces[i]).plain()
}

/// Whether no name and no value of `params` holds a brace.
pub open spec fn plain_params(params: Seq<(Seq<char>, Seq<char>)>) -> bool {
    forall|i: int|
        0 <= i < params.len() ==> brace_free((#[trigger] params[i]).0) && brace_free(params[i].1)
}

/// Whether no two of `params` have one name.
pub open spec fn distinct_names(params: Seq<(Seq<char>, Seq<char>)>) -> bool {
    forall|i: int, j: int|
        0 <= i < params.len() && 0 <= j < params.len() && i != j ==> (#[trigger] params[i]).0 != (
        #[trigger] params[j]).0
}

/// The pieces after the parameter `name` was given `value`.
pub open spec fn put_all(pieces: Seq<Piece>, name: Seq<char>, value: Seq<char>) -> Seq<Piece> {
    Seq::new(pieces.len(), |i: int| pieces[i].put(name, value))
}

/// The pieces after each of `params` in turn was given its value.
pub open spec fn put_each(pieces: Seq<Piece>, params: Seq<(Seq<char>, Seq<char>)>) -> Seq<Piece>
    decreases params.len(),
{
    if params.len() == 0 {
        pieces
    } else {
        put_each(put_all(pieces, params[0].0, params[0].1), params.drop_first())
    }
}

/// The pieces after every parameter of `params` was given its value at once.
pub open spec fn filled(pieces: Seq<Piece>, params: Seq<(Seq<char>, Seq<char>)>) -> Seq<Piece> {
    Seq::new(pieces.len(), |i: int| pieces[i].fill(params))
}

/// Where `pat` begins at none of the first `k` positions of `s`, replacing
/// it leaves the first `k` characters as they are.
pub proof fn lemma_copy_prefix(s: Seq<char>, pat: Seq<char>, to: Seq<char>, k: int)
    requires
        pat.len() > 0,
        0 <= k <= s.len(),
        forall|i: int| 0 <= i < k ==> !starts_with(#[trigger] s.skip(i), pat),
    ensures
        replace_all(s, pat, to) == s.take(k) + replace_all(s.skip(k), pat, to),
    decreases k,
{
    if k == 0 {
        assert(s.skip(0) == s);
        assert(s.take(0) + replace_all(s, pat, to) == replace_all(s, pat, to));
    } else if s.len() < pat.len() {
        assert(s.take(k) + s.skip(k) == s);
    } else {
        assert(s.skip(0) == s);
        let rest = s.drop_first();
        assert forall|i: int| 0 <= i < k - 1 implies !starts_with(#[trigger] rest.skip(i), pat) by {
            assert(rest.skip(i) == s.skip(i + 1));
        }
        lemma_copy_prefix(rest, pat, to, k - 1);
        assert(rest.skip(k - 1) == s.skip(k));
        assert(seq![s[0]] + (rest.take(k - 1) + replace_all(s.skip(k), pat, to)) == s.take(k)
            + replace_all(s.skip(k), pat, to));
    }
}

/// A placeholder begins where another stands only if both have one name.
pub proof fn lemma_placeholder_at_token(own: Seq<char>, name: Seq<char>, rest: Seq<char>)
    requires
        brace_free(own),
        brace_free(name),
        starts_with(placeholder(own) + rest, placeholder(name)),
    ensures
        own == name,
{
    let s = placeholder(own) + rest;
    let pat = placeholder(name);
    assert(s.subrange(0, pat.len() as int) == pat);
    assert forall|j: int| 0 <= j < pat.len() implies s[j] == pat[j] by {
        assert(s.subrange(0, pat.len() as int)[j] == s[j]);
    }
    let n = name.len() as int;
    let m = own.len() as int;
    if n < m {
        assert(pat[n + 2] == '}');
        assert(s[n + 2] == own[n]);
    } else if n > m {
        assert(s[m + 2] == '}');
        assert(pat[m + 2] == name[m]);
    } else {
        assert forall|j: int| 0 <= j < own.len() implies own[j] == name[j] by {
            assert(s[2 + j] == own[j]);
            assert(pat[2 + j] == name[j]);
        }
        assert(own =~= name);
    }
}

/// Replacing a placeholder leaves a text without braces as it is.
pub proof fn lemma_replace_after_chunk(
    text: Seq<char>,
    rest: Seq<char>,
    name: Seq<char>,
    value: Seq<char>,
)
    requires
        brace_free(text),
    ensures
        replace_all(text + rest, placeholder(name), value) == text + replace_all(
            rest,
            placeholder(name),
            value,
        ),
{
    let s = text + rest;
    let pat = placeholder(name);
    assert(pat[0] == '{');
    assert forall|i: int| 0 <= i < text.len() implies !starts_with(#[trigger] s.skip(i), pat) by {
        if starts_with(s.skip(i), pat) {
            assert(s.skip(i).subrange(0, pat.len() as int)[0] == s[i]);
            assert(s[i] == text[i]);
        }
    }
    lemma_copy_prefix(s, pat, value, text.len() as int);
    assert(s.take(text.len() as int) == text);
    assert(s.skip(text.len() as int) == rest);
}

/// Replacing a placeholder leaves the placeholder of another name as it is.
pub proof fn lemma_replace_after_other_token(
    own: Seq<char>,
    rest: Seq<char>,
    name: Seq<char>,
    value: Seq<char>,
)
    requires
        brace_free(own),
        brace_free(name),
        own != name,
    ensures
        replace_all(placeholder(own) + rest, placeholder(name), value) == placeholder(own)
            + replace_all(rest, placeholder(name), value),
{
    let token = placeholder(own);
    let s = token + rest;
    let pat = placeholder(name);
    assert(pat[0] == '{');
    assert(pat[1] == '{');
    assert forall|i: int| 0 <= i < token.len() implies !starts_with(#[trigger] s.skip(i), pat) by {
        if starts_with(s.skip(i), pat) {
            let window = s.skip(i).subrange(0, pat.len() as int);
            assert(window[0] == s[i]);
            assert(window[1] == s[i + 1]);
            assert(s[i] == token[i]);
            if i == 0 {
                assert(s.skip(0) == s);
                lemma_placeholder_at_token(own, name, rest);
            } else if i == 1 {
                assert(s[2] == token[2]);
                if own.len() > 0 {
                    assert(token[2] == own[0]);
                } else {
                    assert(token[2] == '}');
                }
            } else if i < 2 + own.len() {
                assert(token[i] == own[i - 2]);
            } else {
                assert(token[i] == '}');
            }
        }
    }
    lemma_copy_prefix(s, pat, value, token.len() as int);
    assert(s.take(token.len() as int) == token);
    assert(s.skip(token.len() as int) == rest);
}

/// Replacing a placeholder where it stands puts the value in its place.
pub proof fn lemma_replace_at_token(name: Seq<char>, rest: Seq<char>, value: Seq<char>)
    ensures
        replace_all(placeholder(name) + rest, placeholder(name), value) == value + replace_all(
            rest,
            placeholder(name),
            value,
        ),
{
    let pat = placeholder(name);
    let s = pat + rest;
    assert(s.subrange(0, pat.len() as int) == pat);
    assert(s.skip(pat.len() as int) == rest);
}

/// Replacing the placeholder of `name` in a row of plain pieces gives the
/// row in which the tokens of that name have become the value.
pub proof fn lemma_replace_is_put(pieces: Seq<Piece>, name: Seq<char>, value: Seq<char>)
    requires
        all_plain(pieces),
        brace_free(name),
    ensures
        replace_all(render(pieces), placeholder(name), value) == render(
            put_all(pieces, name, value),
        ),
    decreases pieces.len(),
{
    let after = put_all(pieces, name, value);
    if pieces.len() > 0 {
        let rest = pieces.drop_first();
        assert(pieces[0].plain());
        assert forall|i: int| 0 <= i < rest.len() implies (#[trigger] rest[i]).plain() by {
            assert(rest[i] == pieces[i + 1]);
        }
        lemma_replace_is_put(rest, name, value);
        assert(after.drop_first() == put_all(rest, name, value));
        assert(after[0] == pieces[0].put(name, value));
        let tail = render(rest);
        match pieces[0] {
            Piece::Chunk(text) => {
                lemma_replace_after_chunk(text, tail, name, value);
            },
            Piece::Token(own) => {
                if own == name {
                    lemma_replace_at_token(name, tail, value);
                } else {
                    lemma_replace_after_other_token(own, tail, name, value);
                }
            },
        }
    }
}

/// Replacing the placeholders of `params` one after the other in a row of
/// plain pieces gives the row in which each parameter in turn was given its value.
pub proof fn lemma_substitute_is_put_each(pieces: Seq<Piece>, params: Seq<(Seq<char>, Seq<char>)>)
    requires
        all_plain(pieces),
        plain_params(params),
    ensures
        substitute(render(pieces), params) == render(put_each(pieces, params)),
    decreases params.len(),
{
    if params.len() > 0 {
        let name = params[0].0;
        let value = params[0].1;
        let after = put_all(pieces, name, value);
        let rest = params.drop_first();
        assert(brace_free(params[0].0) && brace_free(params[0].1));
        lemma_replace_is_put(pieces, name, value);
        assert forall|i: int| 0 <= i < after.len() implies (#[trigger] after[i]).plain() by {
            assert(pieces[i].plain());
        }
        assert forall|i: int| 0 <= i < rest.len() implies brace_free((#[trigger] rest[i]).0)
            && brace_free(rest[i].1) by {
            assert(rest[i] == params[i + 1]);
        }
        lemma_substitute_is_put_each(after, rest);
    }
}

/// Giving each parameter in turn its value comes to the same as giving
/// every parameter its value at once.
pub proof fn lemma_put_each_is_filled(pieces: Seq<Piece>, params: Seq<(Seq<char>, Seq<char>)>)
    ensures
        put_each(pieces, params) == filled(pieces, params),
    decreases params.len(),
{
    if params.len() == 0 {
        assert(filled(pieces, params) =~= pieces);
    } else {
        let after = put_all(pieces, params[0].0, params[0].1);
        let rest = params.drop_first();
        lemma_put_each_is_filled(after, rest);
        assert(filled(after, rest) =~= filled(pieces, params));
    }
}

/// The first parameter of a name is one of the parameters, and where no
/// parameter has the name there is none.
pub proof fn lemma_value_of(params: Seq<(Seq<char>, Seq<char>)>, name: Seq<char>)
    ensures
        match value_of(params, name) {
            Some(value) => params.contains((name, value)),
            None => forall|i: int| 0 <= i < params.len() ==> (#[trigger] params[i]).0 != name,
        },
    decreases params.len(),
{
    if params.len() > 0 {
        let rest = params.drop_first();
        if params[0].0 == name {
            assert(params[0] == (name, params[0].1));
        } else {
            lemma_value_of(rest, name);
            match value_of(rest, name) {
                Some(value) => {
                    let i = choose|i: int| 0 <= i < rest.len() && rest[i] == (name, value);
                    assert(params[i + 1] == (name, value));
                },
                None => {
                    assert forall|i: int| 0 <= i < params.len() implies (#[trigger] params[i]).0
                        != name by {
                        if i > 0 {
                            assert(params[i] == rest[i - 1]);
                        }
                    }
                },
            }
        }
    }
}

/// Where no two parameters have one name, a parameter is the first of its name.
pub proof fn lemma_value_of_distinct(
    params: Seq<(Seq<char>, Seq<char>)>,
    name: Seq<char>,
    value: Seq<char>,
)
    requires
        distinct_names(params),
        params.contains((name, value)),
    ensures
        value_of(params, name) == Some(value),
{
    lemma_value_of(params, name);
    let i = choose|i: int| 0 <= i < params.len() && params[i] == (name, value);
    match value_of(params, name) {
        Some(other) => {
            let j = choose|j: int| 0 <= j < params.len() && params[j] == (name, other);
            if i != j {
                assert(params[i].0 != params[j].0);
            }
        },
        None => {
            assert(params[i].0 != name);
        },
    }
}

/// Parameters with distinct names, in whatever order, give every name the same value.
pub proof fn lemma_value_of_any_order(
    p: Seq<(Seq<char>, Seq<char>)>,
    q: Seq<(Seq<char>, Seq<char>)>,
    name: Seq<char>,
)
    requires
        distinct_names(p),
        p.to_multiset() == q.to_multiset(),
    ensures
        value_of(q, name) == value_of(p, name),
{
    lemma_value_of(q, name);
    lemma_value_of(p, name);
    match value_of(q, name) {
        Some(value) => {
            vstd::seq_lib::to_multiset_contains(q, (name, value));
            vstd::seq_lib::to_multiset_contains(p, (name, value));
            lemma_value_of_distinct(p, name, value);
        },
        None => {
            match value_of(p, name) {
                Some(value) => {
                    vstd::seq_lib::to_multiset_contains(q, (name, value));
                    vstd::seq_lib::to_multiset_contains(p, (name, value));
                    let i = choose|i: int| 0 <= i < q.len() && q[i] == (name, value);
                    assert(q[i].0 == name);
                },
                None => {},
            }
        },
    }
}

/// Parameters in another order are as plain as they were.
pub proof fn lemma_plain_in_any_order(
    p: Seq<(Seq<char>, Seq<char>)>,
    q: Seq<(Seq<char>, Seq<char>)>,
)
    requires
        plain_params(p),
        p.to_multiset() == q.to_multiset(),
    ensures
        plain_params(q),
{
    assert forall|i: int| 0 <= i < q.len() implies brace_free((#[trigger] q[i]).0) && brace_free(
        q[i].1,
    ) by {
        assert(q.contains(q[i]));
        vstd::seq_lib::to_multiset_contains(q, q[i]);
        vstd::seq_lib::to_multiset_contains(p, q[i]);
        let j = choose|j: int| 0 <= j < p.len() && p[j] == q[i];
        assert(brace_free(p[j].0) && brace_free(p[j].1));
    }
}

} // verus!
