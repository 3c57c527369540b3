//! The language that the system's locale asks for.

use crate::text::{chars_of, string_of};
use vstd::prelude::*;

verus! {

/// Whether `c` ends the first part of a locale name.
pub open spec fn ends_subtag(c: char) -> bool {
    c == '-' || c == '_' || c == '.'
}

/// The language of a locale name: what stands before its first `-`, `_` or `.`.
pub open spec fn primary_subtag(locale: Seq<char>) -> Seq<char>
    decreases locale.len(),
{
    if locale.len() == 0 || ends_subtag(locale[0]) {
        Seq::empty()
    } else {
        seq![locale[0]] + primary_subtag(locale.drop_first())
    }
}

/// A primary subtag holds no `-`, `_` or `.`.
pub proof fn lemma_primary_subtag_plain(locale: Seq<char>)
    ensures
        forall|i: int|
            0 <= i < primary_subtag(locale).len() ==> !ends_subtag(
                #[trigger] primary_subtag(locale)[i],
            ),
    decreases locale.len(),
{
    if locale.len() > 0 && !ends_subtag(locale[0]) {
        let rest = primary_subtag(locale.drop_first());
        lemma_primary_subtag_plain(locale.drop_first());
        assert forall|i: int| 0 <= i < primary_subtag(locale).len() implies !ends_subtag(
            #[trigger] primary_subtag(locale)[i],
        ) by {
            if i > 0 {
                assert(primary_subtag(locale)[i] == rest[i - 1]);
            }
        }
    }
}

/// `sys_locale::get_locale`: the locale that the system prefers, if it tells
/// one. Nothing is claimed of it; it differs from machine to machine.
#[verifier::external_body]
fn system_locale() -> Option<String> {
    sys_locale::get_locale()
}

/// Extracts the language of `locale`.
pub fn primary_language(locale: &str) -> (r: String)
    ensures
        r@ == primary_subtag(locale@),
{
    let all = chars_of(locale);
    let mut out: Vec<char> = Vec::new();
    let mut i: usize = 0;
    assert(all@.skip(0) == all@);
    while i < all.len() && !(all[i] == '-' || all[i] == '_' || all[i] == '.')
        invariant
            i <= all.len(),
            primary_subtag(all@) == out@ + primary_subtag(all@.skip(i as int)),
        decreases all.len() - i,
    {
        proof {
            let rest = all@.skip(i as int);
            assert(rest[0] == all@[i as int]);
            assert(rest.drop_first() == all@.skip(i + 1));
            assert(out@.push(all@[i as int]) + primary_subtag(all@.skip(i + 1)) == out@ + (
            seq![rest[0]] + primary_subtag(rest.drop_first())));
        }
        out.push(all[i]);
        i += 1;
    }
    proof {
        let rest = all@.skip(i as int);
        if i < all.len() {
            assert(rest[0] == all@[i as int]);
        }
        assert(out@ + Seq::<char>::empty() == out@);
    }
    string_of(&out)
}

/// The locale that is taken where a browser names none.
pub open spec fn default_locale() -> Seq<char> {
    seq!['e', 'n']
}

/// The locale that a browser prefers: its language where it names one, or
/// else the first of its languages, or else the default locale.
pub open spec fn preferred(language: Option<String>, first_language: Option<String>) -> Seq<char> {
    match language {
        Some(name) => name@,
        None => match first_language {
            Some(name) => name@,
            None => default_locale(),
        },
    }
}

/// Picks the locale that a browser prefers.
pub fn preferred_locale(language: Option<String>, first_language: Option<String>) -> (r: Option<
    String,
>)
    ensures
        r matches Some(name) && name@ == preferred(language, first_language),
{
    match language {
        Some(name) => Some(name),
        None => match first_language {
            Some(name) => Some(name),
            None => Some(string_of(&vec!['e', 'n'])),
        },
    }
}

/// The language of `locale`, where there is a locale: `None` for `None`, and
/// for a locale name what stands before its first `-`, `_` or `.`.
pub fn language_of_locale(locale: Option<String>) -> (r: Option<String>)
    ensures
        match locale {
            Some(name) => r matches Some(code) && code@ == primary_subtag(name@),
            None => r is None,
        },
{
    match locale {
        Some(name) => Some(primary_language(name.as_str())),
        None => None,
    }
}

/// The language of the system's locale, where the system tells one. Whatever
/// the locale is, the language holds no `-`, `_` or `.`.
pub fn detect_system_language() -> (r: Option<String>)
    ensures
        r matches Some(code) ==> forall|i: int|
            0 <= i < code@.len() ==> !ends_subtag(#[trigger] code@[i]),
{
    let locale = system_locale();
    proof {
        if locale is Some {
            lemma_primary_subtag_plain(locale->0@);
        }
    }
    language_of_locale(locale)
}

} // verus!
