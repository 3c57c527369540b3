//! The value of a key in the text of a config file.
//!
//! The text is read line by line. A line that begins with `#` or `//` is a
//! comment. Any other line may bind a key to a value with `:` or `=`; quote
//! characters around the key, and quote characters and commas around the
//! value, are not part of them.

use crate::text::{
    chars_of, find_char, first_index, has_at, same_chars, slice_of, split, split_chars,
    starts_with, string_of, trim, trimmed, views, CharClass,
};
use vstd::prelude::*;

verus! {

/// What reading a config file came to.
#[derive(Debug)]
pub enum ConfigFile {
    /// Nothing stands at the path.
    Missing,
    /// The file could not be read; the text says why.
    Unreadable(String),
    /// The text of the file.
    Content(String),
}

/// The key that is looked for: `key` without quote characters, then without
/// whitespace, at its ends.
pub open spec fn clean_key(key: Seq<char>) -> Seq<char> {
    trim(trim(key, CharClass::Exactly('"')), CharClass::Whitespace)
}

/// Whether a line, whitespace taken off, is a comment.
pub open spec fn is_comment(line: Seq<char>) -> bool {
    starts_with(line, seq!['#']) || starts_with(line, seq!['/', '/'])
}

/// The key that `line` binds where `sep` stands at `pos`.
pub open spec fn bound_key(line: Seq<char>, pos: int) -> Seq<char> {
    trim(trim(line.take(pos), CharClass::Whitespace), CharClass::Exactly('"'))
}

/// The value that `line` binds where `sep` stands at `pos`.
pub open spec fn bound_value(line: Seq<char>, pos: int) -> Seq<char> {
    trim(
        trim(
            trim(trim(line.skip(pos + 1), CharClass::Whitespace), CharClass::Exactly('"')),
            CharClass::Exactly(','),
        ),
        CharClass::Exactly('"'),
    )
}

/// The value that `line` binds to `key` at its first `sep`, if it binds `key` there.
pub open spec fn entry_value(line: Seq<char>, sep: char, key: Seq<char>) -> Option<Seq<char>> {
    let pos = first_index(line, sep);
    if 0 <= pos < line.len() && bound_key(line, pos) == key {
        Some(bound_value(line, pos))
    } else {
        None
    }
}

/// The value that a line of the file binds to `key`: at its first `:`, or
/// else at its first `=`.
pub open spec fn line_value(line: Seq<char>, key: Seq<char>) -> Option<Seq<char>> {
    let stripped = trim(line, CharClass::Whitespace);
    if is_comment(stripped) {
        None
    } else {
        match entry_value(stripped, ':', key) {
            Some(value) => Some(value),
            None => entry_value(stripped, '=', key),
        }
    }
}

/// The value of the first of `lines` that binds `key`.
pub open spec fn first_value(lines: Seq<Seq<char>>, key: Seq<char>) -> Option<Seq<char>>
    decreases lines.len(),
{
    if lines.len() == 0 {
        None
    } else {
        match line_value(lines[0], key) {
            Some(value) => Some(value),
            None => first_value(lines.drop_first(), key),
        }
    }
}

/// The value that the text `content` of a config file binds to `key`.
pub open spec fn config_value(content: Seq<char>, key: Seq<char>) -> Option<Seq<char>> {
    first_value(split(content, '\n'), clean_key(key))
}

/// Reads the value that `line` binds to `key` at its first `sep`.
fn value_at(line: &Vec<char>, sep: char, key: &Vec<char>) -> (r: Option<Vec<char>>)
    ensures
        match r {
            Some(value) => entry_value(line@, sep, key@) == Some(value@),
            None => entry_value(line@, sep, key@) is None,
        },
{
    match find_char(line, sep) {
        Some(pos) => {
            let before = slice_of(line, 0, pos);
            assert(before@ == line@.take(pos as int));
            let name = trimmed(&trimmed(&before, CharClass::Whitespace), CharClass::Exactly('"'));
            if same_chars(&name, key) {
                let after = slice_of(line, pos + 1, line.len());
                assert(after@ == line@.skip(pos + 1));
                let value = trimmed(
                    &trimmed(
                        &trimmed(
                            &trimmed(&after, CharClass::Whitespace),
                            CharClass::Exactly('"'),
                        ),
                        CharClass::Exactly(','),
                    ),
                    CharClass::Exactly('"'),
                );
                Some(value)
            } else {
                None
            }
        },
        None => None,
    }
}

/// Reads the value that `line` binds to `key`.
fn value_in_line(line: &Vec<char>, key: &Vec<char>) -> (r: Option<Vec<char>>)
    ensures
        match r {
            Some(value) => line_value(line@, key@) == Some(value@),
            None => line_value(line@, key@) is None,
        },
{
    let stripped = trimmed(line, CharClass::Whitespace);
    let hash: Vec<char> = vec!['#'];
    let slashes: Vec<char> = vec!['/', '/'];
    assert(hash@ == seq!['#']);
    assert(slashes@ == seq!['/', '/']);
    if has_at(&stripped, 0, &hash) || has_at(&stripped, 0, &slashes) {
        return None;
    }
    match value_at(&stripped, ':', key) {
        Some(value) => Some(value),
        None => value_at(&stripped, '=', key),
    }
}

/// Finds the value that `content` binds to `key`.
pub fn find_config_value(content: &str, key: &str) -> (r: Option<String>)
    ensures
        match r {
            Some(value) => config_value(content@, key@) == Some(value@),
            None => config_value(content@, key@) is None,
        },
{
    let wanted = trimmed(&trimmed(&chars_of(key), CharClass::Exactly('"')), CharClass::Whitespace);
    let lines = split_chars(&chars_of(content), '\n');
    let ghost all = views(lines@);
    let mut i: usize = 0;
    assert(all.skip(0) == all);
    while i < lines.len()
        invariant
            i <= lines.len(),
            all == views(lines@),
            all == split(content@, '\n'),
            wanted@ == clean_key(key@),
            first_value(all, wanted@) == first_value(all.skip(i as int), wanted@),
        decreases lines.len() - i,
    {
        proof {
            assert(all.skip(i as int)[0] == lines@[i as int]@);
            assert(all.skip(i as int).drop_first() == all.skip(i + 1));
        }
        match value_in_line(&lines[i], &wanted) {
            Some(value) => {
                return Some(string_of(&value));
            },
            None => {},
        }
        i += 1;
    }
    None
}

} // verus!
