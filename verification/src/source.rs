//! Where the text of a language comes from: file names, addresses, and what
//! was read from them.

use crate::text::{
    append_chars, chars_of, ends_with, has_at, string_of, strings_view, strip_suffix_all,
    without_suffix,
};
use crate::json::parsed_object;
use crate::table::TableView;
use vstd::prelude::*;

verus! {

/// The text that was read for one language, or `None` where none could be had.
#[derive(Debug)]
pub struct LanguageSource {
    pub code: String,
    pub content: Option<String>,
}

/// What a `LanguageSource` holds.
pub struct SourceView {
    pub code: Seq<char>,
    pub content: Option<Seq<char>>,
}

impl View for LanguageSource {
    type V = SourceView;

    open spec fn view(&self) -> SourceView {
        SourceView {
            code: self.code@,
            content: match self.content {
                Some(text) => Some(text@),
                None => None,
            },
        }
    }
}

impl SourceView {
    /// The table that the text holds, where there is a text and it is a JSON object.
    pub open spec fn table(self) -> Option<TableView> {
        match self.content {
            Some(text) => parsed_object(text),
            None => None,
        }
    }
}

/// Position of the first of `sources` that holds no table, or their number
/// where each holds one.
pub open spec fn first_failure(sources: Seq<SourceView>) -> int
    decreases sources.len(),
{
    if sources.len() == 0 || sources[0].table() is None {
        0
    } else {
        1 + first_failure(sources.drop_first())
    }
}

/// How many of `sources` hold a table.
pub open spec fn loadable(sources: Seq<SourceView>) -> nat
    decreases sources.len(),
{
    if sources.len() == 0 {
        0
    } else if sources[0].table() is Some {
        1 + loadable(sources.drop_first())
    } else {
        loadable(sources.drop_first())
    }
}

/// The views of `sources`, in order.
pub open spec fn sources_view(sources: Seq<LanguageSource>) -> Seq<SourceView> {
    Seq::new(sources.len(), |i: int| sources[i]@)
}

/// The ending of a language file's name.
pub open spec fn json_suffix() -> Seq<char> {
    seq!['.', 'j', 's', 'o', 'n']
}

/// The language code that a file name stands for: a name that ends in
/// `.json`, without that ending however often it is repeated.
pub open spec fn code_of_file(file_name: Seq<char>) -> Option<Seq<char>> {
    if ends_with(file_name, json_suffix()) {
        Some(strip_suffix_all(file_name, json_suffix()))
    } else {
        None
    }
}

/// The codes of those of `file_names` that name a language file, in order.
pub open spec fn codes_of_files(file_names: Seq<Seq<char>>) -> Seq<Seq<char>>
    decreases file_names.len(),
{
    if file_names.len() == 0 {
        Seq::empty()
    } else {
        let before = codes_of_files(file_names.drop_last());
        match code_of_file(file_names.last()) {
            Some(code) => before.push(code),
            None => before,
        }
    }
}

/// The name of the file of language `code`.
pub open spec fn file_of_code(code: Seq<char>) -> Seq<char> {
    code + json_suffix()
}

/// The address of the file of language `code` below `base_path`, which is
/// taken from the root whether or not it begins with `/`.
pub open spec fn url_of_code(base_path: Seq<char>, code: Seq<char>) -> Seq<char> {
    let base = if starts_at_root(base_path) {
        base_path
    } else {
        seq!['/'] + base_path
    };
    base + seq!['/'] + code + json_suffix()
}

/// Whether a path begins with `/`.
pub open spec fn starts_at_root(path: Seq<char>) -> bool {
    path.len() > 0 && path[0] == '/'
}

/// The codes that are tried where none are given.
pub open spec fn default_codes() -> Seq<Seq<char>> {
    seq![
        seq!['e', 'n'],
        seq!['d', 'e'],
        seq!['f', 'r'],
        seq!['e', 's'],
        seq!['i', 't'],
        seq!['j', 'a'],
        seq!['z', 'h'],
    ]
}

/// The characters of `.json`.
fn suffix_chars() -> (r: Vec<char>)
    ensures
        r@ == json_suffix(),
{
    vec!['.', 'j', 's', 'o', 'n']
}

/// Reads the language code out of a file name.
pub fn language_code(file_name: &str) -> (r: Option<String>)
    ensures
        match r {
            Some(code) => code_of_file(file_name@) == Some(code@),
            None => code_of_file(file_name@) is None,
        },
{
    let name = chars_of(file_name);
    let suffix = suffix_chars();
    if name.len() >= suffix.len() && has_at(&name, name.len() - suffix.len(), &suffix) {
        Some(string_of(&without_suffix(&name, &suffix)))
    } else {
        None
    }
}

/// Reads the language codes out of the names of the files of a directory.
pub fn language_codes(file_names: &Vec<String>) -> (r: Vec<String>)
    ensures
        strings_view(r@) == codes_of_files(strings_view(file_names@)),
{
    let ghost names = strings_view(file_names@);
    let mut found: Vec<String> = Vec::new();
    let mut i: usize = 0;
    assert(strings_view(found@) =~= codes_of_files(names.take(0)));
    while i < file_names.len()
        invariant
            i <= file_names.len(),
            names == strings_view(file_names@),
            strings_view(found@) == codes_of_files(names.take(i as int)),
        decreases file_names.len() - i,
    {
        let ghost before = strings_view(found@);
        proof {
            assert(names.take(i + 1).drop_last() == names.take(i as int));
            assert(names.take(i + 1).last() == file_names@[i as int]@);
        }
        match language_code(file_names[i].as_str()) {
            Some(code) => {
                found.push(code);
                assert(strings_view(found@) =~= before.push(code@));
            },
            None => {},
        }
        i += 1;
    }
    assert(names.take(i as int) == names);
    found
}

/// Names the file of language `code`.
pub fn language_file_name(code: &str) -> (r: String)
    ensures
        r@ == file_of_code(code@),
{
    let mut name = chars_of(code);
    append_chars(&mut name, &suffix_chars());
    string_of(&name)
}

/// Gives the address of the file of language `code` below `base_path`.
pub fn language_url(base_path: &str, code: &str) -> (r: String)
    ensures
        r@ == url_of_code(base_path@, code@),
{
    let base = chars_of(base_path);
    let mut url: Vec<char> = Vec::new();
    if !(base.len() > 0 && base[0] == '/') {
        url.push('/');
    }
    append_chars(&mut url, &base);
    url.push('/');
    append_chars(&mut url, &chars_of(code));
    append_chars(&mut url, &suffix_chars());
    assert(url@ =~= url_of_code(base_path@, code@));
    string_of(&url)
}

/// Lists the codes that are tried where none are given.
pub fn default_languages() -> (r: Vec<String>)
    ensures
        strings_view(r@) == default_codes(),
{
    let mut r: Vec<String> = Vec::new();
    r.push(string_of(&vec!['e', 'n']));
    r.push(string_of(&vec!['d', 'e']));
    r.push(string_of(&vec!['f', 'r']));
    r.push(string_of(&vec!['e', 's']));
    r.push(string_of(&vec!['i', 't']));
    r.push(string_of(&vec!['j', 'a']));
    r.push(string_of(&vec!['z', 'h']));
    assert(strings_view(r@) =~= default_codes());
    r
}

} // verus!
