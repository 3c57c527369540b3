//! The language registry: the loaded tables and the selected language.

use crate::config::{config_value, find_config_value, ConfigFile};
use crate::error::LinguaError;
use crate::json::{parse_table, parsed_object};
use crate::locale::{primary_language, primary_subtag};
use crate::resolver::{params_view, resolution, resolve};
use crate::source::{first_failure, loadable, sources_view, LanguageSource, SourceView};
use crate::table::{Table, TableView};
use crate::text::{string_of, strings_view};
use vstd::prelude::*;

verus! {

/// What a `Lingua` holds.
pub struct LinguaView {
    /// The table of each loaded language, by its code.
    pub tables: Map<Seq<char>, TableView>,
    /// The code of the selected language.
    pub current: Seq<char>,
    /// Where the language files are looked for.
    pub language_dir: Seq<char>,
}

impl LinguaView {
    /// Whether a table is loaded for `code`.
    pub open spec fn has_language(self, code: Seq<char>) -> bool {
        self.tables.contains_key(code)
    }

    /// The registry with `table` loaded for `code`, in place of what `code` had.
    pub open spec fn with_table(self, code: Seq<char>, table: TableView) -> LinguaView {
        LinguaView { tables: self.tables.insert(code, table), ..self }
    }

    /// The registry after `code` was asked for: selected where it is loaded,
    /// and nothing changed where it is not.
    pub open spec fn selecting(self, code: Seq<char>) -> LinguaView {
        if self.has_language(code) {
            LinguaView { current: code, ..self }
        } else {
            self
        }
    }

    /// The registry after `code` was detected, if any was.
    pub open spec fn selecting_detected(self, code: Option<Seq<char>>) -> LinguaView {
        match code {
            Some(code) => self.selecting(code),
            None => self,
        }
    }

    /// The registry after `source` was loaded, where it holds a table.
    pub open spec fn loading(self, source: SourceView) -> LinguaView {
        match source.table() {
            Some(table) => self.with_table(source.code, table),
            None => self,
        }
    }

    /// The registry after `sources` were loaded in order, up to the first
    /// that holds no table.
    pub open spec fn loading_until_failure(self, sources: Seq<SourceView>) -> LinguaView
        decreases sources.len(),
    {
        if sources.len() == 0 || sources[0].table() is None {
            self
        } else {
            self.loading(sources[0]).loading_until_failure(sources.drop_first())
        }
    }

    /// The registry after those of `sources` that hold a table were loaded in order.
    pub open spec fn loading_each(self, sources: Seq<SourceView>) -> LinguaView
        decreases sources.len(),
    {
        if sources.len() == 0 {
            self
        } else {
            self.loading(sources[0]).loading_each(sources.drop_first())
        }
    }

    /// The registry with its language files looked for in `language_dir`.
    pub open spec fn with_dir(self, language_dir: Seq<char>) -> LinguaView {
        LinguaView { language_dir, ..self }
    }

    /// What `key` resolves to in the table of the selected language.
    pub open spec fn translation(self, key: Seq<char>, params: Seq<(Seq<char>, Seq<char>)>) -> Option<
        Seq<char>,
    > {
        if self.has_language(self.current) {
            resolution(self.tables[self.current], key, params)
        } else {
            None
        }
    }
}

/// The codes of `entries`, in order.
pub open spec fn codes(entries: Seq<(String, Table)>) -> Seq<Seq<char>> {
    Seq::new(entries.len(), |i: int| entries[i].0@)
}

/// The map from each code of `entries` to the table that stands with it.
pub open spec fn tables_map(entries: Seq<(String, Table)>) -> Map<Seq<char>, TableView> {
    Map::new(
        |c: Seq<char>| codes(entries).contains(c),
        |c: Seq<char>| entries[codes(entries).index_of(c)].1@,
    )
}

/// Where no code occurs twice, each entry is what the map holds for its code.
pub proof fn lemma_tables_map_at(entries: Seq<(String, Table)>, i: int)
    requires
        codes(entries).no_duplicates(),
        0 <= i < entries.len(),
    ensures
        tables_map(entries).contains_key(entries[i].0@),
        tables_map(entries)[entries[i].0@] == entries[i].1@,
{
    let c = entries[i].0@;
    assert(codes(entries)[i] == c);
    let j = codes(entries).index_of(c);
    assert(codes(entries)[j] == c);
}

/// A code that no entry has is no key of the map.
pub proof fn lemma_tables_map_absent(entries: Seq<(String, Table)>, c: Seq<char>)
    requires
        forall|j: int| 0 <= j < entries.len() ==> entries[j].0@ != c,
    ensures
        !tables_map(entries).contains_key(c),
{
    if codes(entries).contains(c) {
        let j = codes(entries).index_of(c);
        assert(codes(entries)[j] == c);
    }
}

/// An entry under a new code adds one key to the map.
pub proof fn lemma_tables_map_push(entries: Seq<(String, Table)>, entry: (String, Table))
    requires
        codes(entries).no_duplicates(),
        forall|j: int| 0 <= j < entries.len() ==> entries[j].0@ != entry.0@,
    ensures
        codes(entries.push(entry)).no_duplicates(),
        tables_map(entries.push(entry)) == tables_map(entries).insert(entry.0@, entry.1@),
{
    let after = entries.push(entry);
    assert forall|i: int, j: int|
        0 <= i < after.len() && 0 <= j < after.len() && i != j implies codes(after)[i] != codes(
        after,
    )[j] by {
        if i < entries.len() && j < entries.len() {
            assert(codes(entries)[i] != codes(entries)[j]);
        }
    }
    assert forall|c: Seq<char>|
        tables_map(after).contains_key(c) <==> #[trigger] tables_map(entries).insert(
            entry.0@,
            entry.1@,
        ).contains_key(c) by {
        if codes(after).contains(c) {
            let j = codes(after).index_of(c);
            if j < entries.len() {
                assert(codes(entries)[j] == c);
            }
        }
        if codes(entries).contains(c) {
            let j = codes(entries).index_of(c);
            assert(codes(after)[j] == c);
        }
        if c == entry.0@ {
            assert(codes(after)[entries.len() as int] == c);
        }
    }
    assert forall|c: Seq<char>| #[trigger] tables_map(after).contains_key(c) implies tables_map(
        after,
    )[c] == tables_map(entries).insert(entry.0@, entry.1@)[c] by {
        let j = codes(after).index_of(c);
        lemma_tables_map_at(after, j);
        if j < entries.len() {
            assert(codes(entries)[j] == c);
            lemma_tables_map_at(entries, j);
        }
    }
    assert(tables_map(after) =~= tables_map(entries).insert(entry.0@, entry.1@));
}

/// An entry in place of another of the same code changes one value of the map.
pub proof fn lemma_tables_map_update(
    entries: Seq<(String, Table)>,
    i: int,
    entry: (String, Table),
)
    requires
        codes(entries).no_duplicates(),
        0 <= i < entries.len(),
        entries[i].0@ == entry.0@,
    ensures
        codes(entries.update(i, entry)).no_duplicates(),
        tables_map(entries.update(i, entry)) == tables_map(entries).insert(entry.0@, entry.1@),
{
    let after = entries.update(i, entry);
    assert(codes(after) =~= codes(entries));
    assert forall|c: Seq<char>| #[trigger] tables_map(after).contains_key(c) implies tables_map(
        after,
    )[c] == tables_map(entries).insert(entry.0@, entry.1@)[c] by {
        let j = codes(after).index_of(c);
        assert(codes(after)[j] == c);
        assert(codes(entries)[j] == c);
        assert(codes(entries)[i] == entry.0@);
        lemma_tables_map_at(after, j);
        lemma_tables_map_at(entries, j);
    }
    lemma_tables_map_at(entries, i);
    assert(tables_map(after) =~= tables_map(entries).insert(entry.0@, entry.1@));
}

/// The registry of loaded languages, with the one that is selected.
#[derive(Debug)]
pub struct Lingua {
    tables: Vec<(String, Table)>,
    current: String,
    language_dir: String,
}

impl View for Lingua {
    type V = LinguaView;

    closed spec fn view(&self) -> LinguaView {
        LinguaView {
            tables: tables_map(self.tables@),
            current: self.current@,
            language_dir: self.language_dir@,
        }
    }
}

impl Lingua {
    #[verifier::type_invariant]
    spec fn well_formed(&self) -> bool {
        &&& codes(self.tables@).no_duplicates()
        &&& self.current@ == english() || tables_map(self.tables@).contains_key(self.current@)
    }

    /// Position of the entry of `code`.
    fn position(&self, code: &String) -> (r: Option<usize>)
        ensures
            match r {
                Some(i) => i < self.tables.len() && self.tables[i as int].0@ == code@
                    && self@.tables.contains_key(code@) && self@.tables[code@]
                    == self.tables[i as int].1@,
                None => !self@.tables.contains_key(code@) && forall|j: int|
                    0 <= j < self.tables.len() ==> self.tables[j].0@ != code@,
            },
    {
        proof {
            use_type_invariant(self);
        }
        let mut i: usize = 0;
        while i < self.tables.len()
            invariant
                i <= self.tables.len(),
                codes(self.tables@).no_duplicates(),
                forall|j: int| 0 <= j < i ==> self.tables[j].0@ != code@,
            decreases self.tables.len() - i,
        {
            if self.tables[i].0 == *code {
                proof {
                    lemma_tables_map_at(self.tables@, i as int);
                }
                return Some(i);
            }
            i += 1;
        }
        proof {
            lemma_tables_map_absent(self.tables@, code@);
        }
        None
    }

    /// Whether a table is loaded for `lang_code`.
    pub fn has_language(&self, lang_code: &str) -> (r: bool)
        ensures
            r == self@.has_language(lang_code@),
    {
        let code = lang_code.to_owned();
        self.position(&code).is_some()
    }

    /// Selects `lang_code`, which must be loaded.
    pub fn set_language(&mut self, lang_code: &str) -> (r: Result<bool, LinguaError>)
        ensures
            final(self)@ == old(self)@.selecting(lang_code@),
            match r {
                Ok(done) => done && old(self)@.has_language(lang_code@),
                Err(LinguaError::LanguageNotAvailable(code)) => !old(self)@.has_language(
                    lang_code@,
                ) && code@ == lang_code@,
                Err(_) => false,
            },
    {
        if self.has_language(lang_code) {
            proof {
                use_type_invariant(&*self);
            }
            self.current = lang_code.to_owned();
            Ok(true)
        } else {
            Err(LinguaError::LanguageNotAvailable(lang_code.to_owned()))
        }
    }

    /// The code of the selected language: English, or a loaded language.
    pub fn get_language(&self) -> (r: Result<String, LinguaError>)
        ensures
            r matches Ok(code) && code@ == self@.current,
            self@.current == english() || self@.has_language(self@.current),
    {
        proof {
            use_type_invariant(self);
        }
        Ok(self.current.clone())
    }

    /// The codes of the loaded languages, each once, in no particular order.
    pub fn get_languages(&self) -> (r: Result<Vec<String>, LinguaError>)
        ensures
            r matches Ok(found) && strings_view(found@).no_duplicates() && strings_view(
                found@,
            ).to_set() == self@.tables.dom(),
    {
        proof {
            use_type_invariant(self);
        }
        let mut found: Vec<String> = Vec::new();
        let mut i: usize = 0;
        while i < self.tables.len()
            invariant
                i <= self.tables.len(),
                found@.len() == i,
                forall|k: int| 0 <= k < i ==> found@[k]@ == self.tables[k].0@,
            decreases self.tables.len() - i,
        {
            found.push(self.tables[i].0.clone());
            i += 1;
        }
        assert(strings_view(found@) =~= codes(self.tables@));
        assert(strings_view(found@).to_set() =~= self@.tables.dom());
        Ok(found)
    }

    /// Loads `table` for `lang_code`, in place of what `lang_code` had.
    pub fn insert_table(&mut self, lang_code: &str, table: Table)
        ensures
            final(self)@ == old(self)@.with_table(lang_code@, table@),
    {
        proof {
            use_type_invariant(&*self);
        }
        let code = lang_code.to_owned();
        let found = self.position(&code);
        let mut whole = Lingua::empty("");
        core::mem::swap(self, &mut whole);
        proof {
            use_type_invariant(&whole);
        }
        let Lingua { tables, current, language_dir } = whole;
        let mut tables = tables;
        let ghost before = tables@;
        match found {
            Some(i) => {
                proof {
                    lemma_tables_map_update(before, i as int, (code, table));
                }
                tables.set(i, (code, table));
            },
            None => {
                proof {
                    lemma_tables_map_push(before, (code, table));
                }
                tables.push((code, table));
            },
        }
        *self = Lingua { tables, current, language_dir };
    }

    /// Reads `json_str` as a JSON object and loads it for `lang_code`.
    pub fn load_translations_from_str(&mut self, lang_code: &str, json_str: &str) -> (r: Result<
        (),
        LinguaError,
    >)
        ensures
            match r {
                Ok(_) => parsed_object(json_str@) matches Some(table) && final(self)@ == old(
                    self,
                )@.with_table(lang_code@, table),
                Err(LinguaError::JsonParse { file, error }) => parsed_object(json_str@) is None
                    && file@ == lang_code@ && final(self)@ == old(self)@,
                Err(_) => false,
            },
    {
        match parse_table(json_str) {
            Ok(table) => {
                self.insert_table(lang_code, table);
                Ok(())
            },
            Err(error) => Err(LinguaError::JsonParse { file: lang_code.to_owned(), error }),
        }
    }

    /// Resolves `key` in the table of the selected language and applies `params`.
    pub fn translate(&self, key: &str, params: &[(&str, &str)]) -> (r: Result<String, LinguaError>)
        ensures
            match r {
                Ok(text) => self@.translation(key@, params_view(params@)) == Some(text@),
                Err(LinguaError::LanguageNotAvailable(code)) => !self@.has_language(
                    self@.current,
                ) && code@ == self@.current,
                Err(LinguaError::KeyNotFound(missing)) => self@.has_language(self@.current)
                    && self@.translation(key@, params_view(params@)) is None && missing@ == key@,
                Err(_) => false,
            },
    {
        match self.position(&self.current) {
            Some(i) => match resolve(&self.tables[i].1, key, params) {
                Some(text) => Ok(text),
                None => Err(LinguaError::KeyNotFound(key.to_owned())),
            },
            None => Err(LinguaError::LanguageNotAvailable(self.current.clone())),
        }
    }

    /// What `translate` gives, or `key` itself where `translate` fails.
    pub fn t(&self, key: &str, params: &[(&str, &str)]) -> (r: String)
        ensures
            r@ == match self@.translation(key@, params_view(params@)) {
                Some(text) => text,
                None => key@,
            },
    {
        match self.translate(key, params) {
            Ok(text) => text,
            Err(_) => key.to_owned(),
        }
    }

    /// Loads the text that was read for `lang_code`: a JSON object.
    pub fn load_language(&mut self, lang_code: &str, content: Option<&str>) -> (r: Result<
        (),
        LinguaError,
    >)
        ensures
            final(self)@ == old(self)@.loading(source_of(lang_code@, content)),
            match r {
                Ok(_) => source_of(lang_code@, content).table() is Some,
                Err(LinguaError::LanguageFileNotFound(code)) => content is None && code@
                    == lang_code@,
                Err(LinguaError::JsonParse { file, error }) => content is Some && source_of(
                    lang_code@,
                    content,
                ).table() is None && file@ == lang_code@,
                Err(_) => false,
            },
    {
        match content {
            Some(text) => self.load_translations_from_str(lang_code, text),
            None => Err(LinguaError::LanguageFileNotFound(lang_code.to_owned())),
        }
    }

    /// Loads `sources` in order and stops at the first that fails. What was
    /// loaded before it stays loaded.
    pub fn load_languages(&mut self, sources: &Vec<LanguageSource>) -> (r: Result<
        usize,
        LinguaError,
    >)
        ensures
            final(self)@ == old(self)@.loading_until_failure(sources_view(sources@)),
            match r {
                Ok(count) => count == sources.len() && first_failure(sources_view(sources@))
                    == sources.len(),
                Err(error) => is_load_failure(error, sources_view(sources@)),
            },
    {
        let ghost all = sources_view(sources@);
        let mut i: usize = 0;
        assert(all.skip(0) == all);
        while i < sources.len()
            invariant
                i <= sources.len(),
                all == sources_view(sources@),
                old(self)@.loading_until_failure(all) == self@.loading_until_failure(
                    all.skip(i as int),
                ),
                first_failure(all) == i + first_failure(all.skip(i as int)),
            decreases sources.len() - i,
        {
            let content = match &sources[i].content {
                Some(text) => Some(text.as_str()),
                None => None,
            };
            proof {
                assert(all.skip(i as int)[0] == sources[i as int]@);
                assert(source_of(sources[i as int].code@, content) == sources[i as int]@);
                assert(all.skip(i as int).drop_first() == all.skip(i + 1));
            }
            match self.load_language(sources[i].code.as_str(), content) {
                Ok(_) => {},
                Err(error) => {
                    return Err(error);
                },
            }
            i += 1;
        }
        Ok(i)
    }

    /// Loads those of `sources` that can be loaded, and counts them.
    pub fn load_languages_lenient(&mut self, sources: &Vec<LanguageSource>) -> (count: usize)
        ensures
            final(self)@ == old(self)@.loading_each(sources_view(sources@)),
            count == loadable(sources_view(sources@)),
    {
        let ghost all = sources_view(sources@);
        let mut count: usize = 0;
        let mut i: usize = 0;
        assert(all.skip(0) == all);
        while i < sources.len()
            invariant
                i <= sources.len(),
                count <= i,
                all == sources_view(sources@),
                old(self)@.loading_each(all) == self@.loading_each(all.skip(i as int)),
                loadable(all) == count + loadable(all.skip(i as int)),
            decreases sources.len() - i,
        {
            let content = match &sources[i].content {
                Some(text) => Some(text.as_str()),
                None => None,
            };
            proof {
                assert(all.skip(i as int)[0] == sources[i as int]@);
                assert(source_of(sources[i as int].code@, content) == sources[i as int]@);
                assert(all.skip(i as int).drop_first() == all.skip(i + 1));
            }
            match self.load_language(sources[i].code.as_str(), content) {
                Ok(_) => {
                    count += 1;
                },
                Err(_) => {},
            }
            i += 1;
        }
        count
    }

    /// Selects the language `detected`, if there is one and it is loaded.
    pub fn select_detected(&mut self, detected: Option<&str>)
        ensures
            final(self)@ == old(self)@.selecting_detected(text_of(detected)),
    {
        match detected {
            Some(code) => {
                let _ = self.set_language(code);
            },
            None => {},
        }
    }

    /// Selects the language of `locale`, if there is one and it is loaded.
    pub fn select_locale(&mut self, locale: Option<&str>)
        ensures
            final(self)@ == old(self)@.selecting_detected(language_of(text_of(locale))),
    {
        match locale {
            Some(name) => {
                let code = primary_language(name);
                self.select_detected(Some(code.as_str()));
            },
            None => {},
        }
    }

    /// The language that the config file at `path` binds to `key`, which
    /// must be a loaded one. `file` is what reading the file came to.
    pub fn load_lang_from_config(&self, path: &str, file: &ConfigFile, key: &str) -> (r: Result<
        String,
        LinguaError,
    >)
        ensures
            match r {
                Ok(code) => file matches ConfigFile::Content(text) && config_value(text@, key@)
                    == Some(code@) && self@.has_language(code@),
                Err(LinguaError::ConfigFileNotFound(missing)) => file is Missing && missing@
                    == path@,
                Err(LinguaError::ConfigFileReadError(why)) => file matches ConfigFile::Unreadable(
                    reason,
                ) && why@ == reason@,
                Err(LinguaError::LanguageNotAvailable(code)) => file matches ConfigFile::Content(
                    text,
                ) && config_value(text@, key@) == Some(code@) && !self@.has_language(code@),
                Err(LinguaError::ValueNotFoundInConfig(wanted)) => file matches ConfigFile::Content(
                    text,
                ) && config_value(text@, key@) is None && wanted@ == key@,
                Err(_) => false,
            },
    {
        match file {
            ConfigFile::Missing => Err(LinguaError::ConfigFileNotFound(path.to_owned())),
            ConfigFile::Unreadable(reason) => Err(LinguaError::ConfigFileReadError(reason.clone())),
            ConfigFile::Content(text) => match find_config_value(text.as_str(), key) {
                Some(code) => {
                    if self.has_language(code.as_str()) {
                        Ok(code)
                    } else {
                        Err(LinguaError::LanguageNotAvailable(code))
                    }
                },
                None => Err(LinguaError::ValueNotFoundInConfig(key.to_owned())),
            },
        }
    }

    /// Looks for the language files in `language_dir` from now on.
    pub fn set_language_dir(&mut self, language_dir: &str)
        ensures
            final(self)@ == old(self)@.with_dir(language_dir@),
    {
        proof {
            use_type_invariant(&*self);
        }
        self.language_dir = language_dir.to_owned();
    }

    /// Where the language files are looked for.
    pub fn language_dir(&self) -> (r: String)
        ensures
            r@ == self@.language_dir,
    {
        self.language_dir.clone()
    }

    /// A registry for the directory `language_dir`, with nothing loaded and
    /// English selected.
    pub fn empty(language_dir: &str) -> (r: Lingua)
        ensures
            r@ == fresh(language_dir@),
    {
        let tables: Vec<(String, Table)> = Vec::new();
        assert(codes(tables@) =~= Seq::empty());
        let r = Lingua {
            tables,
            current: string_of(&vec!['e', 'n']),
            language_dir: language_dir.to_owned(),
        };
        assert(r@.tables =~= Map::empty());
        r
    }
}

/// Whether `error` tells of the first of `sources` that holds no table: that
/// it has no text, or that its text is no JSON object.
pub open spec fn is_load_failure(error: LinguaError, sources: Seq<SourceView>) -> bool {
    let at = first_failure(sources);
    0 <= at < sources.len() && match error {
        LinguaError::LanguageFileNotFound(code) => sources[at].content is None && code@
            == sources[at].code,
        LinguaError::JsonParse { file, error } => sources[at].content is Some && file@
            == sources[at].code,
        _ => false,
    }
}

/// Loading changes neither the selected language nor the directory.
pub proof fn lemma_loading_keeps_selection(v: LinguaView, sources: Seq<SourceView>)
    ensures
        v.loading_until_failure(sources).current == v.current,
        v.loading_until_failure(sources).language_dir == v.language_dir,
        v.loading_each(sources).current == v.current,
        v.loading_each(sources).language_dir == v.language_dir,
    decreases sources.len(),
{
    if sources.len() > 0 {
        lemma_loading_keeps_selection(v.loading(sources[0]), sources.drop_first());
    }
}

/// The characters of an optional text.
pub open spec fn text_of(text: Option<&str>) -> Option<Seq<char>> {
    match text {
        Some(text) => Some(text@),
        None => None,
    }
}

/// The language of an optional locale name.
pub open spec fn language_of(locale: Option<Seq<char>>) -> Option<Seq<char>> {
    match locale {
        Some(name) => Some(primary_subtag(name)),
        None => None,
    }
}

/// The source that the text read for `code` makes.
pub open spec fn source_of(code: Seq<char>, content: Option<&str>) -> SourceView {
    SourceView { code, content: text_of(content) }
}

/// The code of English.
pub open spec fn english() -> Seq<char> {
    seq!['e', 'n']
}

/// A registry without tables, with English selected.
pub open spec fn fresh(language_dir: Seq<char>) -> LinguaView {
    LinguaView { tables: Map::empty(), current: english(), language_dir }
}

} // verus!
