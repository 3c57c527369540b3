//! Initialization: filling a registry from what was read for each language,
//! and selecting the language that the locale asks for.

use crate::error::LinguaError;
use crate::lingua::{
    english, fresh, is_load_failure, language_of, lemma_loading_keeps_selection, text_of, Lingua,
    LinguaView,
};
use crate::locale::detect_system_language;
use crate::source::{
    default_codes, default_languages, first_failure, loadable, sources_view, LanguageSource,
    SourceView,
};
use crate::text::{append_chars, chars_of, string_of, strings_view};
use vstd::prelude::*;

verus! {

/// The directory that is used where none is named.
pub open spec fn default_dir() -> Seq<char> {
    seq!['l', 'a', 'n', 'g', 'u', 'a', 'g', 'e']
}

/// The message of the failure to find any language file in `language_dir`.
pub open spec fn no_files_message(language_dir: Seq<char>) -> Seq<char> {
    "No language files found in '"@ + language_dir + seq!['\'']
}

/// Whether `error` tells that no language file was found in `language_dir`.
pub open spec fn is_no_files_failure(error: LinguaError, language_dir: Seq<char>) -> bool {
    error matches LinguaError::DirectoryAccess(message) && message@ == no_files_message(
        language_dir,
    )
}

/// Whether `error` tells why initialization from `sources` fails: that there
/// are none, or else what failed first among them.
pub open spec fn is_init_failure(
    error: LinguaError,
    language_dir: Seq<char>,
    sources: Seq<SourceView>,
) -> bool {
    if sources.len() == 0 {
        is_no_files_failure(error, language_dir)
    } else {
        is_load_failure(error, sources)
    }
}

/// Writes the message of the failure to find any language file in `language_dir`.
fn no_files_error(language_dir: &str) -> (r: LinguaError)
    ensures
        is_no_files_failure(r, language_dir@),
{
    let mut message = chars_of("No language files found in '");
    append_chars(&mut message, &chars_of(language_dir));
    message.push('\'');
    assert(message@ =~= no_files_message(language_dir@));
    LinguaError::DirectoryAccess(string_of(&message))
}

impl Lingua {
    /// Loads `sources` for the directory `language_dir` and counts them. It
    /// fails where one of them fails, which leaves those before it loaded,
    /// and where there are none.
    pub fn load_from_dir(&mut self, language_dir: &str, sources: &Vec<LanguageSource>) -> (r:
        Result<usize, LinguaError>)
        ensures
            final(self)@ == old(self)@.with_dir(language_dir@).loading_until_failure(
                sources_view(sources@),
            ),
            match r {
                Ok(count) => count == sources.len() && count > 0 && first_failure(
                    sources_view(sources@),
                ) == sources.len(),
                Err(error) => is_init_failure(error, language_dir@, sources_view(sources@)),
            },
    {
        self.set_language_dir(language_dir);
        match self.load_languages(sources) {
            Ok(count) => {
                if count == 0 {
                    Err(no_files_error(language_dir))
                } else {
                    Ok(count)
                }
            },
            Err(error) => Err(error),
        }
    }

    /// `load_from_dir`, and then, where that succeeded, the language of
    /// `locale` selected if it is loaded.
    pub fn initialize_with_locale(
        &mut self,
        language_dir: &str,
        sources: &Vec<LanguageSource>,
        locale: Option<&str>,
    ) -> (r: Result<usize, LinguaError>)
        ensures
            match r {
                Ok(count) => count == sources.len() && count > 0 && first_failure(
                    sources_view(sources@),
                ) == sources.len() && final(self)@ == old(self)@.with_dir(
                    language_dir@,
                ).loading_until_failure(sources_view(sources@)).selecting_detected(
                    language_of(text_of(locale)),
                ),
                Err(error) => is_init_failure(error, language_dir@, sources_view(sources@))
                    && final(self)@ == old(self)@.with_dir(language_dir@).loading_until_failure(
                    sources_view(sources@),
                ),
            },
    {
        match self.load_from_dir(language_dir, sources) {
            Ok(count) => {
                self.select_locale(locale);
                Ok(count)
            },
            Err(error) => Err(error),
        }
    }

    /// `load_from_dir`, and then, where that succeeded, the language of the
    /// system's locale selected if it is loaded. Whatever the system says,
    /// the tables are those that `load_from_dir` leaves, and the selected
    /// language is the one that was selected before, or a loaded one.
    pub fn initialize(&mut self, language_dir: &str, sources: &Vec<LanguageSource>) -> (r: Result<
        usize,
        LinguaError,
    >)
        ensures
            final(self)@ == (LinguaView {
                current: final(self)@.current,
                ..old(self)@.with_dir(language_dir@).loading_until_failure(sources_view(sources@))
            }),
            final(self)@.current == old(self)@.current || (r is Ok && final(self)@.has_language(
                final(self)@.current,
            )),
            match r {
                Ok(count) => count == sources.len() && count > 0 && first_failure(
                    sources_view(sources@),
                ) == sources.len(),
                Err(error) => is_init_failure(error, language_dir@, sources_view(sources@)),
            },
    {
        proof {
            lemma_loading_keeps_selection(
                old(self)@.with_dir(language_dir@),
                sources_view(sources@),
            );
        }
        match self.load_from_dir(language_dir, sources) {
            Ok(count) => {
                let detected = detect_system_language();
                match &detected {
                    Some(code) => self.select_detected(Some(code.as_str())),
                    None => self.select_detected(None),
                }
                Ok(count)
            },
            Err(error) => Err(error),
        }
    }

    /// Loads those of `sources` that can be loaded for the directory
    /// `language_dir` and counts them. Where at least one is loaded, the
    /// language of `locale` is selected if it is loaded. Where none is, it
    /// fails, and nothing is loaded or selected.
    pub fn initialize_lenient(
        &mut self,
        language_dir: &str,
        sources: &Vec<LanguageSource>,
        locale: Option<&str>,
    ) -> (r: Result<usize, LinguaError>)
        ensures
            match r {
                Ok(count) => count > 0 && count == loadable(sources_view(sources@))
                    && final(self)@ == old(self)@.with_dir(language_dir@).loading_each(
                    sources_view(sources@),
                ).selecting_detected(language_of(text_of(locale))),
                Err(error) => loadable(sources_view(sources@)) == 0 && is_no_files_failure(
                    error,
                    language_dir@,
                ) && final(self)@ == old(self)@.with_dir(language_dir@),
            },
    {
        self.set_language_dir(language_dir);
        proof {
            if loadable(sources_view(sources@)) == 0 {
                lemma_nothing_loadable(self@, sources_view(sources@));
            }
        }
        let count = self.load_languages_lenient(sources);
        if count == 0 {
            Err(no_files_error(language_dir))
        } else {
            self.select_locale(locale);
            Ok(count)
        }
    }

    /// A new registry for the directory `dir`, made by `initialize_lenient`.
    pub fn init_with_dir(dir: &str, sources: &Vec<LanguageSource>, locale: Option<&str>) -> (r:
        Result<Lingua, FailedInit>)
        ensures
            match r {
                Ok(lingua) => loadable(sources_view(sources@)) > 0 && lingua@ == fresh(
                    dir@,
                ).loading_each(sources_view(sources@)).selecting_detected(
                    language_of(text_of(locale)),
                ),
                Err(failed) => loadable(sources_view(sources@)) == 0 && is_no_files_failure(
                    failed.error,
                    dir@,
                ) && failed.lingua@ == fresh(dir@),
            },
    {
        Lingua::new(dir).init_lenient(sources, locale)
    }

    /// `init_with_dir` for the directory `language`.
    pub fn init(sources: &Vec<LanguageSource>, locale: Option<&str>) -> (r: Result<
        Lingua,
        FailedInit,
    >)
        ensures
            match r {
                Ok(lingua) => loadable(sources_view(sources@)) > 0 && lingua@ == fresh(
                    default_dir(),
                ).loading_each(sources_view(sources@)).selecting_detected(
                    language_of(text_of(locale)),
                ),
                Err(failed) => loadable(sources_view(sources@)) == 0 && is_no_files_failure(
                    failed.error,
                    default_dir(),
                ) && failed.lingua@ == fresh(default_dir()),
            },
    {
        let dir = string_of(&vec!['l', 'a', 'n', 'g', 'u', 'a', 'g', 'e']);
        Lingua::init_with_dir(dir.as_str(), sources, locale)
    }

    /// Begins a registry for the directory `language_dir`.
    pub fn new(language_dir: &str) -> (b: LinguaBuilder)
        ensures
            b@ == (BuilderView { language_dir: language_dir@, languages: None }),
    {
        LinguaBuilder { language_dir: language_dir.to_owned(), languages_to_load: None }
    }
}

/// What a `LinguaBuilder` holds.
pub struct BuilderView {
    /// Where the language files are looked for.
    pub language_dir: Seq<char>,
    /// The codes to try, where they were given.
    pub languages: Option<Seq<Seq<char>>>,
}

impl BuilderView {
    /// The codes to try: those that were given, or else the default ones.
    pub open spec fn candidates(self) -> Seq<Seq<char>> {
        match self.languages {
            Some(languages) => languages,
            None => default_codes(),
        }
    }
}

/// A registry in the making.
pub struct LinguaBuilder {
    language_dir: String,
    languages_to_load: Option<Vec<String>>,
}

impl View for LinguaBuilder {
    type V = BuilderView;

    closed spec fn view(&self) -> BuilderView {
        BuilderView {
            language_dir: self.language_dir@,
            languages: match self.languages_to_load {
                Some(languages) => Some(strings_view(languages@)),
                None => None,
            },
        }
    }
}

impl LinguaBuilder {
    /// Names the codes to try in place of the default ones.
    pub fn with_languages(self, languages: Vec<String>) -> (b: LinguaBuilder)
        ensures
            b@ == (BuilderView { languages: Some(strings_view(languages@)), ..self@ }),
    {
        LinguaBuilder { language_dir: self.language_dir, languages_to_load: Some(languages) }
    }

    /// Where the language files are looked for.
    pub fn language_dir(&self) -> (r: String)
        ensures
            r@ == self@.language_dir,
    {
        self.language_dir.clone()
    }

    /// The codes to try.
    pub fn candidates(&self) -> (r: Vec<String>)
        ensures
            strings_view(r@) == self@.candidates(),
    {
        match &self.languages_to_load {
            Some(languages) => {
                let mut r: Vec<String> = Vec::new();
                let mut i: usize = 0;
                while i < languages.len()
                    invariant
                        i <= languages.len(),
                        r@.len() == i,
                        forall|k: int| 0 <= k < i ==> r@[k]@ == languages@[k]@,
                    decreases languages.len() - i,
                {
                    r.push(languages[i].clone());
                    i += 1;
                }
                assert(strings_view(r@) =~= strings_view(languages@));
                r
            },
            None => default_languages(),
        }
    }

    /// The registry with nothing loaded yet.
    pub fn build(self) -> (r: Lingua)
        ensures
            r@ == fresh(self@.language_dir),
    {
        Lingua::empty(self.language_dir.as_str())
    }

    /// A new registry made by `initialize_with_locale`. Where that fails, the
    /// registry comes back with the failure, holding what was loaded before it.
    pub fn init_with_locale(self, sources: &Vec<LanguageSource>, locale: Option<&str>) -> (r:
        Result<Lingua, FailedInit>)
        ensures
            match r {
                Ok(lingua) => sources.len() > 0 && first_failure(sources_view(sources@))
                    == sources.len() && lingua@ == fresh(self@.language_dir).loading_until_failure(
                    sources_view(sources@),
                ).selecting_detected(language_of(text_of(locale))),
                Err(failed) => is_init_failure(
                    failed.error,
                    self@.language_dir,
                    sources_view(sources@),
                ) && failed.lingua@ == fresh(self@.language_dir).loading_until_failure(
                    sources_view(sources@),
                ),
            },
    {
        let mut lingua = Lingua::empty(self.language_dir.as_str());
        match lingua.initialize_with_locale(self.language_dir.as_str(), sources, locale) {
            Ok(_) => Ok(lingua),
            Err(error) => Err(FailedInit { lingua, error }),
        }
    }

    /// A new registry made by `initialize`. Whatever the system's locale is,
    /// the tables are those of `sources`, and the selected language is
    /// English or a loaded one. Where `initialize` fails, the registry comes
    /// back with the failure, holding what was loaded before it.
    pub fn init(self, sources: &Vec<LanguageSource>) -> (r: Result<Lingua, FailedInit>)
        ensures
            match r {
                Ok(lingua) => sources.len() > 0 && first_failure(sources_view(sources@))
                    == sources.len() && lingua@ == (LinguaView {
                    current: lingua@.current,
                    ..fresh(self@.language_dir).loading_until_failure(sources_view(sources@))
                }) && (lingua@.current == english() || lingua@.has_language(lingua@.current)),
                Err(failed) => is_init_failure(
                    failed.error,
                    self@.language_dir,
                    sources_view(sources@),
                ) && failed.lingua@ == fresh(self@.language_dir).loading_until_failure(
                    sources_view(sources@),
                ),
            },
    {
        let mut lingua = Lingua::empty(self.language_dir.as_str());
        proof {
            lemma_loading_keeps_selection(
                fresh(self@.language_dir),
                sources_view(sources@),
            );
        }
        match lingua.initialize(self.language_dir.as_str(), sources) {
            Ok(_) => Ok(lingua),
            Err(error) => Err(FailedInit { lingua, error }),
        }
    }

    /// A new registry made by `initialize_lenient`. Where that fails, the
    /// registry comes back with the failure, with nothing loaded.
    pub fn init_lenient(self, sources: &Vec<LanguageSource>, locale: Option<&str>) -> (r: Result<
        Lingua,
        FailedInit,
    >)
        ensures
            match r {
                Ok(lingua) => loadable(sources_view(sources@)) > 0 && lingua@ == fresh(
                    self@.language_dir,
                ).loading_each(sources_view(sources@)).selecting_detected(
                    language_of(text_of(locale)),
                ),
                Err(failed) => loadable(sources_view(sources@)) == 0 && is_no_files_failure(
                    failed.error,
                    self@.language_dir,
                ) && failed.lingua@ == fresh(self@.language_dir),
            },
    {
        let mut lingua = Lingua::empty(self.language_dir.as_str());
        match lingua.initialize_lenient(self.language_dir.as_str(), sources, locale) {
            Ok(_) => Ok(lingua),
            Err(error) => Err(FailedInit { lingua, error }),
        }
    }
}

/// An initialization that failed: why, and the registry as the failure left it.
#[derive(Debug)]
pub struct FailedInit {
    pub lingua: Lingua,
    pub error: LinguaError,
}

/// Where none of `sources` holds a table, loading them changes nothing.
pub proof fn lemma_nothing_loadable(v: LinguaView, sources: Seq<SourceView>)
    requires
        loadable(sources) == 0,
    ensures
        v.loading_each(sources) == v,
    decreases sources.len(),
{
    if sources.len() > 0 {
        lemma_nothing_loadable(v, sources.drop_first());
    }
}

} // verus!
