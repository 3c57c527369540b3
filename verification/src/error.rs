//! The failures that the library reports.

use vstd::prelude::*;

verus! {

/// Why an operation of the library failed.
#[derive(Debug)]
pub enum LinguaError {
    /// The language directory could not be used; the text says why.
    DirectoryAccess(String),
    /// The text of language `file` is no JSON object.
    JsonParse { file: String, error: serde_json::Error },
    /// No table is loaded for this language code.
    LanguageNotAvailable(String),
    /// This key does not resolve in the table of the selected language.
    KeyNotFound(String),
    /// No text could be had for this language code.
    LanguageFileNotFound(String),
    /// An operation was asked for before any initialization succeeded.
    NotInitialized,
    /// No config file stands at this path.
    ConfigFileNotFound(String),
    /// The config file could not be read; the text says why.
    ConfigFileReadError(String),
    /// The config file has no entry for this key.
    ValueNotFoundInConfig(String),
}

} // verus!
