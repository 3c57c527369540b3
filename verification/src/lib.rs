//! Runtime internationalization: per-language translation tables, a selected
//! language, and resolution of dotted keys with named parameters.
//!
//! A `Lingua` holds the tables and the selected language. Texts come in as
//! JSON objects; `translate` and `t` resolve a dotted key such as
//! `menu.file.save` in the table of the selected language and put the
//! parameters in the places marked `{{name}}`.

pub mod builder;
pub mod config;
pub mod error;
pub mod json;
pub mod laws;
pub mod lingua;
pub mod locale;
pub mod notify;
pub mod prelude;
pub mod resolver;
pub mod source;
pub mod table;
pub mod template;
pub mod text;

pub use crate::builder::{FailedInit, LinguaBuilder};
pub use crate::config::ConfigFile;
pub use crate::error::LinguaError;
pub use crate::lingua::Lingua;
pub use crate::notify::Listeners;
pub use crate::source::LanguageSource;
pub use crate::table::{Node, Table};
