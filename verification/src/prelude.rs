//! The names that most callers need.

pub use crate::builder::{FailedInit, LinguaBuilder};
pub use crate::config::ConfigFile;
pub use crate::error::LinguaError;
pub use crate::lingua::Lingua;
pub use crate::notify::Listeners;
pub use crate::source::LanguageSource;
pub use crate::table::{Node, Table};
