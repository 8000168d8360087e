//! Converts a table of translations into one JSON document per language.
//!
//! A table has one row for each translated text. The first column holds the
//! record identifier, and every other column, but for a few reserved ones, holds
//! the texts of one language. For each language the conversion gathers the
//! texts by record identifier and writes them as a JSON object:
//!
//! ```json
//! {
//!   "app.title": "Translocate means to move from one place to another."
//! }
//! ```
//!
//! The library works on values: it is handed the rows of the table and hands
//! back the documents to write. Reading the table and writing the documents is
//! left to its caller.
//!
//! The contracts are stated over the characters of the texts and proved with
//! Verus. [`laws`] holds what follows from them for every table.

pub mod aggregator;
pub mod classifier;
pub mod config;
pub mod dictionary;
pub mod generators;
pub mod json;
pub mod language_map;
pub mod laws;
pub mod merge;
pub mod paths;
pub mod run;
pub mod text;
pub mod translations;

pub use aggregator::{Aggregator, Notice};
pub use config::{CliArgs, Config, ConfigError, Terminator, Trim};
pub use dictionary::Dictionary;
pub use generators::{generate_json, generate_json_fast, Generated, OutputFile};
pub use language_map::{LanguageMap, RenderError};
pub use merge::merge_value;
pub use paths::{special_character_check, special_characters_in};
pub use run::{run, RunError};
pub use translations::{FormatTranslation, LangData, Translations};
