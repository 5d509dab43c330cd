//! A small line-oriented text search library: literal, case-insensitive and
//! regular-expression matching over the lines of a text, plus the
//! configuration that selects among them.
pub mod config;
pub mod engine;
pub mod pattern;
pub mod search;
pub mod text;

pub use config::{Config, ConfigError};
pub use engine::search_with_config;
pub use pattern::{search_pattern, search_regex, Pattern};
pub use search::{search, search_case_insensitive};
pub use text::{contains_str, lines};
