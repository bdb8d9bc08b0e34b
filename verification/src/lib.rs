//! A small line-oriented text search: pick the lines of a text that hold a
//! query, with or without regard to letter case.
//!
//! Every function states what it returns over the character sequences of its
//! arguments; the definitions those statements use live in [`text`].

pub mod config;
pub mod encoding;
pub mod find;
pub mod fold;
pub mod laws;
pub mod lines;
pub mod search;
pub mod selection;
pub mod text;

pub use config::{Config, ConfigError};
pub use find::contains;
pub use lines::split_first_line;
pub use search::{run, search, search_case_insensitive};
