//! A minimal line-oriented text search library.
//!
//! Given a query string and a body of text, the library reports the lines of
//! the text that contain the query, either verbatim (case-sensitive) or after
//! folding both sides to lowercase (case-insensitive). Results are references
//! into the original text, in the order the lines appear.

pub mod config;
pub mod lines;
pub mod matching;
pub mod searching;

pub use config::Config;
pub use searching::{search, search_case_insensitive, search_with_mode};
