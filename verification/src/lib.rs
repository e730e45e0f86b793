//! A minimal line-oriented text search library.
//!
//! Given a query string and the full text of a file, `search` returns every
//! line that contains the query as a substring, optionally case-insensitively,
//! together with the line's zero-based index. `Config` gathers the query,
//! file name and case flag from raw invocation arguments; `Line` is one
//! match record, borrowing its text from the searched content.

pub mod config;
pub mod line;
pub mod search;
pub mod text;

pub use config::Config;
pub use line::Line;
pub use search::search;
