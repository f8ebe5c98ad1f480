//! A small line-oriented substring search library.
//!
//! Given a query string and a body of text, the library splits the text into
//! lines and reports, in source order, every line that contains the query,
//! either literally or up to lowercasing.  A companion configuration type
//! parses command-line style argument lists into a query, a file path and a
//! case-sensitivity flag.

pub mod casefold;
pub mod config;
pub mod lines;
pub mod search;
pub mod text;

pub use config::Config;
pub use config::get_case_sensitivities_from_arg;
pub use lines::split_lines;
pub use search::run_search;
pub use search::search_case_insensitive;
pub use search::search_case_sensitive;
pub use text::contains_substring;
