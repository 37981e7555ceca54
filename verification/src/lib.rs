//! A small line-matching library: given a query string and a body of text,
//! pick out every line that contains the query, either case-sensitively or
//! case-insensitively (ASCII folding).

pub mod config;
pub mod driver;
pub mod matcher;
pub mod text;

pub use config::Config;
pub use driver::matching_lines;
pub use matcher::search;
pub use matcher::search_case_insensitive;
