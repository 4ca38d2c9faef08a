//! Line-oriented text search: pick out the lines of a text that contain a
//! query, either exactly or ignoring letter case.
pub mod config;
pub mod laws;
pub mod search;
pub mod text;

pub use config::{Config, USAGE_ERROR};
pub use search::{search, search_case_sensitive, search_with_mode, MatchMode};
pub use text::{contains_str, split_lines};
