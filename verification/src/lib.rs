//! A small verified line-search library.
//!
//! A [`Config`](config::Config) is resolved from command-line style
//! arguments; the engine then filters the lines of a text by a query
//! (case-sensitively or not), optionally rewrites each matching line by
//! literal substring replacement, and optionally numbers the matches.

pub mod config;
pub mod engine;
pub mod text;

pub use config::Config;
pub use engine::replace_if_not_empty;
pub use engine::run;
pub use engine::search;
pub use engine::search_based_on_case;
pub use engine::search_case_insensitive;
pub use text::replace;
