//! A small text-search engine: split text into lines, select the lines that
//! contain a query, and cut each selected line into plain and highlighted
//! segments.

pub mod bytes;
pub mod config;
pub mod error;
pub mod fold;
pub mod highlight;
pub mod lines;
pub mod output;
pub mod resolve;
pub mod scan;

pub use bytes::{contains, find_from, matches_at};
pub use config::{Args, Config};
pub use error::{exit_code, SearchError};
pub use highlight::{highlight, segments_in, Segment};
pub use output::{read_results, FileOutput, LineOutput};
pub use resolve::{resolve, FileTarget};
pub use scan::{scan, search, search_case_insensitive};
