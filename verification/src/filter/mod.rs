//! The filter language: what selects log records and spans.
pub mod admission;
pub mod bookmark_resolver;
pub mod parser;
