//! Spans and the traces that they make up.
pub mod types;
