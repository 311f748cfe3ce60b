//! Log-side projections: shapes computed from a set of records rather than the
//! records themselves.
//!
//! The sibling of retrieval, and the distinction matters: `logs.recent` answers
//! *"show me these records"* and is bounded by a count; everything here answers
//! *"describe these records"* and must walk the whole matching population.
pub mod fields;
pub mod profile;
