//! What the daemon decides: how records are processed, and what its callers
//! are answered.
pub mod connection;
pub mod domain;
pub mod domain_lifecycle;
pub mod log_processor;
pub mod persistence;
pub mod rpc;
pub mod server;
pub mod span_processor;
