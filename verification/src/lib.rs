//! Log and trace collection core: what a broker keeps of the records it is
//! sent, what it answers about them, and what its callers may ask.
pub mod clock;
pub mod daemon;
pub mod domain_data;
pub mod engine;
pub mod filter;
pub mod gelf;
pub mod json;
pub mod logs;
pub mod ranking;
pub mod receiver;
pub mod rejection;
pub mod span;
pub mod store;
pub mod text;
pub mod text_map;
