//! What a domain keeps.
pub mod bookmarks;
pub mod memory;
pub mod selection;
