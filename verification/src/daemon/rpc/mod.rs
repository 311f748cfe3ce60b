//! What the daemon's methods read from their callers and decide.
pub mod cases;
pub mod collectors;
pub mod comparisons;
pub mod data;
pub mod dispatch;
pub mod domains;
pub mod logs;
pub mod params;
pub mod requests;
pub mod status;
pub mod traces;
