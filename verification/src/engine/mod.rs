//! The order of arrival, and the record of what was kept of it.
pub mod epoch;
pub mod pipeline;
pub mod pre_buffer;
pub mod seq_counter;
