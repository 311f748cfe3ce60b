//! GELF: the messages that senders ship, and what they become.
pub mod message;
pub mod tcp;
pub mod udp;
