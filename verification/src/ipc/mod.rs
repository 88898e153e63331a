//! 9P-style inter-process messages: their wire format and errors.

pub mod bytes_buf;
pub mod channel;
pub mod error;
pub mod messages;
pub mod requests;
pub mod responses;
pub mod serialization;
