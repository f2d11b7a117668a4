//! The protocol between the compositor and its tools.

pub mod client;
pub mod frame;
pub mod message;
