//! Connections that carry framed packets, and the processors that decide
//! what happens to each packet.

pub mod connection;
pub mod error;
pub mod extract;
