//! The messaging server's packets and the rules it applies to them.

pub mod auth;
pub mod client;
pub mod error;
pub mod packet;
pub mod packet_wire;
pub mod server;
