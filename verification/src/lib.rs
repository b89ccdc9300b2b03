//! A small instant-messaging stack: a compact binary wire format with a
//! verified encoder and decoder, length-prefixed framing, the packet model
//! of the messaging server, and the decisions its connection processors take.

pub mod endian;
pub mod connect;
pub mod im;
pub mod proxy;
pub mod wire;
