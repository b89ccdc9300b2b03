//! Errors of a connection.
use crate::wire::error::Error as WireError;
use vstd::prelude::*;

verus! {

/// Why a connection could not go on.
#[derive(Debug, Clone, Copy, PartialEq, Eq, Structural)]
pub enum Error {
    /// A frame's bytes were not a packet.
    Serde(WireError),
    /// The peer went away.
    Disconnected,
    /// The peer did not answer in time.
    Timeout,
}

/// The outcome of a connection step.
pub type Result<T> = core::result::Result<T, Error>;

} // verus!
