//! Errors of the messaging server.
use vstd::prelude::*;

verus! {

/// Why a message could not be delivered.
#[derive(Debug, Clone, PartialEq, Eq)]
pub enum ImError {
    /// The receiving client answered with an error.
    Custom { code: u32, message: String },
    /// The receiving client is not connected.
    Disconnected,
    /// The receiving client answered with a packet that is no answer.
    UndefinedBehavior,
}

} // verus!
