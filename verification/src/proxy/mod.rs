//! The two-way packet proxy: connections keyed by name, whose answers are
//! routed back to the requests waiting for them.
use vstd::prelude::*;

verus! {

/// Why a packet could not be read from bytes.
#[derive(Debug, Clone)]
pub enum PacketError {
    /// More bytes are needed.
    Incomplete,
    /// The bytes are no packet.
    Other(String),
}

/// What the reader does after asking the socket for more bytes.
#[derive(Debug, Clone, Copy, PartialEq, Eq, Structural)]
pub enum ReadStep {
    /// Bytes came: try to take a packet again.
    Retry,
    /// The peer closed the connection between packets.
    Closed,
    /// The peer closed the connection in the middle of a packet.
    Disconnected,
}

/// The reader's step after a read of `bytes_read` bytes, given whether its
/// buffer holds unread bytes.
pub fn after_read(bytes_read: usize, buffer_empty: bool) -> (s: ReadStep)
    ensures
        bytes_read > 0 ==> s == ReadStep::Retry,
        bytes_read == 0 && buffer_empty ==> s == ReadStep::Closed,
        bytes_read == 0 && !buffer_empty ==> s == ReadStep::Disconnected,
{
    if bytes_read == 0 {
        if buffer_empty {
            ReadStep::Closed
        } else {
            ReadStep::Disconnected
        }
    } else {
        ReadStep::Retry
    }
}

/// Where a packet read from a proxied connection goes.
#[derive(Debug, Clone, Copy, PartialEq, Eq, Structural)]
pub enum Delivery {
    /// A request is waiting for this answer: hand the packet to it.
    Answer,
    /// No request waits for it: the packet processor takes it.
    Process,
}

/// Where a packet goes, given whether a request waits for its identifier.
pub fn route_read(has_waiter: bool) -> (d: Delivery)
    ensures
        has_waiter ==> d == Delivery::Answer,
        !has_waiter ==> d == Delivery::Process,
{
    if has_waiter {
        Delivery::Answer
    } else {
        Delivery::Process
    }
}

} // verus!
