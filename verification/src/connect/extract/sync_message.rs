//! Synchronous requests: a sent packet waits for the packet that answers it,
//! matched by request identifier.
use crate::connect::error::Error;
use vstd::prelude::*;

verus! {

/// A packet with an identifier that its answer repeats.
pub trait RequestIdPacket {
    type ID;

    fn request_id(&self) -> Self::ID;
}

} // verus!

verus! {

/// How long a synchronous request waits for its answer, in seconds.
pub const SYNC_TIMEOUT_SECS: u64 = 3;

/// Where an arriving packet goes.
#[derive(Debug, Clone, Copy, PartialEq, Eq, Structural)]
pub enum SyncRoute {
    /// The connection lost its table of waiting requests: close it.
    Close,
    /// A request waits for this answer: hand the packet to it.
    Answer,
    /// Pass the packet on.
    Forward,
}

/// The route of an arriving packet, given whether the connection has its
/// table of waiting requests and whether a request with the packet's
/// identifier waits in it.
pub fn sync_route(has_table: bool, has_waiter: bool) -> (r: SyncRoute)
    ensures
        !has_table ==> r == SyncRoute::Close,
        has_table && has_waiter ==> r == SyncRoute::Answer,
        has_table && !has_waiter ==> r == SyncRoute::Forward,
{
    if !has_table {
        SyncRoute::Close
    } else if has_waiter {
        SyncRoute::Answer
    } else {
        SyncRoute::Forward
    }
}

/// How a synchronous request ended.
pub enum SyncOutcome<T> {
    /// The connection had no table of waiting requests.
    NoTable,
    /// The request could not be sent.
    SendFailed,
    /// The answer came.
    Answered(T),
    /// The waiting side was dropped without an answer.
    Dropped,
    /// No answer came in time.
    TimedOut,
}

/// The result of a synchronous request: its answer, `Timeout` when none came
/// in time, `Disconnected` otherwise.
pub fn sync_send_result<T>(outcome: SyncOutcome<T>) -> (r: Result<T, Error>)
    ensures
        match outcome {
            SyncOutcome::Answered(t) => r == Ok::<T, Error>(t),
            SyncOutcome::TimedOut => r == Err::<T, Error>(Error::Timeout),
            _ => r == Err::<T, Error>(Error::Disconnected),
        },
{
    match outcome {
        SyncOutcome::Answered(t) => Ok(t),
        SyncOutcome::TimedOut => Err(Error::Timeout),
        _ => Err(Error::Disconnected),
    }
}

} // verus!
