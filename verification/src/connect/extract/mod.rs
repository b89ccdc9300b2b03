//! Processors that take one concern each off the packets they forward:
//! heartbeats, the online state of logged-in users, and answers to
//! synchronous requests.

pub mod heart_beat;
pub mod online_state;
pub mod sync_message;

use vstd::prelude::*;

verus! {

/// A value that can be answered to the peer as a packet.
pub trait IntoPacket<T> {
    fn into_packet(self) -> T;
}

} // verus!
