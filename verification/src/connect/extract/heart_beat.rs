//! Heartbeats: answering pings, and closing connections that stay silent.
use vstd::prelude::*;

verus! {

/// A packet that may be a ping or a pong.
pub trait PingPongPacket: Sized {
    /// Whether the packet is a ping.
    spec fn is_ping(&self) -> bool;

    fn ping(&self) -> (r: bool)
        ensures
            r == self.is_ping(),
    ;

    fn pong(&self) -> bool;

    /// The answer to a ping.
    fn gen_pong(&self) -> Self
        requires
            self.is_ping(),
    ;
}

} // verus!

verus! {

/// The largest span a `std::time::Duration` holds, in nanoseconds.
pub open spec fn duration_max_nanos() -> int {
    u64::MAX * 1_000_000_000 + 999_999_999
}

/// How long ago a connection is taken to have been read from when it never
/// was: one day, in nanoseconds.
pub const MUST_BE_LOGOUT_NANOS: u128 = 86_400_000_000_000;

/// How long ago the connection was last read from, in nanoseconds, given the
/// time since its last read if there was one.
pub fn last_read_elapsed(since_last_read: Option<u128>) -> (r: u128)
    ensures
        r == match since_last_read {
            Some(e) => e,
            None => MUST_BE_LOGOUT_NANOS,
        },
{
    match since_last_read {
        None => MUST_BE_LOGOUT_NANOS,
        Some(e) => e,
    }
}

/// What the heartbeat watcher does next.
#[derive(Debug, Clone, Copy, PartialEq, Eq, Structural)]
pub enum Beat {
    /// The connection has been silent for more than three intervals: the
    /// heartbeat has failed, so close the connection and stop watching.
    Close,
    /// Look again after this many nanoseconds.
    Sleep(u128),
}

/// The heartbeat watcher's step, given the interval and the time since the
/// last read, both in nanoseconds: after three silent intervals it closes the
/// connection, otherwise it sleeps until one interval after the last read, or a whole
/// interval when that moment has passed. Three intervals must fit a
/// `Duration`, whose multiplication panics otherwise.
pub fn heartbeat_step(interval: u128, elapsed: u128) -> (b: Beat)
    requires
        interval * 3 <= duration_max_nanos(),
    ensures
        elapsed > interval * 3 ==> b == Beat::Close,
        elapsed <= interval * 3 && interval > elapsed ==> b == Beat::Sleep((interval - elapsed) as u128),
        elapsed <= interval * 3 && interval <= elapsed ==> b == Beat::Sleep(interval),
        b matches Beat::Sleep(t) ==> 0 < t || interval == 0,
        b matches Beat::Sleep(t) ==> t <= interval,
{
    if elapsed > interval * 3 {
        return Beat::Close;
    }
    let next_tick = if interval > elapsed {
        interval - elapsed
    } else {
        interval
    };
    Beat::Sleep(next_tick)
}

} // verus!
