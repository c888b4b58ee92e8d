//! Readiness events and the waits for them.

use crate::time::{Duration, MILLISECOND, SECOND};
use vstd::prelude::*;

verus! {

/// The event bits of `epoll`.
pub const READABLE: u32 = 0x0001;
pub const WRITABLE: u32 = 0x0004;
pub const ERROR: u32 = 0x0008;
pub const HANGUP: u32 = 0x0010;
pub const READ_HANGUP: u32 = 0x2000;

#[derive(Clone, Copy, Debug, PartialEq, Eq, Structural)]
pub struct Event {
    pub events: u32,
    pub token: u64,
}

impl Default for Event {
    fn default() -> (event: Event)
        ensures
            event == (Event { events: 0, token: 0 }),
    {
        Event { events: 0, token: 0 }
    }
}

/// Whether `events` holds one of the bits of `mask`.
pub open spec fn has(events: u32, mask: u32) -> bool {
    events & mask != 0
}

#[must_use]
pub fn holds(events: u32, mask: u32) -> (held: bool)
    ensures
        held == has(events, mask),
{
    events & mask != 0
}

/// The milliseconds that `epoll_wait` is given: -1 waits without a limit, and
/// more than it takes becomes the most it takes.
pub open spec fn wait_milliseconds(timeout: Option<Duration>) -> int {
    match timeout {
        None => -1,
        Some(span) => if span / MILLISECOND <= i32::MAX {
            (span / MILLISECOND) as int
        } else {
            i32::MAX as int
        },
    }
}

#[must_use]
pub fn wait_timeout(timeout: Option<Duration>) -> (milliseconds: i32)
    ensures
        milliseconds == wait_milliseconds(timeout),
{
    match timeout {
        None => -1,
        Some(span) => {
            let whole: u64 = span / MILLISECOND;
            if whole <= 0x7fff_ffff {
                whole as i32
            } else {
                i32::MAX
            }
        },
    }
}

/// The seconds and nanoseconds that a periodic timer is set to.
#[must_use]
pub fn timer_interval(interval: Duration) -> (parts: (i64, i64))
    ensures
        0 <= parts.0,
        0 <= parts.1 < SECOND,
        parts.0 * SECOND + parts.1 == interval,
{
    ((interval / SECOND) as i64, (interval % SECOND) as i64)
}

/// A wait is in whole milliseconds, rounded down, without a limit where none is
/// given, and never longer than the call takes.
pub proof fn law_waits_are_in_milliseconds(timeout: Option<Duration>)
    ensures
        timeout is None ==> wait_milliseconds(timeout) == -1,
        timeout is Some ==> {
            let span = timeout.unwrap();
            let wait = wait_milliseconds(timeout);
            &&& 0 <= wait <= i32::MAX
            &&& wait * 1_000_000 <= span
            &&& wait == i32::MAX || span < (wait + 1) * 1_000_000
        },
{
}

} // verus!
