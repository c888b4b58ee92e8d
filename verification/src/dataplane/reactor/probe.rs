//! When a peer that closed its window is asked again.

use crate::time::{Duration, Instant};
use vstd::prelude::*;

verus! {

pub const ZERO_WINDOW_PROBE_INITIAL: Duration = 1_000_000_000;
pub const ZERO_WINDOW_PROBE_MAX: Duration = 8_000_000_000;

#[derive(Clone, Copy, Debug, PartialEq, Eq, Structural)]
pub struct ZeroWindowProbe {
    pub deadline: Instant,
    pub interval: Duration,
}

/// Twice the interval, up to `most`.
pub open spec fn backed_off(interval: Duration, most: Duration) -> int {
    if 2 * interval <= most {
        2 * interval
    } else {
        most as int
    }
}

impl ZeroWindowProbe {
    pub open spec fn start(now: Instant) -> ZeroWindowProbe {
        ZeroWindowProbe {
            deadline: (now + ZERO_WINDOW_PROBE_INITIAL) as u64,
            interval: ZERO_WINDOW_PROBE_INITIAL,
        }
    }

    /// The probe after it was sent at `now`.
    pub open spec fn advanced(self, now: Instant) -> ZeroWindowProbe {
        let interval = backed_off(self.interval, ZERO_WINDOW_PROBE_MAX);
        ZeroWindowProbe { deadline: (now + interval) as u64, interval: interval as u64 }
    }

    #[must_use]
    pub fn new(now: Instant) -> (probe: ZeroWindowProbe)
        requires
            now + ZERO_WINDOW_PROBE_INITIAL <= u64::MAX,
        ensures
            probe == ZeroWindowProbe::start(now),
    {
        ZeroWindowProbe {
            deadline: now + ZERO_WINDOW_PROBE_INITIAL,
            interval: ZERO_WINDOW_PROBE_INITIAL,
        }
    }

    pub fn advance(&mut self, now: Instant)
        requires
            now + ZERO_WINDOW_PROBE_MAX <= u64::MAX,
        ensures
            *final(self) == old(self).advanced(now),
    {
        let interval: u64 = if self.interval <= ZERO_WINDOW_PROBE_MAX / 2 {
            self.interval * 2
        } else {
            ZERO_WINDOW_PROBE_MAX
        };
        self.interval = interval;
        self.deadline = now + interval;
    }
}

/// The probe after one was sent at each of the given times.
pub open spec fn advanced_along(probe: ZeroWindowProbe, times: Seq<Instant>) -> ZeroWindowProbe
    decreases times.len(),
{
    if times.len() == 0 {
        probe
    } else {
        advanced_along(probe, times.drop_last()).advanced(times.last())
    }
}

/// The wait after `n` probes: one second, doubled with every probe, up to eight
/// seconds.
pub open spec fn wait_after(n: nat) -> int {
    if n == 0 {
        1_000_000_000
    } else if n == 1 {
        2_000_000_000
    } else if n == 2 {
        4_000_000_000
    } else {
        8_000_000_000
    }
}

/// However often a peer is asked, and at whatever times, the waits run one, two,
/// four, eight and again eight seconds, and each counts from the time of the
/// probe before it.
pub proof fn law_waits_double_to_the_limit(start: Instant, times: Seq<Instant>)
    requires
        start + ZERO_WINDOW_PROBE_INITIAL <= u64::MAX,
        forall|i: int|
            0 <= i < times.len() ==> (#[trigger] times[i]) + ZERO_WINDOW_PROBE_MAX <= u64::MAX,
    ensures
        ({
            let probe = advanced_along(ZeroWindowProbe::start(start), times);
            &&& probe.interval == wait_after(times.len())
            &&& probe.deadline == wait_after(times.len()) + if times.len() == 0 {
                start
            } else {
                times.last()
            }
        }),
    decreases times.len(),
{
    if times.len() > 0 {
        law_waits_double_to_the_limit(start, times.drop_last());
        assert(times[times.len() - 1] == times.last());
    }
}

/// The wait between probes never shrinks and never exceeds its limit, however
/// often the peer is asked.
pub proof fn law_backoff_is_bounded(start: Instant, times: Seq<Instant>, now: Instant)
    ensures
        ({
            let probe = advanced_along(ZeroWindowProbe::start(start), times);
            &&& ZERO_WINDOW_PROBE_INITIAL <= probe.interval <= ZERO_WINDOW_PROBE_MAX
            &&& probe.interval <= probe.advanced(now).interval
        }),
    decreases times.len(),
{
    if times.len() > 0 {
        law_backoff_is_bounded(start, times.drop_last(), times.last());
    }
}

/// A peer that closed its window is asked after one second, and then after twice
/// the time before, up to eight seconds, counted from the last probe.
pub proof fn law_probe_is_due_after_its_wait(probe: ZeroWindowProbe, now: Instant)
    requires
        now + 8_000_000_000 <= u64::MAX,
    ensures
        ZeroWindowProbe::start(now).deadline == now + 1_000_000_000,
        ZeroWindowProbe::start(now).interval == 1_000_000_000,
        probe.advanced(now).deadline == now + probe.advanced(now).interval,
        probe.interval <= 4_000_000_000 ==> probe.advanced(now).interval == 2 * probe.interval,
        probe.interval > 4_000_000_000 ==> probe.advanced(now).interval == 8_000_000_000,
{
}

} // verus!
