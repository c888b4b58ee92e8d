//! Time as plain values: nanoseconds on the monotonic clock of the process.

use vstd::prelude::*;

verus! {

/// A point on the monotonic clock, in nanoseconds.
pub type Instant = u64;

/// A span of time, in nanoseconds.
pub type Duration = u64;

pub const MILLISECOND: u64 = 1_000_000;
pub const SECOND: u64 = 1_000_000_000;

} // verus!
