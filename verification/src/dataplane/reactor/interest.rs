//! Which events a descriptor is watched for.

use crate::sys::reactor::{ERROR, READABLE, READ_HANGUP, WRITABLE};
use vstd::prelude::*;

verus! {

/// What every upstream socket is watched for.
pub open spec fn base_interest() -> u32 {
    READABLE | ERROR | READ_HANGUP
}

/// Level-triggered `EPOLLOUT` on an idle socket wakes the reactor on every
/// `epoll_wait`, so writable interest is armed only while a writable event
/// can make progress: a pending nonblocking connect, unflushed proxy
/// handshake output, or queued payload waiting for send-buffer space.
/// Upstream ACK progress never arms writable interest: a TCP socket is
/// writable almost permanently, so polling it busy-loops the reactor.
pub open spec fn interest(
    connect_pending: bool,
    handshake_output_pending: bool,
    queued_payload: bool,
) -> u32 {
    if connect_pending || handshake_output_pending || queued_payload {
        base_interest() | WRITABLE
    } else {
        base_interest()
    }
}

#[must_use]
pub fn socket_interest(
    connect_pending: bool,
    handshake_output_pending: bool,
    queued_payload: bool,
) -> (events: u32)
    ensures
        events == interest(connect_pending, handshake_output_pending, queued_payload),
{
    let base: u32 = READABLE | ERROR | READ_HANGUP;
    if connect_pending || handshake_output_pending || queued_payload {
        base | WRITABLE
    } else {
        base
    }
}

/// What the TAP device is watched for: input while there are frames to answer
/// with, and room while frames wait. Nothing at all would be a standstill.
pub open spec fn tap_interest_bits(frames_available: nat, frames_queued: nat) -> u32 {
    (if frames_available > 0 {
        READABLE
    } else {
        0
    }) | (if frames_queued > 0 {
        WRITABLE
    } else {
        0
    })
}

/// The events that the TAP device is watched for, or `None` at a standstill.
#[must_use]
pub fn tap_interest(frames_available: usize, frames_queued: usize) -> (events: Option<u32>)
    ensures
        match events {
            Some(bits) => {
                &&& frames_available > 0 || frames_queued > 0
                &&& bits == tap_interest_bits(frames_available as nat, frames_queued as nat)
            },
            None => frames_available == 0 && frames_queued == 0,
        },
{
    if frames_available == 0 && frames_queued == 0 {
        return None;
    }
    let read: u32 = if frames_available > 0 {
        READABLE
    } else {
        0
    };
    let write: u32 = if frames_queued > 0 {
        WRITABLE
    } else {
        0
    };
    Some(read | write)
}

/// A socket is always watched for input, errors and the end of input, and for
/// room exactly while something waits for it.
pub proof fn law_interest_bits(
    connect_pending: bool,
    handshake_output_pending: bool,
    queued_payload: bool,
)
    ensures
        ({
            let events = interest(connect_pending, handshake_output_pending, queued_payload);
            &&& events & READABLE != 0
            &&& events & ERROR != 0
            &&& events & READ_HANGUP != 0
            &&& (events & WRITABLE != 0) == (connect_pending || handshake_output_pending
                || queued_payload)
        }),
{
    assert({
        let base = READABLE | ERROR | READ_HANGUP;
        &&& base & READABLE != 0
        &&& base & ERROR != 0
        &&& base & READ_HANGUP != 0
        &&& base & WRITABLE == 0
        &&& (base | WRITABLE) & READABLE != 0
        &&& (base | WRITABLE) & ERROR != 0
        &&& (base | WRITABLE) & READ_HANGUP != 0
        &&& (base | WRITABLE) & WRITABLE != 0
    }) by (bit_vector);
}

/// The TAP device is watched for input exactly while there are frames to answer
/// with, and for room exactly while frames wait.
pub proof fn law_tap_is_watched_while_it_can_be_served(available: nat, queued: nat)
    ensures
        tap_interest_bits(available, queued) == if available > 0 && queued > 0 {
            5int
        } else if available > 0 {
            1
        } else if queued > 0 {
            4
        } else {
            0
        },
{
    assert(1u32 | 4u32 == 5u32 && 1u32 | 0u32 == 1u32 && 0u32 | 4u32 == 4u32 && 0u32 | 0u32 == 0u32)
        by (bit_vector);
}

} // verus!
