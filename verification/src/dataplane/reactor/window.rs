//! The window that is offered to the namespace, and the frames of a flow.

use super::entry::FlowEntry;
use super::frame::{Error, TcpFrameSpec};
use super::ledger::Ledger;
use super::metrics::{Metrics, count, counted, less};
use crate::packet::tcp::TcpFlags;
use crate::tcp_adapter::flow::{FlowState, SendPlan, State, min, scaled_window};
use crate::tcp_adapter::sequence::advanced;
use vstd::prelude::*;

verus! {

/// The bytes that the upstream socket still takes. The kernel reports a send
/// buffer doubled to cover its bookkeeping, so half of it is usable; what was
/// submitted and is not acknowledged occupies it.
pub open spec fn socket_room(entry: FlowEntry) -> int {
    less(
        entry.socket_send_buffer_bytes as int / 2,
        entry.flow@.upstream_submitted - entry.flow@.upstream_acked,
    )
}

/// The window for the namespace: no more than the upstream socket takes, than
/// may wait for it, alone and together with all other flows, and than a window
/// field can express. Under pressure it is closed.
///
/// The upstream peer's receive window is not part of this bound. When it
/// collapses, the send buffer backs up and the first bound shrinks; bounding by
/// it as well could pin the window below one segment while the socket buffer is
/// empty, with no event left to reopen it.
pub open spec fn offered(entry: FlowEntry, ledger: Ledger) -> int {
    min(
        min(
            socket_room(entry),
            entry.pending_socket.bound() - entry.pending_socket.waiting().len(),
        ),
        min(
            if ledger.pressured {
                0
            } else {
                ledger.max_pending - ledger.pending
            },
            scaled_window(0xffff, entry.flow@.local_window_shift) as int,
        ),
    )
}

/// Offers the namespace the window that there is room for, and tells whether it
/// changed.
pub fn update_namespace_window(entry: &mut FlowEntry, ledger: &Ledger) -> (changed: bool)
    requires
        old(entry).wf(),
        ledger.wf(),
    ensures
        final(entry).wf(),
        *final(entry) == (FlowEntry { flow: final(entry).flow, ..*old(entry) }),
        final(entry).flow@ == (FlowState {
            advertised_window: offered(*old(entry), *ledger) as u32,
            ..old(entry).flow@
        }),
        changed == (old(entry).flow@.advertised_window != offered(*old(entry), *ledger)),
        0 <= offered(*old(entry), *ledger) <= u32::MAX,
{
    let half: usize = entry.socket_send_buffer_bytes / 2;
    let unacked: u64 = entry.flow.upstream_unacked();
    let socket_available: usize = if unacked >= half as u64 {
        0
    } else {
        half - unacked as usize
    };
    let queue_available: usize = entry.pending_socket.remaining();
    let global_available: usize = if ledger.pressured {
        0
    } else {
        ledger.max_pending.saturating_sub(ledger.pending)
    };
    let ack_window: u32 = entry.flow.max_advertised_window();
    let mut available: usize = if socket_available <= queue_available {
        socket_available
    } else {
        queue_available
    };
    if global_available < available {
        available = global_available;
    }
    let window: u32 = if available as u64 > ack_window as u64 {
        ack_window
    } else {
        available as u32
    };
    entry.flow.set_advertised_window(window)
}

/// What an upstream acknowledgment came to.
#[derive(Clone, Copy, Debug, PartialEq, Eq, Structural)]
pub struct AckRefresh {
    /// Whether more bytes are acknowledged than before.
    pub advanced: bool,
    /// Whether the namespace is to be told.
    pub send_ack: bool,
}

/// Takes the upstream socket's acknowledged byte count and offers the namespace
/// a new window.
pub fn refresh_upstream_ack(entry: &mut FlowEntry, ledger: &Ledger, bytes_acked: u64) -> (
    refresh: AckRefresh)
    requires
        old(entry).wf(),
        ledger.wf(),
    ensures
        final(entry).wf(),
        *final(entry) == (FlowEntry { flow: final(entry).flow, ..*old(entry) }),
        ({
            let before = old(entry).flow@;
            let heard = before.upstream_acknowledged(bytes_acked);
            let window = final(entry).flow@.advertised_window;
            &&& refresh.advanced == (before.covered(bytes_acked) > before.upstream_acked)
            &&& final(entry).flow@ == (FlowState { advertised_window: window, ..heard })
            &&& window == min(
                min(
                    less(
                        old(entry).socket_send_buffer_bytes as int / 2,
                        heard.upstream_submitted - heard.upstream_acked,
                    ),
                    old(entry).pending_socket.bound() - old(entry).pending_socket.waiting().len(),
                ),
                min(
                    if ledger.pressured {
                        0
                    } else {
                        ledger.max_pending - ledger.pending
                    },
                    scaled_window(0xffff, heard.local_window_shift) as int,
                ),
            )
            &&& refresh.send_ack == (refresh.advanced || window != before.advertised_window)
        }),
{
    let advanced = entry.flow.record_upstream_ack(bytes_acked);
    let changed = update_namespace_window(entry, ledger);
    AckRefresh { advanced, send_ack: advanced || changed }
}

/// What is done about a flow after the pressure changed.
#[derive(Clone, Copy, Debug, PartialEq, Eq, Structural)]
pub enum PressureStep {
    Nothing,
    /// The namespace is told of the new window.
    Acknowledge,
    /// There is no frame to tell it in, so this is done later.
    Later,
}

/// Whether the flows are to be told of a change of the pressure, once.
pub fn take_pressure_change(ledger: &mut Ledger) -> (changed: bool)
    requires
        old(ledger).wf(),
    ensures
        final(ledger).wf(),
        changed == old(ledger).pressure_changed,
        *final(ledger) == (Ledger { pressure_changed: false, ..*old(ledger) }),
{
    let changed = ledger.pressure_changed;
    ledger.pressure_changed = false;
    changed
}

/// Gives a flow the window that the pressure leaves it.
pub fn apply_pressure(entry: &mut FlowEntry, ledger: &mut Ledger, frames_available: usize) -> (step:
    PressureStep)
    requires
        old(entry).wf(),
        old(ledger).wf(),
    ensures
        final(entry).wf(),
        final(ledger).wf(),
        ({
            let closed = old(entry).closed();
            let window = offered(*old(entry), *old(ledger));
            if closed || frames_available == 0 {
                &&& *final(entry) == *old(entry)
                &&& step == if closed {
                    PressureStep::Nothing
                } else {
                    PressureStep::Later
                }
                &&& *final(ledger) == if closed {
                    *old(ledger)
                } else {
                    Ledger {
                        pressure_changed: true,
                        metrics: Metrics {
                            frame_pool_exhaustions: counted(
                                old(ledger).metrics.frame_pool_exhaustions,
                            ),
                            ..old(ledger).metrics
                        },
                        ..*old(ledger)
                    }
                }
            } else {
                &&& *final(ledger) == *old(ledger)
                &&& *final(entry) == (FlowEntry { flow: final(entry).flow, ..*old(entry) })
                &&& final(entry).flow@ == (FlowState {
                    advertised_window: window as u32,
                    ..old(entry).flow@
                })
                &&& step == if window != old(entry).flow@.advertised_window {
                    PressureStep::Acknowledge
                } else {
                    PressureStep::Nothing
                }
            }
        }),
{
    if matches!(entry.flow.state(), State::Closed) {
        return PressureStep::Nothing;
    }
    if frames_available == 0 {
        ledger.metrics.frame_pool_exhaustions = count(ledger.metrics.frame_pool_exhaustions);
        ledger.pressure_changed = true;
        return PressureStep::Later;
    }
    if update_namespace_window(entry, ledger) {
        PressureStep::Acknowledge
    } else {
        PressureStep::Nothing
    }
}

/// The flow once the upstream connection is there.
pub open spec fn activated(entry: FlowEntry, ledger: Ledger, bytes_acked: u64) -> FlowState {
    FlowState {
        advertised_window: offered(entry, ledger) as u32,
        upstream_ack_baseline: bytes_acked,
        state: State::SynReceived,
        local_next: advanced(entry.flow@.local_initial, 1),
        ..entry.flow@
    }
}

/// The answer to the SYN of the namespace.
pub open spec fn syn_ack_plan(entry: FlowEntry) -> SendPlan {
    SendPlan {
        sequence: entry.flow@.local_initial,
        acknowledgment: entry.flow@.namespace_next,
        length: 0,
        syn: true,
        fin: false,
    }
}

/// Answers the namespace SYN, once the upstream connection is there.
pub fn activate_flow(entry: &mut FlowEntry, ledger: &Ledger, bytes_acked: u64) -> (plan: SendPlan)
    requires
        old(entry).wf(),
        ledger.wf(),
    ensures
        final(entry).wf(),
        *final(entry) == (FlowEntry { flow: final(entry).flow, ..*old(entry) }),
        final(entry).flow@ == activated(*old(entry), *ledger, bytes_acked),
        plan == syn_ack_plan(*old(entry)),
{
    let _ = update_namespace_window(entry, ledger);
    entry.flow.socket_connected(bytes_acked)
}

/// The acknowledgment that tells the namespace where the flow is.
#[must_use]
pub fn ack_plan(entry: &FlowEntry) -> (plan: SendPlan)
    ensures
        plan == (SendPlan {
            sequence: entry.flow@.local_next,
            acknowledgment: entry.flow@.namespace_acked,
            length: 0,
            syn: false,
            fin: false,
        }),
{
    SendPlan {
        sequence: entry.flow.local_next(),
        acknowledgment: entry.flow.namespace_ack(),
        length: 0,
        syn: false,
        fin: false,
    }
}

/// The frame of a flow for `plan`. A SYN announces the segment size, and the
/// window scale if there is one.
pub open spec fn flow_frame(
    entry: FlowEntry,
    plan: SendPlan,
    flags: TcpFlags,
    payload_len: usize,
) -> TcpFrameSpec {
    TcpFrameSpec {
        key: entry.construction.sides().unwrap().key(),
        plan,
        flags,
        mss: if flags.syn {
            Some(entry.flow@.mss)
        } else {
            None
        },
        window_scale: if flags.syn && entry.flow@.local_window_shift > 0 {
            Some(entry.flow@.local_window_shift)
        } else {
            None
        },
        window: entry.flow@.field(flags.syn),
        payload_len,
        gso_size: None,
    }
}

pub fn flow_frame_spec(
    entry: &FlowEntry,
    plan: SendPlan,
    flags: TcpFlags,
    payload_len: usize,
) -> (result: Result<TcpFrameSpec, Error>)
    ensures
        match result {
            Ok(spec) => {
                &&& entry.construction.sides() is Some
                &&& spec == flow_frame(*entry, plan, flags, payload_len)
            },
            Err(error) => {
                &&& entry.construction.sides() is None
                &&& error == Error::Invariant("inactive flow reached packet builder")
            },
        },
{
    let sides = match entry.construction.active_sides() {
        Some(sides) => sides,
        None => return Err(Error::Invariant("inactive flow reached packet builder")),
    };
    let shift: u8 = entry.flow.local_window_shift();
    Ok(
        TcpFrameSpec {
            key: sides.namespace_key(),
            plan,
            flags,
            mss: if flags.syn {
                Some(entry.flow.mss())
            } else {
                None
            },
            window_scale: if flags.syn && shift > 0 {
                Some(shift)
            } else {
                None
            },
            window: entry.flow.window_field(flags.syn),
            payload_len,
            gso_size: None,
        },
    )
}

/// The frame of a flow whose payload was read straight into it. Payloads beyond
/// one segment are cut by the kernel at the negotiated segment size.
pub open spec fn payload_frame(
    entry: FlowEntry,
    plan: SendPlan,
    flags: TcpFlags,
    payload_len: usize,
) -> TcpFrameSpec {
    TcpFrameSpec {
        key: entry.construction.sides().unwrap().key(),
        plan,
        flags,
        mss: None,
        window_scale: None,
        window: entry.flow@.field(false),
        payload_len,
        gso_size: Some(entry.flow@.mss),
    }
}

pub fn payload_frame_spec(
    entry: &FlowEntry,
    plan: SendPlan,
    flags: TcpFlags,
    payload_len: usize,
) -> (result: Result<TcpFrameSpec, Error>)
    ensures
        match result {
            Ok(spec) => {
                &&& entry.construction.sides() is Some
                &&& spec == payload_frame(*entry, plan, flags, payload_len)
            },
            Err(error) => {
                &&& entry.construction.sides() is None
                &&& error == Error::Invariant("inactive flow reached packet builder")
            },
        },
{
    let sides = match entry.construction.active_sides() {
        Some(sides) => sides,
        None => return Err(Error::Invariant("inactive flow reached packet builder")),
    };
    Ok(
        TcpFrameSpec {
            key: sides.namespace_key(),
            plan,
            flags,
            mss: None,
            window_scale: None,
            window: entry.flow.window_field(false),
            payload_len,
            gso_size: Some(entry.flow.mss()),
        },
    )
}

/// Under pressure the namespace may send nothing, and without it never more
/// than fits into what may wait: a segment inside the offered window is never
/// turned down for want of room.
pub proof fn law_window_is_backed(entry: FlowEntry, ledger: Ledger)
    requires
        ledger.wf(),
        entry.pending_socket.waiting().len() <= entry.pending_socket.bound(),
    ensures
        ledger.pressured ==> offered(entry, ledger) <= 0,
        offered(entry, ledger) <= entry.pending_socket.bound()
            - entry.pending_socket.waiting().len(),
        offered(entry, ledger) <= ledger.max_pending - ledger.pending,
{
}

/// The window for the namespace is the least of four: half of the upstream socket's
/// send buffer less what is under way in it, the room that the flow's own queue has,
/// the room that all queues have together, and the widest window that the field can
/// express. Under pressure it is zero.
pub proof fn law_window_is_the_least_bound(entry: FlowEntry, ledger: Ledger)
    requires
        entry.flow@.local_window_shift <= 14,
        entry.flow@.upstream_acked <= entry.flow@.upstream_submitted,
        entry.pending_socket.waiting().len() <= entry.pending_socket.bound(),
        ledger.pending <= ledger.max_pending,
    ensures
        ({
            let window = offered(entry, ledger);
            let under_way = entry.flow@.upstream_submitted - entry.flow@.upstream_acked;
            let socket = if entry.socket_send_buffer_bytes / 2 >= under_way {
                entry.socket_send_buffer_bytes / 2 - under_way
            } else {
                0
            };
            let queue = entry.pending_socket.bound() - entry.pending_socket.waiting().len();
            let all = ledger.max_pending - ledger.pending;
            let field = 0xffff * vstd::arithmetic::power2::pow2(
                entry.flow@.local_window_shift as nat,
            );
            &&& ledger.pressured ==> window == 0
            &&& !ledger.pressured ==> {
                &&& 0 <= window
                &&& window <= socket && window <= queue && window <= all && window <= field
                &&& window == socket || window == queue || window == all || window == field
            }
        }),
{
    lemma_widest(entry.flow@.local_window_shift);
}

proof fn lemma_widest(shift: u8)
    requires
        shift <= 14,
    ensures
        scaled_window(0xffff, shift) == 0xffff * vstd::arithmetic::power2::pow2(shift as nat),
{
    let by = shift as u32;
    vstd::arithmetic::power2::lemma2_to64();
    vstd::arithmetic::power2::lemma_pow2_strictly_increases(shift as nat, 15);
    vstd::bits::lemma_u32_shl_is_mul(0xffff, by);
}

/// Once the upstream connection is there, the SYN of the namespace is answered by a
/// SYN of the data plane's own that acknowledges it, and the upstream counter is
/// read from where it stands then.
pub proof fn law_connected_flow_answers_the_syn(
    entry: FlowEntry,
    ledger: Ledger,
    bytes_acked: u64,
)
    ensures
        ({
            let flow = activated(entry, ledger, bytes_acked);
            let plan = syn_ack_plan(entry);
            &&& flow.state == State::SynReceived
            &&& flow.local_next == (entry.flow@.local_initial + 1) % 0x1_0000_0000
            &&& flow.upstream_ack_baseline == bytes_acked
            &&& flow.namespace_next == entry.flow@.namespace_next
            &&& plan.syn && !plan.fin && plan.length == 0
            &&& plan.sequence == entry.flow@.local_initial
            &&& plan.acknowledgment == entry.flow@.namespace_next
        }),
{
}

/// A frame of a flow goes from the target to the namespace and carries the plan that
/// it was made for. Only a SYN announces a segment size and a window scale.
pub proof fn law_flow_frame_follows_its_plan(
    entry: FlowEntry,
    plan: SendPlan,
    flags: TcpFlags,
    payload_len: usize,
)
    requires
        entry.construction.sides() is Some,
    ensures
        ({
            let frame = flow_frame(entry, plan, flags, payload_len);
            let read = payload_frame(entry, plan, flags, payload_len);
            let sides = entry.construction.sides().unwrap();
            &&& frame.plan == plan && read.plan == plan
            &&& frame.flags == flags && read.flags == flags
            &&& frame.payload_len == payload_len && read.payload_len == payload_len
            &&& frame.key.namespace == sides.initiating.logical_peer
            &&& frame.key.target == sides.initiating.local_endpoint
            &&& read.key == frame.key
            &&& flags.syn ==> frame.mss == Some(entry.flow@.mss)
            &&& !flags.syn ==> frame.mss is None && frame.window_scale is None
            &&& flags.syn && entry.flow@.local_window_shift > 0 ==> frame.window_scale == Some(
                entry.flow@.local_window_shift,
            )
            &&& flags.syn && entry.flow@.local_window_shift == 0 ==> frame.window_scale is None
            &&& frame.window == entry.flow@.field(flags.syn)
            &&& read.window == entry.flow@.field(false)
            &&& read.mss is None && read.window_scale is None
            &&& frame.gso_size is None
            &&& read.gso_size == Some(entry.flow@.mss)
        }),
{
}

/// Half of the send buffer is usable, less what was submitted and is not yet
/// acknowledged, and never less than nothing.
pub proof fn law_socket_room_is_what_the_buffer_leaves(entry: FlowEntry)
    requires
        entry.flow@.upstream_acked <= entry.flow@.upstream_submitted,
    ensures
        ({
            let usable = entry.socket_send_buffer_bytes as int / 2;
            let outstanding = entry.flow@.upstream_submitted - entry.flow@.upstream_acked;
            &&& outstanding <= usable ==> socket_room(entry) == usable - outstanding
            &&& outstanding > usable ==> socket_room(entry) == 0
        }),
{
}

} // verus!
