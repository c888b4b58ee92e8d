//! One TCP flow of the data plane, and what segments and socket events do to
//! it.

use super::admission::Negotiated;
use super::frame::Error;
use super::interest::{interest, socket_interest};
use super::ledger::Ledger;
use super::metrics::{Metrics, count, counted, larger, less, max};
use super::probe::{ZERO_WINDOW_PROBE_INITIAL, ZeroWindowProbe};
use super::proxy::SendOutcome;
use super::queue::PendingSocketQueue;
use super::segment::{SentSegment, acknowledge_sent, acknowledged, all_wf};
use crate::proxy_proto::Handshake;
use crate::tcp_adapter::flow::{
    ConstructionState, Flow, FlowConstruction, FlowInterface, FlowKey, FlowSide, FlowState,
    FlowType, ReceiveDisposition, State, min,
};
use crate::time::Instant;
use std::collections::VecDeque;
use vstd::prelude::*;

verus! {

/// The bytes that one flow may hold back for its upstream socket.
pub const MAX_PENDING_SOCKET_BYTES: usize = 262_144;

pub struct FlowEntry {
    pub flow: Flow,
    pub construction: FlowConstruction,
    pub transport_connected: bool,
    pub armed_socket_interest: u32,
    pub handshake: Option<Handshake>,
    pub pending_socket: PendingSocketQueue,
    pub pending_shutdown: bool,
    pub sent_segments: VecDeque<SentSegment>,
    pub upstream_window_clamp: Option<u32>,
    pub zero_window_probe: Option<ZeroWindowProbe>,
    pub last_namespace_byte: Option<u8>,
    pub socket_receive_buffer_bytes: usize,
    pub socket_send_buffer_bytes: usize,
}

/// The two sides of a new flow.
pub open spec fn initiating_side(key: FlowKey) -> FlowSide {
    FlowSide {
        interface: FlowInterface::NamespaceTap,
        local_endpoint: key.target,
        logical_peer: key.namespace,
        transport_peer: key.namespace,
    }
}

impl FlowEntry {
    /// What holds of every flow: its segments can be counted, and its handshake
    /// is in order.
    pub open spec fn wf(&self) -> bool {
        &&& all_wf(self.sent_segments@)
        &&& self.handshake is Some ==> self.handshake.unwrap().wf()
    }

    /// Whether the flow was closed and only waits to be removed.
    pub open spec fn closed(&self) -> bool {
        self.flow@.state == State::Closed
    }

    /// The events that the upstream socket is to be watched for.
    pub open spec fn wanted_interest(&self) -> u32 {
        interest(
            !self.transport_connected,
            self.handshake is Some && self.handshake.unwrap()@.output.len() > 0,
            self.pending_socket.waiting().len() > 0,
        )
    }

    /// A new flow for a namespace SYN, while its upstream socket connects.
    pub fn open(
        key: FlowKey,
        target_side: FlowSide,
        namespace_initial: u32,
        local_initial: u32,
        negotiated: Negotiated,
        handshake: Option<Handshake>,
        socket_receive_buffer_bytes: usize,
        socket_send_buffer_bytes: usize,
    ) -> (entry: FlowEntry)
        requires
            negotiated.peer_window_shift <= 14,
            negotiated.local_window_shift <= 14,
            handshake is Some ==> handshake.unwrap().wf(),
        ensures
            entry.wf(),
            entry.flow@ == FlowState::start(
                namespace_initial,
                local_initial,
                negotiated.mss,
                negotiated.peer_window_shift,
                negotiated.local_window_shift,
            ),
            entry.construction@ == (
                ConstructionState::Typed,
                Some(initiating_side(key)),
                Some(target_side),
            ),
            !entry.transport_connected,
            entry.armed_socket_interest == interest(true, false, false),
            entry.handshake == handshake,
            entry.pending_socket.waiting().len() == 0,
            entry.pending_socket.bound() == MAX_PENDING_SOCKET_BYTES,
            !entry.pending_shutdown,
            entry.sent_segments@.len() == 0,
            entry.upstream_window_clamp is None,
            entry.zero_window_probe is None,
            entry.last_namespace_byte is None,
            entry.socket_receive_buffer_bytes == socket_receive_buffer_bytes,
            entry.socket_send_buffer_bytes == socket_send_buffer_bytes,
    {
        let mut construction = FlowConstruction::new();
        let _ = construction.set_initiating(
            FlowSide {
                interface: FlowInterface::NamespaceTap,
                local_endpoint: key.target,
                logical_peer: key.namespace,
                transport_peer: key.namespace,
            },
        );
        let _ = construction.set_target(target_side);
        let _ = construction.set_type(FlowType::Tcp);
        FlowEntry {
            flow: Flow::with_window_scaling(
                namespace_initial,
                local_initial,
                negotiated.mss,
                negotiated.peer_window_shift,
                negotiated.local_window_shift,
            ),
            construction,
            transport_connected: false,
            armed_socket_interest: socket_interest(true, false, false),
            handshake,
            pending_socket: PendingSocketQueue::new(MAX_PENDING_SOCKET_BYTES),
            pending_shutdown: false,
            sent_segments: VecDeque::new(),
            upstream_window_clamp: None,
            zero_window_probe: None,
            last_namespace_byte: None,
            socket_receive_buffer_bytes,
            socket_send_buffer_bytes,
        }
    }

    /// The events that the upstream socket is to be watched for.
    #[must_use]
    pub fn desired_socket_interest(&self) -> (events: u32)
        requires
            self.wf(),
        ensures
            events == self.wanted_interest(),
    {
        let output_pending = match &self.handshake {
            Some(handshake) => handshake.output().len() > 0,
            None => false,
        };
        socket_interest(
            !self.transport_connected,
            output_pending,
            !self.pending_socket.is_empty(),
        )
    }

    /// The events to rearm the upstream socket for, if they changed.
    pub fn update_socket_interest(&mut self) -> (rearm: Option<u32>)
        requires
            old(self).wf(),
        ensures
            final(self).wf(),
            match rearm {
                Some(events) => {
                    &&& !old(self).closed()
                    &&& events == old(self).wanted_interest()
                    &&& events != old(self).armed_socket_interest
                    &&& *final(self) == (FlowEntry {
                        armed_socket_interest: events,
                        ..*old(self)
                    })
                },
                None => {
                    &&& old(self).closed() || old(self).wanted_interest()
                        == old(self).armed_socket_interest
                    &&& *final(self) == *old(self)
                },
            },
    {
        if matches!(self.flow.state(), State::Closed) {
            return None;
        }
        let desired: u32 = self.desired_socket_interest();
        if desired == self.armed_socket_interest {
            return None;
        }
        self.armed_socket_interest = desired;
        Some(desired)
    }
}

/// What is done first with a segment of a known flow.
#[derive(Clone, Copy, Debug, PartialEq, Eq, Structural)]
pub enum SynAction {
    /// The upstream connection is still being made: the SYN waits for it.
    Wait,
    /// The SYN-ACK was lost: it is sent once more.
    RetransmitOldest,
    /// The segment is received.
    Receive,
}

pub open spec fn syn_action_of(state: State, syn: bool, ack: bool) -> SynAction {
    if syn && !ack && state == State::Connecting {
        SynAction::Wait
    } else if syn && !ack && state == State::SynReceived {
        SynAction::RetransmitOldest
    } else {
        SynAction::Receive
    }
}

#[must_use]
pub fn syn_action(state: State, syn: bool, ack: bool) -> (action: SynAction)
    ensures
        action == syn_action_of(state, syn, ack),
{
    if syn && !ack {
        if state == State::Connecting {
            return SynAction::Wait;
        }
        if state == State::SynReceived {
            return SynAction::RetransmitOldest;
        }
    }
    SynAction::Receive
}

/// Whether the peer of the flow is asked for its window from time to time.
pub open spec fn probes(flow: FlowState) -> bool {
    flow.peer_window == 0 && (flow.state == State::Established || flow.state
        == State::NamespaceFinReceived)
}

/// The probe of a flow after its window or state may have changed.
pub open spec fn probe_after(
    probe: Option<ZeroWindowProbe>,
    flow: FlowState,
    now: Instant,
) -> Option<ZeroWindowProbe> {
    if !probes(flow) {
        None
    } else if probe is Some {
        probe
    } else {
        Some(ZeroWindowProbe::start(now))
    }
}

/// The counters after a probe was started or given up.
pub open spec fn probe_metrics(
    metrics: Metrics,
    before: Option<ZeroWindowProbe>,
    after: Option<ZeroWindowProbe>,
) -> Metrics {
    if before is None && after is Some {
        let flows = counted(metrics.zero_window_flows);
        Metrics {
            zero_window_events: counted(metrics.zero_window_events),
            zero_window_flows: flows,
            peak_zero_window_flows: larger(metrics.peak_zero_window_flows, flows),
            ..metrics
        }
    } else if before is Some && after is None {
        Metrics { zero_window_flows: less(metrics.zero_window_flows as int, 1) as u64, ..metrics }
    } else {
        metrics
    }
}

/// Starts or ends the probing of the peer, as its window asks for it.
pub fn refresh_zero_window_probe(entry: &mut FlowEntry, metrics: &mut Metrics, now: Instant)
    requires
        old(entry).wf(),
        now + ZERO_WINDOW_PROBE_INITIAL <= u64::MAX,
    ensures
        final(entry).wf(),
        *final(entry) == (FlowEntry {
            zero_window_probe: probe_after(old(entry).zero_window_probe, old(entry).flow@, now),
            ..*old(entry)
        }),
        *final(metrics) == probe_metrics(
            *old(metrics),
            old(entry).zero_window_probe,
            final(entry).zero_window_probe,
        ),
{
    let should_probe = entry.flow.peer_window() == 0 && matches!(
        entry.flow.state(),
        State::Established | State::NamespaceFinReceived
    );
    if should_probe && entry.zero_window_probe.is_none() {
        entry.zero_window_probe = Some(ZeroWindowProbe::new(now));
        metrics.zero_window_events = count(metrics.zero_window_events);
        metrics.zero_window_flows = count(metrics.zero_window_flows);
        metrics.peak_zero_window_flows =
        max(metrics.peak_zero_window_flows, metrics.zero_window_flows);
    } else if !should_probe && entry.zero_window_probe.is_some() {
        entry.zero_window_probe = None;
        metrics.zero_window_flows = metrics.zero_window_flows.saturating_sub(1);
    }
}

/// The window that the upstream socket is clamped to: at least one, because
/// zero would lift the clamp.
pub open spec fn clamp_for(window: u32) -> u32 {
    if window == 0 {
        1
    } else {
        window
    }
}

/// The clamp to set on the upstream socket, if the peer's window changed.
pub fn refresh_window_clamp(entry: &mut FlowEntry) -> (clamp: Option<u32>)
    requires
        old(entry).wf(),
    ensures
        final(entry).wf(),
        *final(entry) == (FlowEntry {
            upstream_window_clamp: Some(old(entry).flow@.peer_window),
            ..*old(entry)
        }),
        clamp == if old(entry).upstream_window_clamp == Some(old(entry).flow@.peer_window) {
            None
        } else {
            Some(clamp_for(old(entry).flow@.peer_window))
        },
{
    let window: u32 = entry.flow.peer_window();
    if let Some(previous) = entry.upstream_window_clamp {
        if previous == window {
            return None;
        }
    }
    entry.upstream_window_clamp = Some(window);
    if window == 0 {
        Some(1)
    } else {
        Some(window)
    }
}

/// What a segment of a known flow asks to be done, in this order: clamp the
/// upstream socket, drop `discard` acknowledged octets from it, and react.
#[derive(Clone, Copy, Debug, PartialEq, Eq, Structural)]
pub struct SegmentPlan {
    pub disposition: ReceiveDisposition,
    pub clamp: Option<u32>,
    pub discard: usize,
    pub acknowledged: bool,
}

/// The fields of a segment that a flow looks at.
#[derive(Clone, Copy, Debug, PartialEq, Eq, Structural)]
pub struct SegmentFields {
    pub sequence: u32,
    pub acknowledgment: Option<u32>,
    pub window: u16,
    pub payload_len: usize,
    pub fin: bool,
    pub rst: bool,
}

pub open spec fn received(flow: FlowState, fields: SegmentFields) -> (
    FlowState,
    ReceiveDisposition,
) {
    flow.received(
        fields.sequence,
        fields.acknowledgment,
        fields.window,
        fields.payload_len,
        fields.fin,
        fields.rst,
    )
}

/// What a segment changes of its flow and the counters, and what it asks for. A
/// reset changes the state of the flow alone.
pub open spec fn segment_taken(
    before: (FlowEntry, Metrics),
    after: (FlowEntry, Metrics),
    plan: SegmentPlan,
    fields: SegmentFields,
    now: Instant,
) -> bool {
    let outcome = received(before.0.flow@, fields);
    &&& plan.disposition == outcome.1
    &&& after.0.flow@ == outcome.0
    &&& outcome.1 is Reset ==> {
        &&& after.0 == (FlowEntry { flow: after.0.flow, ..before.0 })
        &&& after.1 == before.1
        &&& plan.clamp is None
        &&& plan.discard == 0
        &&& !plan.acknowledged
    }
    &&& !(outcome.1 is Reset) ==> {
        &&& after.0 == (FlowEntry {
            flow: after.0.flow,
            upstream_window_clamp: Some(outcome.0.peer_window),
            zero_window_probe: probe_after(before.0.zero_window_probe, outcome.0, now),
            ..before.0
        })
        &&& after.1 == probe_metrics(
            before.1,
            before.0.zero_window_probe,
            after.0.zero_window_probe,
        )
        &&& plan.clamp == if before.0.upstream_window_clamp == Some(outcome.0.peer_window) {
            None
        } else {
            Some(clamp_for(outcome.0.peer_window))
        }
        &&& plan.acknowledged == (outcome.0.local_unacked != before.0.flow@.local_unacked)
        &&& plan.discard == if plan.acknowledged {
            outcome.0.newly_acked(before.0.flow@.local_unacked)
        } else {
            0
        }
    }
}

/// Takes a segment of a known flow: its window, its acknowledgment and its
/// place in the sequence.
pub fn receive_segment(
    entry: &mut FlowEntry,
    metrics: &mut Metrics,
    fields: SegmentFields,
    now: Instant,
) -> (plan: SegmentPlan)
    requires
        old(entry).wf(),
        now + ZERO_WINDOW_PROBE_INITIAL <= u64::MAX,
    ensures
        final(entry).wf(),
        segment_taken(
            (*old(entry), *old(metrics)),
            (*final(entry), *final(metrics)),
            plan,
            fields,
            now,
        ),
{
    let previous_ack: u32 = entry.flow.local_unacked();
    let disposition = entry.flow.receive(
        fields.sequence,
        fields.acknowledgment,
        fields.window,
        fields.payload_len,
        fields.fin,
        fields.rst,
    );
    if disposition == ReceiveDisposition::Reset {
        return SegmentPlan { disposition, clamp: None, discard: 0, acknowledged: false };
    }
    let clamp = refresh_window_clamp(entry);
    refresh_zero_window_probe(entry, metrics, now);
    let acknowledged = entry.flow.local_unacked() != previous_ack;
    let discard: usize = if acknowledged {
        entry.flow.newly_acked_payload(previous_ack)
    } else {
        0
    };
    SegmentPlan { disposition, clamp, discard, acknowledged }
}

/// What a segment of a known flow leads to.
#[derive(Clone, Copy, Debug, PartialEq, Eq, Structural)]
pub enum Arrival {
    /// Nothing is done.
    Ignore,
    /// The oldest segment is sent again.
    RetransmitOldest,
    /// The flow is closed.
    Close,
    /// The plan is carried out, and the segment reacted to.
    Settle(SegmentPlan),
}

/// Takes a segment of a known flow, a SYN with regard to how far the flow is.
pub fn accept_segment(
    entry: &mut FlowEntry,
    metrics: &mut Metrics,
    syn: bool,
    fields: SegmentFields,
    now: Instant,
) -> (arrival: Arrival)
    requires
        old(entry).wf(),
        now + ZERO_WINDOW_PROBE_INITIAL <= u64::MAX,
    ensures
        final(entry).wf(),
        ({
            let before = (*old(entry), *old(metrics));
            let after = (*final(entry), *final(metrics));
            let first = syn_action_of(
                old(entry).flow@.state,
                syn,
                fields.acknowledgment is Some,
            );
            match arrival {
                Arrival::Ignore => first == SynAction::Wait && after == before,
                Arrival::RetransmitOldest => {
                    first == SynAction::RetransmitOldest && after == before
                },
                Arrival::Close => {
                    &&& first == SynAction::Receive
                    &&& received(old(entry).flow@, fields).1 is Reset
                    &&& segment_taken(before, after, reset_plan(), fields, now)
                },
                Arrival::Settle(plan) => {
                    &&& first == SynAction::Receive
                    &&& !(received(old(entry).flow@, fields).1 is Reset)
                    &&& segment_taken(before, after, plan, fields, now)
                },
            }
        }),
{
    match syn_action(entry.flow.state(), syn, fields.acknowledgment.is_some()) {
        SynAction::Wait => Arrival::Ignore,
        SynAction::RetransmitOldest => Arrival::RetransmitOldest,
        SynAction::Receive => {
            let plan = receive_segment(entry, metrics, fields, now);
            if plan.disposition == ReceiveDisposition::Reset {
                Arrival::Close
            } else {
                Arrival::Settle(plan)
            }
        },
    }
}

/// What a reset asks for: nothing but the end of the flow.
pub open spec fn reset_plan() -> SegmentPlan {
    SegmentPlan {
        disposition: ReceiveDisposition::Reset,
        clamp: None,
        discard: 0,
        acknowledged: false,
    }
}

/// Settles an acknowledgment once its octets were dropped from the upstream
/// socket: the bytes are no longer held, and the segments that carried them are
/// trimmed.
pub fn settle_acknowledgment(
    entry: &mut FlowEntry,
    ledger: &mut Ledger,
    plan: SegmentPlan,
    discarded: usize,
) -> (result: Result<(), Error>)
    requires
        old(entry).wf(),
        old(ledger).wf(),
    ensures
        final(entry).wf(),
        final(ledger).wf(),
        match result {
            Ok(()) => {
                &&& discarded == plan.discard
                &&& *final(ledger) == if plan.discard > 0 {
                    old(ledger).released(plan.discard as int)
                } else {
                    *old(ledger)
                }
                &&& *final(entry) == (FlowEntry {
                    sent_segments: final(entry).sent_segments,
                    ..*old(entry)
                })
                &&& final(entry).sent_segments@ == if plan.acknowledged {
                    acknowledged(old(entry).sent_segments@, old(entry).flow@.local_unacked)
                } else {
                    old(entry).sent_segments@
                }
            },
            Err(error) => {
                &&& discarded != plan.discard
                &&& error == Error::Invariant("socket ACK consume length mismatch")
                &&& *final(entry) == *old(entry)
                &&& *final(ledger) == *old(ledger)
            },
        },
{
    if discarded != plan.discard {
        return Err(Error::Invariant("socket ACK consume length mismatch"));
    }
    if plan.discard > 0 {
        ledger.release_retained_bytes(plan.discard);
    }
    if plan.acknowledged {
        let current_ack: u32 = entry.flow.local_unacked();
        acknowledge_sent(&mut entry.sent_segments, current_ack);
    }
    Ok(())
}

/// What follows from the place of a segment in the sequence.
#[derive(Clone, Copy, Debug, PartialEq, Eq, Structural)]
pub enum Reaction {
    /// Its payload goes upstream, and its FIN if it has one.
    Deliver { payload: bool, fin: bool },
    /// The namespace is told again where the flow is.
    Acknowledge,
    /// The flow is closed.
    Close,
}

pub open spec fn reaction_of(disposition: ReceiveDisposition) -> Reaction {
    match disposition {
        ReceiveDisposition::InOrder { payload_len, fin } => Reaction::Deliver {
            payload: payload_len > 0,
            fin,
        },
        ReceiveDisposition::Duplicate | ReceiveDisposition::OutOfOrder
        | ReceiveDisposition::OutsideWindow => Reaction::Acknowledge,
        ReceiveDisposition::Invalid | ReceiveDisposition::Reset => Reaction::Close,
    }
}

#[must_use]
pub fn reaction(disposition: ReceiveDisposition) -> (reaction: Reaction)
    ensures
        reaction == reaction_of(disposition),
{
    match disposition {
        ReceiveDisposition::InOrder { payload_len, fin } => Reaction::Deliver {
            payload: payload_len > 0,
            fin,
        },
        ReceiveDisposition::Duplicate | ReceiveDisposition::OutOfOrder
        | ReceiveDisposition::OutsideWindow => Reaction::Acknowledge,
        ReceiveDisposition::Invalid | ReceiveDisposition::Reset => Reaction::Close,
    }
}

/// Whether `length` more bytes may wait for the upstream socket of the flow.
pub open spec fn may_wait(entry: FlowEntry, ledger: Ledger, length: int) -> bool {
    &&& length <= entry.pending_socket.bound() - entry.pending_socket.waiting().len()
    &&& length <= ledger.max_pending - ledger.pending
}

/// Lets payload wait for the upstream socket, unless a limit is in the way: the
/// flow is then to be failed.
pub fn enqueue_pending_payload(entry: &mut FlowEntry, ledger: &mut Ledger, payload: &[u8]) -> (
    queued: bool)
    requires
        old(entry).wf(),
        old(ledger).wf(),
    ensures
        final(entry).wf(),
        final(ledger).wf(),
        queued == may_wait(*old(entry), *old(ledger), payload@.len() as int),
        *final(entry) == (FlowEntry {
            pending_socket: final(entry).pending_socket,
            ..*old(entry)
        }),
        final(entry).pending_socket.bound() == old(entry).pending_socket.bound(),
        final(entry).pending_socket.waiting() == if queued {
            old(entry).pending_socket.waiting() + payload@
        } else {
            old(entry).pending_socket.waiting()
        },
        *final(ledger) == if queued {
            old(ledger).enqueued(payload@.len() as int)
        } else {
            Ledger {
                metrics: Metrics {
                    pending_limit_hits: counted(old(ledger).metrics.pending_limit_hits),
                    ..old(ledger).metrics
                },
                ..*old(ledger)
            }
        },
{
    let flow_remaining: usize = entry.pending_socket.remaining();
    let global_remaining: usize = ledger.max_pending.saturating_sub(ledger.pending);
    if payload.len() > flow_remaining || payload.len() > global_remaining {
        ledger.metrics.pending_limit_hits = count(ledger.metrics.pending_limit_hits);
        return false;
    }
    let _ = entry.pending_socket.push(payload);
    ledger.note_enqueued(payload.len());
    true
}

/// The flow after `sent` octets of its payload went to the upstream socket.
pub fn note_submitted(entry: &mut FlowEntry, sent: usize)
    requires
        old(entry).wf(),
    ensures
        final(entry).wf(),
        *final(entry) == (FlowEntry { flow: final(entry).flow, ..*old(entry) }),
        final(entry).flow@ == old(entry).flow@.submitted(sent),
{
    entry.flow.record_upstream_submitted(sent);
}

/// How many octets the upstream socket took.
pub open spec fn taken_now(sent: Option<usize>) -> int {
    match sent {
        Some(taken) => taken as int,
        None => 0,
    }
}

/// What it comes to that the upstream socket took a part of `payload`: the rest
/// waits, unless a limit is in the way and the flow does not go on.
pub open spec fn payload_submitted(
    before: (FlowEntry, Ledger),
    after: (FlowEntry, Ledger),
    payload: Seq<u8>,
    sent: Option<usize>,
    going: bool,
) -> bool {
    let rest = payload.skip(taken_now(sent));
    let waits = rest.len() > 0 || sent is None;
    &&& after.0 == (FlowEntry {
        flow: after.0.flow,
        pending_socket: after.0.pending_socket,
        ..before.0
    })
    &&& after.0.flow@ == match sent {
        Some(taken) => before.0.flow@.submitted(taken),
        None => before.0.flow@,
    }
    &&& going == (!waits || may_wait(before.0, before.1, rest.len() as int))
    &&& after.0.pending_socket.bound() == before.0.pending_socket.bound()
    &&& after.0.pending_socket.waiting() == if going {
        before.0.pending_socket.waiting() + rest
    } else {
        before.0.pending_socket.waiting()
    }
    &&& after.1 == if !going {
        Ledger {
            metrics: Metrics {
                pending_limit_hits: counted(before.1.metrics.pending_limit_hits),
                ..before.1.metrics
            },
            ..before.1
        }
    } else if waits {
        before.1.enqueued(rest.len() as int)
    } else {
        before.1
    }
}

/// Takes note of how much of `payload` the upstream socket took; the rest
/// waits. Tells whether the flow goes on.
pub fn submit_namespace_payload(
    entry: &mut FlowEntry,
    ledger: &mut Ledger,
    payload: &[u8],
    sent: Option<usize>,
) -> (going: bool)
    requires
        old(entry).wf(),
        old(ledger).wf(),
        sent is Some ==> sent.unwrap() <= payload@.len(),
    ensures
        final(entry).wf(),
        final(ledger).wf(),
        payload_submitted(
            (*old(entry), *old(ledger)),
            (*final(entry), *final(ledger)),
            payload@,
            sent,
            going,
        ),
{
    match sent {
        Some(taken) => {
            note_submitted(entry, taken);
            if taken < payload.len() {
                let rest = vstd::slice::slice_subrange(payload, taken, payload.len());
                assert(rest@ =~= payload@.skip(taken as int));
                enqueue_pending_payload(entry, ledger, rest)
            } else {
                assert(payload@.skip(taken as int) =~= Seq::<u8>::empty());
                assert(entry.pending_socket.waiting() + payload@.skip(taken as int)
                    =~= entry.pending_socket.waiting());
                true
            }
        },
        None => {
            assert(payload@.skip(0) =~= payload@);
            enqueue_pending_payload(entry, ledger, payload)
        },
    }
}

/// Takes the namespace FIN once the payload in front of it is under way: the
/// upstream socket is shut down at once if nothing waits, otherwise later.
/// Tells whether to shut it down now.
pub fn take_namespace_fin(entry: &mut FlowEntry) -> (shutdown: bool)
    requires
        old(entry).wf(),
    ensures
        final(entry).wf(),
        shutdown == (old(entry).pending_socket.waiting().len() == 0),
        *final(entry) == (FlowEntry {
            pending_shutdown: old(entry).pending_shutdown || !shutdown,
            ..*old(entry)
        }),
{
    if entry.pending_socket.is_empty() {
        true
    } else {
        entry.pending_shutdown = true;
        false
    }
}

/// How many octets a send of `sent` takes from the first piece that waits.
pub open spec fn taken_first(queue: PendingSocketQueue, sent: usize) -> int {
    if queue.chunks().len() == 0 {
        0
    } else {
        min(sent as int, queue.chunks()[0]@.len() as int)
    }
}

/// Takes note that the upstream socket took `sent` octets of the first waiting
/// piece.
pub fn consume_pending_payload(entry: &mut FlowEntry, ledger: &mut Ledger, sent: usize) -> (
    consumed: usize)
    requires
        old(entry).wf(),
        old(ledger).wf(),
    ensures
        final(entry).wf(),
        final(ledger).wf(),
        consumed == taken_first(old(entry).pending_socket, sent),
        consumed <= old(entry).pending_socket.waiting().len(),
        *final(entry) == (FlowEntry {
            flow: final(entry).flow,
            pending_socket: final(entry).pending_socket,
            ..*old(entry)
        }),
        final(entry).flow@ == old(entry).flow@.submitted(sent),
        final(entry).pending_socket.bound() == old(entry).pending_socket.bound(),
        final(entry).pending_socket.waiting() == old(entry).pending_socket.waiting().skip(
            consumed as int,
        ),
        *final(ledger) == old(ledger).consumed(consumed as int),
{
    let consumed: usize = entry.pending_socket.consume(sent);
    ledger.note_consumed(consumed);
    note_submitted(entry, sent);
    consumed
}

/// What follows from a send of payload that waited.
#[derive(Clone, Copy, Debug, PartialEq, Eq, Structural)]
pub enum FlushStep {
    /// The socket is tried again when it is writable.
    Stop,
    /// A socket that took nothing is out of order.
    Broken,
    Failed,
}

/// What a send of the first waiting piece comes to.
pub open spec fn queue_flushed(
    before: (FlowEntry, Ledger),
    after: (FlowEntry, Ledger),
    outcome: SendOutcome,
    step: FlushStep,
) -> bool {
    match outcome {
        SendOutcome::Sent(sent) if sent > 0 => {
            let taken = taken_first(before.0.pending_socket, sent);
            &&& step == FlushStep::Stop
            &&& after.0 == (FlowEntry {
                flow: after.0.flow,
                pending_socket: after.0.pending_socket,
                ..before.0
            })
            &&& after.0.flow@ == before.0.flow@.submitted(sent)
            &&& after.0.pending_socket.bound() == before.0.pending_socket.bound()
            &&& after.0.pending_socket.waiting() == before.0.pending_socket.waiting().skip(taken)
            &&& after.1 == before.1.consumed(taken)
        },
        _ => {
            &&& step == match outcome {
                SendOutcome::Sent(_) => FlushStep::Broken,
                SendOutcome::WouldBlock => FlushStep::Stop,
                SendOutcome::Failed => FlushStep::Failed,
            }
            &&& after == before
        },
    }
}

/// Settles one send of the first piece that waits for the upstream socket.
pub fn settle_flush(entry: &mut FlowEntry, ledger: &mut Ledger, outcome: SendOutcome) -> (step:
    FlushStep)
    requires
        old(entry).wf(),
        old(ledger).wf(),
    ensures
        final(entry).wf(),
        final(ledger).wf(),
        queue_flushed(
            (*old(entry), *old(ledger)),
            (*final(entry), *final(ledger)),
            outcome,
            step,
        ),
{
    match outcome {
        SendOutcome::Sent(sent) => {
            if sent == 0 {
                return FlushStep::Broken;
            }
            let _ = consume_pending_payload(entry, ledger, sent);
            FlushStep::Stop
        },
        SendOutcome::WouldBlock => FlushStep::Stop,
        SendOutcome::Failed => FlushStep::Failed,
    }
}

/// Whether the upstream socket is to be shut down now that its queue may have
/// emptied.
pub fn take_pending_shutdown(entry: &mut FlowEntry) -> (shutdown: bool)
    requires
        old(entry).wf(),
    ensures
        final(entry).wf(),
        shutdown == (old(entry).pending_shutdown && old(entry).pending_socket.waiting().len()
            == 0),
        *final(entry) == (FlowEntry {
            pending_shutdown: old(entry).pending_shutdown && !shutdown,
            ..*old(entry)
        }),
{
    if entry.pending_socket.is_empty() && entry.pending_shutdown {
        entry.pending_shutdown = false;
        return true;
    }
    false
}

/// A SYN that comes again is waited for while the upstream connection is made, and
/// answered again behind that; every other segment is received.
pub proof fn law_repeated_syn_is_answered_again(state: State, syn: bool, ack: bool)
    ensures
        ({
            let first = syn && !ack;
            let action = syn_action_of(state, syn, ack);
            &&& action == SynAction::Wait <==> first && state == State::Connecting
            &&& action == SynAction::RetransmitOldest <==> first && state == State::SynReceived
            &&& action == SynAction::Receive <==> !first || state != State::Connecting && state
                != State::SynReceived
        }),
{
}

/// A peer is probed exactly while its window is closed and data could be sent to it;
/// a probe that runs goes on, and a new one starts a second from now.
pub proof fn law_closed_window_is_probed(
    probe: Option<ZeroWindowProbe>,
    flow: FlowState,
    now: Instant,
)
    requires
        now + 1_000_000_000 <= u64::MAX,
    ensures
        ({
            let after = probe_after(probe, flow, now);
            let stuck = flow.peer_window == 0 && (flow.state == State::Established || flow.state
                == State::NamespaceFinReceived);
            &&& after is Some <==> stuck
            &&& stuck && probe is Some ==> after == probe
            &&& stuck && probe is None ==> after.unwrap().deadline == now + 1_000_000_000
                && after.unwrap().interval == 1_000_000_000
        }),
{
}

/// The upstream socket takes from its peer only what the namespace takes: it is
/// clamped to the window of the namespace, and to one octet where that is closed.
pub proof fn law_clamp_follows_the_window(window: u32)
    ensures
        window > 0 ==> clamp_for(window) == window,
        clamp_for(0) == 1,
{
}

/// Payload in order goes upstream, and so does a FIN; whatever is out of place is
/// answered by where the flow is; a reset closes it.
pub proof fn law_reaction_follows_the_place(payload_len: usize, fin: bool)
    ensures
        reaction_of(ReceiveDisposition::InOrder { payload_len, fin }) == (Reaction::Deliver {
            payload: payload_len > 0,
            fin,
        }),
        reaction_of(ReceiveDisposition::Duplicate) == Reaction::Acknowledge,
        reaction_of(ReceiveDisposition::OutOfOrder) == Reaction::Acknowledge,
        reaction_of(ReceiveDisposition::OutsideWindow) == Reaction::Acknowledge,
        reaction_of(ReceiveDisposition::Reset) == Reaction::Close,
        reaction_of(ReceiveDisposition::Invalid) == Reaction::Close,
{
}

/// A segment of a flow is taken as the flow takes it: what it acknowledges is dropped
/// from the upstream socket, and the socket is clamped where the window changed.
pub proof fn law_segment_is_taken_by_its_flow(
    before: (FlowEntry, Metrics),
    after: (FlowEntry, Metrics),
    plan: SegmentPlan,
    fields: SegmentFields,
    now: Instant,
)
    requires
        segment_taken(before, after, plan, fields, now),
        !fields.rst,
    ensures
        (after.0.flow@, plan.disposition) == before.0.flow@.received(
            fields.sequence,
            fields.acknowledgment,
            fields.window,
            fields.payload_len,
            fields.fin,
            false,
        ),
        plan.acknowledged <==> after.0.flow@.local_unacked != before.0.flow@.local_unacked,
        !plan.acknowledged ==> plan.discard == 0,
        plan.acknowledged ==> plan.discard == after.0.flow@.newly_acked(
            before.0.flow@.local_unacked,
        ),
        after.0.upstream_window_clamp == Some(after.0.flow@.peer_window),
        plan.clamp is None <==> before.0.upstream_window_clamp == Some(after.0.flow@.peer_window),
        plan.clamp is Some && after.0.flow@.peer_window > 0 ==> plan.clamp == Some(
            after.0.flow@.peer_window,
        ),
        after.0.pending_socket == before.0.pending_socket,
        after.0.sent_segments == before.0.sent_segments,
        after.0.pending_shutdown == before.0.pending_shutdown,
{
    crate::tcp_adapter::flow::law_only_a_reset_closes(
        before.0.flow@,
        fields.sequence,
        fields.acknowledgment,
        fields.window,
        fields.payload_len,
        fields.fin,
    );
}

/// Payload may wait while the flow's own queue and all queues together have room for
/// it.
pub proof fn law_payload_waits_within_both_limits(entry: FlowEntry, ledger: Ledger, length: int)
    ensures
        may_wait(entry, ledger, length) <==> {
            &&& entry.pending_socket.waiting().len() + length <= entry.pending_socket.bound()
            &&& ledger.pending + length <= ledger.max_pending
        },
        MAX_PENDING_SOCKET_BYTES == 262_144,
{
}

/// What the upstream socket took is counted as handed on; the rest waits behind what
/// waits already, or the flow fails because there is no room for it.
pub proof fn law_submitted_payload_is_handed_on_or_waits(
    before: (FlowEntry, Ledger),
    after: (FlowEntry, Ledger),
    payload: Seq<u8>,
    sent: Option<usize>,
    going: bool,
)
    requires
        before.1.wf(),
        payload_submitted(before, after, payload, sent, going),
        sent is Some ==> sent.unwrap() <= payload.len(),
        before.0.flow@.upstream_submitted + payload.len() <= u64::MAX,
    ensures
        ({
            let taken = match sent {
                Some(taken) => taken as int,
                None => 0,
            };
            let rest = payload.len() - taken;
            let fits = before.0.pending_socket.waiting().len() + rest
                <= before.0.pending_socket.bound() && before.1.pending + rest
                <= before.1.max_pending;
            &&& after.0.flow@.upstream_submitted == before.0.flow@.upstream_submitted + taken
            &&& after.0.flow@.upstream_acked == before.0.flow@.upstream_acked
            &&& after.0.flow@.namespace_next == before.0.flow@.namespace_next
            &&& rest > 0 ==> (going <==> fits)
            &&& rest == 0 && sent is Some ==> going
            &&& going ==> after.0.pending_socket.waiting() == before.0.pending_socket.waiting()
                + payload.skip(taken)
            &&& going ==> after.1.pending == before.1.pending + rest
            &&& !going ==> after.1.pending == before.1.pending
                && after.0.pending_socket.waiting() == before.0.pending_socket.waiting()
        }),
{
    let taken = taken_now(sent);
    assert(payload.skip(taken).len() == payload.len() - taken);
    if going {
        super::ledger::law_ledger_counts_bytes(before.1, payload.len() - taken);
        assert(payload.skip(taken).len() == 0 ==> before.0.pending_socket.waiting() + payload.skip(
            taken,
        ) =~= before.0.pending_socket.waiting());
    }
}

/// A send of waiting payload hands the octets that the socket took on, from the front
/// of what waits; a socket that takes nothing is out of order, and one that would
/// block is tried again.
pub proof fn law_flushed_payload_is_handed_on(
    before: (FlowEntry, Ledger),
    after: (FlowEntry, Ledger),
    outcome: SendOutcome,
    step: FlushStep,
)
    requires
        queue_flushed(before, after, outcome, step),
    ensures
        match outcome {
            SendOutcome::Sent(sent) if sent > 0 => {
                &&& step == FlushStep::Stop
                &&& before.0.flow@.upstream_submitted + sent <= u64::MAX
                    ==> after.0.flow@.upstream_submitted == before.0.flow@.upstream_submitted + sent
                &&& before.0.pending_socket.chunks().len() > 0 && sent
                    <= before.0.pending_socket.chunks()[0]@.len() ==> {
                    &&& after.0.pending_socket.waiting() == before.0.pending_socket.waiting().skip(
                        sent as int,
                    )
                    &&& sent <= before.1.pending ==> after.1.pending == before.1.pending - sent
                }
            },
            SendOutcome::Sent(_) => step == FlushStep::Broken && after == before,
            SendOutcome::WouldBlock => step == FlushStep::Stop && after == before,
            SendOutcome::Failed => step == FlushStep::Failed && after == before,
        },
{
}

/// A new flow is between the namespace and its target, as the namespace sees them.
pub proof fn law_initiating_side_is_the_namespace(key: FlowKey)
    ensures
        ({
            let side = initiating_side(key);
            &&& side.interface == FlowInterface::NamespaceTap
            &&& side.local_endpoint == key.target
            &&& side.logical_peer == key.namespace
            &&& side.transport_peer == key.namespace
        }),
{
}

/// A peer is asked for its window exactly while it offers none and data may
/// still go to it.
pub proof fn law_closed_windows_are_asked_about(flow: FlowState)
    ensures
        probes(flow) ==> flow.peer_window == 0,
        flow.peer_window == 0 && flow.state == State::Established ==> probes(flow),
        flow.peer_window == 0 && flow.state == State::NamespaceFinReceived ==> probes(flow),
        flow.state != State::Established && flow.state != State::NamespaceFinReceived ==> !probes(
            flow,
        ),
{
}

/// A window that closes is counted as an event and a flow, one that opens again
/// takes the flow off, and nothing changes otherwise.
pub proof fn law_closed_windows_are_counted(
    metrics: Metrics,
    before: Option<ZeroWindowProbe>,
    after: Option<ZeroWindowProbe>,
)
    requires
        metrics.zero_window_events < u64::MAX,
        metrics.zero_window_flows < u64::MAX,
    ensures
        ({
            let counters = probe_metrics(metrics, before, after);
            &&& before is None && after is Some ==> {
                &&& counters.zero_window_events == metrics.zero_window_events + 1
                &&& counters.zero_window_flows == metrics.zero_window_flows + 1
                &&& counters.peak_zero_window_flows >= counters.zero_window_flows
                &&& counters.peak_zero_window_flows >= metrics.peak_zero_window_flows
            }
            &&& before is Some && after is None && metrics.zero_window_flows > 0 ==> {
                &&& counters.zero_window_flows == metrics.zero_window_flows - 1
                &&& counters.zero_window_events == metrics.zero_window_events
            }
            &&& (before is Some <==> after is Some) ==> counters == metrics
        }),
{
}

/// A reset closes the flow and asks for nothing; nothing else of the flow changes,
/// and nothing is counted.
pub proof fn law_reset_changes_the_state_alone(
    before: (FlowEntry, Metrics),
    after: (FlowEntry, Metrics),
    plan: SegmentPlan,
    fields: SegmentFields,
    now: Instant,
)
    requires
        segment_taken(before, after, plan, fields, now),
        fields.rst,
    ensures
        plan.disposition == ReceiveDisposition::Reset,
        after.0.flow@.state == State::Closed,
        after.0.flow@ == (FlowState { state: State::Closed, ..before.0.flow@ }),
        after.1 == before.1,
        plan.clamp is None && plan.discard == 0 && !plan.acknowledged,
        after.0.sent_segments == before.0.sent_segments,
        after.0.pending_socket == before.0.pending_socket,
        after.0.zero_window_probe == before.0.zero_window_probe,
        after.0.upstream_window_clamp == before.0.upstream_window_clamp,
{
}

/// The upstream socket of a flow is watched for input, errors and the end of
/// input always, and for room exactly while it connects, its handshake has
/// something to say, or payload waits.
pub proof fn law_socket_is_watched_while_something_waits(entry: FlowEntry)
    ensures
        ({
            let room = !entry.transport_connected || entry.pending_socket.waiting().len() > 0 || (
            entry.handshake is Some && entry.handshake.unwrap()@.output.len() > 0);
            &&& room ==> entry.wanted_interest() == 0x200d
            &&& !room ==> entry.wanted_interest() == 0x2009
        }),
{
    assert(0x1u32 | 0x8u32 | 0x2000u32 == 0x2009u32 && (0x1u32 | 0x8u32 | 0x2000u32) | 0x4u32
        == 0x200du32) by (bit_vector);
}

} // verus!
