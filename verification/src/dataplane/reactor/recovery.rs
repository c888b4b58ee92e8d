//! Sending again: retransmissions, window probes and the watchdog that finds
//! lost acknowledgment notices.

use super::entry::FlowEntry;
use super::frame::Error;
use super::metrics::{Metrics, count, counted};
use super::probe::ZERO_WINDOW_PROBE_MAX;
use super::segment::{MAX_RETRIES, SentSegment};
use super::send::Peeked;
use crate::dataplane::flow_table::FlowId;
use crate::packet::tcp::TcpFlags;
use crate::sys::socket::TxTimestampDrain;
use crate::tcp_adapter::flow::{SendPlan, State, min};
use crate::tcp_adapter::sequence::advanced;
use crate::time::Instant;
use vstd::prelude::*;

verus! {

/// What is needed to send the oldest segment again.
#[derive(Clone, Copy, Debug)]
pub enum RetransmitRequest {
    /// Nothing is sent: a frame of the flow still waits, or all is acknowledged.
    Nothing,
    /// A segment without payload.
    Control { plan: SendPlan, flags: TcpFlags },
    /// The first `length` octets of the upstream socket.
    Payload { length: usize },
}

/// The flags of a segment.
pub open spec fn segment_flags(segment: SentSegment) -> TcpFlags {
    TcpFlags {
        fin: segment.fin,
        syn: segment.syn,
        rst: false,
        psh: segment.payload_len > 0,
        ack: true,
    }
}

/// The oldest segment once more, when it has no payload.
pub open spec fn control_again(entry: FlowEntry) -> SendPlan {
    let oldest = entry.sent_segments@[0];
    SendPlan {
        sequence: oldest.sequence,
        acknowledgment: entry.flow@.namespace_acked,
        length: 0,
        syn: oldest.syn,
        fin: oldest.fin,
    }
}

/// Tells what is needed to send the oldest segment again.
pub fn retransmit_request(entry: &FlowEntry, frame_waits: bool) -> (result: Result<
    RetransmitRequest,
    Error,
>)
    requires
        entry.wf(),
    ensures
        ({
            let idle = frame_waits || entry.sent_segments@.len() == 0;
            let oldest = entry.sent_segments@[0];
            match result {
                Ok(request) => match request {
                    RetransmitRequest::Nothing => idle,
                    RetransmitRequest::Control { plan, flags } => {
                        &&& !idle && oldest.payload_len == 0
                        &&& entry.construction.sides() is Some
                        &&& plan == control_again(*entry)
                        &&& flags == segment_flags(oldest)
                    },
                    RetransmitRequest::Payload { length } => {
                        &&& !idle && oldest.payload_len > 0
                        &&& entry.construction.sides() is Some
                        &&& length == oldest.payload_len
                    },
                },
                Err(error) => {
                    &&& !idle && entry.construction.sides() is None
                    &&& error == Error::Invariant("inactive flow reached retransmit")
                },
            }
        }),
{
    if frame_waits || entry.sent_segments.len() == 0 {
        return Ok(RetransmitRequest::Nothing);
    }
    if entry.construction.active_sides().is_none() {
        return Err(Error::Invariant("inactive flow reached retransmit"));
    }
    let oldest = &entry.sent_segments[0];
    if oldest.payload_len > 0 {
        return Ok(RetransmitRequest::Payload { length: oldest.payload_len });
    }
    Ok(
        RetransmitRequest::Control {
            plan: SendPlan {
                sequence: oldest.sequence,
                acknowledgment: entry.flow.namespace_ack(),
                length: 0,
                syn: oldest.syn,
                fin: oldest.fin,
            },
            flags: oldest.flags(),
        },
    )
}

/// Why a retransmission cannot be made, if it cannot: the upstream socket must
/// still hold what was sent and not acknowledged, up to what the frame takes.
pub open spec fn retransmit_fault(
    segment: SentSegment,
    peeked: Peeked,
    payload_capacity: usize,
) -> Option<&'static str> {
    match peeked {
        Peeked::Data { length } => if length == min(
            segment.payload_len as int,
            payload_capacity as int,
        ) {
            None
        } else {
            Some("retained socket payload is shorter than segment")
        },
        Peeked::WouldBlock => Some("retained socket payload is unavailable"),
        Peeked::Eof => Some("retained socket payload reached EOF"),
    }
}

/// What a retransmission of payload carries.
pub open spec fn payload_again(entry: FlowEntry, payload_capacity: usize) -> (SendPlan, TcpFlags) {
    let oldest = entry.sent_segments@[0];
    let length = min(oldest.payload_len as int, payload_capacity as int);
    let fin = oldest.fin && length == oldest.payload_len;
    (
        SendPlan {
            sequence: oldest.sequence,
            acknowledgment: entry.flow@.namespace_acked,
            length: length as usize,
            syn: oldest.syn,
            fin,
        },
        TcpFlags { fin, syn: oldest.syn, rst: false, psh: true, ack: true },
    )
}

/// Plans the retransmission of payload that was read again. A frame that is too
/// small for the segment carries a prefix of it, without its FIN; the cumulative
/// acknowledgment trims the rest.
pub fn retransmit_payload(entry: &FlowEntry, peeked: Peeked, payload_capacity: usize) -> (result:
    Result<(SendPlan, TcpFlags), &'static str>)
    requires
        entry.wf(),
        entry.sent_segments@.len() > 0,
    ensures
        ({
            let oldest = entry.sent_segments@[0];
            match result {
                Ok(part) => {
                    &&& retransmit_fault(oldest, peeked, payload_capacity) is None
                    &&& part == payload_again(*entry, payload_capacity)
                },
                Err(reason) => retransmit_fault(oldest, peeked, payload_capacity) == Some(
                    reason,
                ),
            }
        }),
{
    let oldest = &entry.sent_segments[0];
    match peeked {
        Peeked::WouldBlock => Err("retained socket payload is unavailable"),
        Peeked::Eof => Err("retained socket payload reached EOF"),
        Peeked::Data { length } => {
            let expected: usize = if oldest.payload_len <= payload_capacity {
                oldest.payload_len
            } else {
                payload_capacity
            };
            if length != expected {
                return Err("retained socket payload is shorter than segment");
            }
            let fin = oldest.fin && length == oldest.payload_len;
            let plan = SendPlan {
                sequence: oldest.sequence,
                acknowledgment: entry.flow.namespace_ack(),
                length,
                syn: oldest.syn,
                fin,
            };
            let flags = TcpFlags { fin, syn: oldest.syn, rst: false, psh: true, ack: true };
            Ok((plan, flags))
        },
    }
}

/// The oldest segment after it was sent again.
pub open spec fn resent(segment: SentSegment, backoff: bool, now: Instant) -> SentSegment {
    if backoff {
        segment.timed_out(now)
    } else {
        SentSegment { last_sent: now, ..segment }
    }
}

/// Takes note that the oldest segment was sent again.
pub fn record_retransmit(
    entry: &mut FlowEntry,
    metrics: &mut Metrics,
    backoff: bool,
    now: Instant,
) -> (result: Result<(), Error>)
    requires
        old(entry).wf(),
    ensures
        final(entry).wf(),
        *final(entry) == (FlowEntry { sent_segments: final(entry).sent_segments, ..*old(entry) }),
        match result {
            Ok(()) => {
                &&& old(entry).sent_segments@.len() > 0
                &&& final(entry).sent_segments@ == old(entry).sent_segments@.update(
                    0,
                    resent(old(entry).sent_segments@[0], backoff, now),
                )
                &&& *final(metrics) == (Metrics {
                    tcp_retransmits: counted(old(metrics).tcp_retransmits),
                    ..*old(metrics)
                })
            },
            Err(error) => {
                &&& old(entry).sent_segments@.len() == 0
                &&& error == Error::Invariant("retransmitted segment disappeared")
                &&& final(entry).sent_segments@ == old(entry).sent_segments@
                &&& *final(metrics) == *old(metrics)
            },
        },
{
    let ghost before = entry.sent_segments@;
    match entry.sent_segments.pop_front() {
        None => {
            assert(entry.sent_segments@ =~= before);
            Err(Error::Invariant("retransmitted segment disappeared"))
        },
        Some(first) => {
            let mut first = first;
            if backoff {
                first.record_timeout_retransmit(now);
            } else {
                first.last_sent = now;
            }
            let ghost rest = entry.sent_segments@;
            entry.sent_segments.push_front(first);
            metrics.tcp_retransmits = count(metrics.tcp_retransmits);
            proof {
                let after = entry.sent_segments@;
                assert(after =~= before.update(0, resent(before[0], backoff, now)));
                assert(after.drop_first() =~= before.drop_first());
                assert forall|i: int| 0 <= i < after.len() implies (#[trigger] after[i]).wf() by {
                    assert(before[i].wf());
                }
            }
            Ok(())
        },
    }
}

/// Whether the oldest segment has payload that the upstream socket still holds.
pub open spec fn holds_payload(entry: FlowEntry) -> bool {
    entry.sent_segments@.len() > 0 && entry.sent_segments@[0].payload_len > 0
}

/// The octet that asks a closed window again: the first that is not
/// acknowledged, or, if all is, the last one once more.
pub open spec fn probe_octet(entry: FlowEntry, socket_byte: u8) -> u8 {
    if holds_payload(entry) || entry.last_namespace_byte is None {
        socket_byte
    } else {
        entry.last_namespace_byte.unwrap()
    }
}

/// The one octet that a probe repeats.
pub open spec fn probe_segment(entry: FlowEntry) -> SendPlan {
    SendPlan {
        sequence: if holds_payload(entry) {
            entry.sent_segments@[0].sequence
        } else {
            advanced(entry.flow@.local_next, -1)
        },
        acknowledgment: entry.flow@.namespace_acked,
        length: 1,
        syn: false,
        fin: false,
    }
}

/// Plans a window probe around the octet that the upstream socket has next.
#[must_use]
pub fn plan_probe(entry: &FlowEntry, socket_byte: u8) -> (probe: (SendPlan, u8))
    requires
        entry.wf(),
    ensures
        probe.1 == probe_octet(*entry, socket_byte),
        probe.0 == probe_segment(*entry),
{
    let retained = entry.sent_segments.len() > 0 && entry.sent_segments[0].payload_len > 0;
    let sequence: u32 = if retained {
        entry.sent_segments[0].sequence
    } else {
        entry.flow.local_next().wrapping_sub(1)
    };
    let octet: u8 = if retained {
        socket_byte
    } else {
        match entry.last_namespace_byte {
            Some(byte) => byte,
            None => socket_byte,
        }
    };
    let plan = SendPlan {
        sequence,
        acknowledgment: entry.flow.namespace_ack(),
        length: 1,
        syn: false,
        fin: false,
    };
    (plan, octet)
}

/// Takes note of a probe. One that found nothing to send only waits longer.
pub fn record_probe(entry: &mut FlowEntry, metrics: &mut Metrics, sent: bool, now: Instant)
    requires
        old(entry).wf(),
        now + ZERO_WINDOW_PROBE_MAX <= u64::MAX,
    ensures
        final(entry).wf(),
        *final(entry) == (FlowEntry {
            zero_window_probe: match old(entry).zero_window_probe {
                Some(probe) => Some(probe.advanced(now)),
                None => None,
            },
            ..*old(entry)
        }),
        *final(metrics) == if sent {
            Metrics {
                tcp_zero_window_probes: counted(old(metrics).tcp_zero_window_probes),
                ..*old(metrics)
            }
        } else {
            *old(metrics)
        },
{
    if let Some(probe) = entry.zero_window_probe {
        let mut next = probe;
        next.advance(now);
        entry.zero_window_probe = Some(next);
    }
    if sent {
        metrics.tcp_zero_window_probes = count(metrics.tcp_zero_window_probes);
    }
}

/// What the tick does about the oldest segment of a flow.
#[derive(Clone, Copy, Debug, PartialEq, Eq, Structural)]
pub enum TimerAction {
    Rest,
    /// It was sent again as often as it may be: the flow is reset.
    GiveUp,
    Retransmit,
}

/// Whether the oldest segment's time is over. While the peer's window is closed
/// it is probed instead.
pub open spec fn retransmit_due(entry: FlowEntry, now: Instant) -> bool {
    &&& entry.zero_window_probe is None
    &&& entry.sent_segments@.len() > 0
    &&& ({
        let oldest = entry.sent_segments@[0];
        (if now >= oldest.last_sent {
            now - oldest.last_sent
        } else {
            0
        }) >= oldest.retransmit_timeout
    })
}

#[must_use]
pub fn timer_action(entry: &FlowEntry, now: Instant) -> (action: TimerAction)
    ensures
        action == if !retransmit_due(*entry, now) {
            TimerAction::Rest
        } else if entry.sent_segments@[0].retries >= MAX_RETRIES {
            TimerAction::GiveUp
        } else {
            TimerAction::Retransmit
        },
{
    if entry.zero_window_probe.is_some() || entry.sent_segments.len() == 0 {
        return TimerAction::Rest;
    }
    let oldest = &entry.sent_segments[0];
    if now.saturating_sub(oldest.last_sent) < oldest.retransmit_timeout {
        return TimerAction::Rest;
    }
    if oldest.retries_exhausted() {
        TimerAction::GiveUp
    } else {
        TimerAction::Retransmit
    }
}

#[must_use]
pub fn probe_due(entry: &FlowEntry, now: Instant) -> (due: bool)
    ensures
        due == (entry.zero_window_probe is Some && entry.zero_window_probe.unwrap().deadline
            <= now),
{
    match entry.zero_window_probe {
        Some(probe) => probe.deadline <= now,
        None => false,
    }
}

/// How many flows in front have a place below `cursor`.
pub open spec fn below_cursor(ids: Seq<FlowId>, cursor: u32) -> nat
    decreases ids.len(),
{
    if ids.len() == 0 || ids[0].slot >= cursor {
        0
    } else {
        1 + below_cursor(ids.drop_first(), cursor)
    }
}

/// Where the tick starts among the flows: at the first one that the last tick
/// did not get to, or its successor. A fixed start would starve the flows in
/// high places whenever the frames run out.
#[must_use]
pub fn timer_start(ids: &[FlowId], cursor: u32) -> (start: usize)
    requires
        ids@.len() > 0,
    ensures
        start < ids@.len(),
        start == below_cursor(ids@, cursor) % ids@.len(),
{
    let size: usize = ids.len();
    let mut i: usize = 0;
    assert(ids@.skip(0) =~= ids@);
    while i < size && ids[i].slot < cursor
        invariant
            i <= size == ids@.len(),
            i + below_cursor(ids@.skip(i as int), cursor) == below_cursor(ids@, cursor),
        decreases size - i,
    {
        assert(ids@.skip(i as int).drop_first() =~= ids@.skip(i + 1));
        i = i + 1;
    }
    i % size
}

/// Whether the watchdog looks at the flow: bytes are unacknowledged upstream,
/// and a frame is there to tell the namespace.
#[must_use]
pub fn watchdog_looks(entry: &FlowEntry, frames_available: usize) -> (looks: bool)
    ensures
        looks == (frames_available > 0 && !entry.closed() && entry.flow@.upstream_submitted
            > entry.flow@.upstream_acked),
{
    frames_available > 0 && !matches!(entry.flow.state(), State::Closed)
        && entry.flow.upstream_unacked() > 0
}

/// What the watchdog does after the acknowledged bytes were read again.
///
/// An advance counts as a tail recovery only when no silent explanation remains:
/// no notice came before, nothing is left unacknowledged, and a second look
/// still finds no notice.
pub fn watchdog_after_refresh(
    entry: &FlowEntry,
    metrics: &mut Metrics,
    notified: bool,
    advanced: bool,
) -> (look_again: bool)
    ensures
        look_again == (advanced && !notified && !entry.closed() && entry.flow@.upstream_submitted
            == entry.flow@.upstream_acked),
        *final(metrics) == if advanced {
            Metrics {
                tx_ack_watchdog_advances: counted(old(metrics).tx_ack_watchdog_advances),
                ..*old(metrics)
            }
        } else {
            *old(metrics)
        },
{
    if !advanced {
        return false;
    }
    metrics.tx_ack_watchdog_advances = count(metrics.tx_ack_watchdog_advances);
    if notified || matches!(entry.flow.state(), State::Closed) {
        return false;
    }
    entry.flow.upstream_unacked() == 0
}

/// Whether a look at the error queue found an error that ends the flow.
#[must_use]
pub fn drain_breaks(drain: TxTimestampDrain) -> (breaks: bool)
    ensures
        breaks == (drain.foreign_errors > 0),
{
    drain.foreign_errors > 0
}

/// Counts a notice that was lost, after the second look.
pub fn watchdog_after_second_look(metrics: &mut Metrics, drain: TxTimestampDrain)
    ensures
        *final(metrics) == if drain.foreign_errors == 0 && drain.acknowledgments == 0 {
            Metrics {
                tx_ack_watchdog_tail_recoveries: counted(
                    old(metrics).tx_ack_watchdog_tail_recoveries,
                ),
                ..*old(metrics)
            }
        } else {
            *old(metrics)
        },
{
    if drain.foreign_errors == 0 && drain.acknowledgments == 0 {
        metrics.tx_ack_watchdog_tail_recoveries = count(metrics.tx_ack_watchdog_tail_recoveries);
    }
}

/// The flows in the order of a tick: from where it starts, once round.
pub open spec fn round(ids: Seq<FlowId>, cursor: u32) -> Seq<FlowId> {
    let start = (below_cursor(ids, cursor) % ids.len()) as int;
    ids.skip(start) + ids.take(start)
}

/// The order in which a tick visits the flows.
#[must_use]
pub fn timer_round(ids: &[FlowId], cursor: u32) -> (order: Vec<FlowId>)
    ensures
        order@ == if ids@.len() == 0 {
            Seq::empty()
        } else {
            round(ids@, cursor)
        },
{
    let mut order: Vec<FlowId> = Vec::new();
    let size: usize = ids.len();
    if size == 0 {
        assert(order@ =~= Seq::empty());
        return order;
    }
    let start: usize = timer_start(ids, cursor);
    let mut i: usize = start;
    while i < size
        invariant
            start <= i <= size == ids@.len(),
            order@ =~= ids@.subrange(start as int, i as int),
        decreases size - i,
    {
        order.push(ids[i]);
        i = i + 1;
    }
    assert(ids@.subrange(start as int, size as int) =~= ids@.skip(start as int));
    let mut j: usize = 0;
    while j < start
        invariant
            j <= start < ids@.len(),
            order@ =~= ids@.skip(start as int) + ids@.take(j as int),
        decreases start - j,
    {
        order.push(ids[j]);
        j = j + 1;
    }
    order
}

/// Whether a tick still visits a flow: without a frame it stops there, and the
/// next tick starts with this flow.
pub fn tick_visits(
    cursor: &mut u32,
    metrics: &mut Metrics,
    id: FlowId,
    frames_available: usize,
) -> (visits: bool)
    ensures
        visits == (frames_available > 0),
        *final(cursor) == if visits {
            *old(cursor)
        } else {
            id.slot
        },
        *final(metrics) == if visits {
            *old(metrics)
        } else {
            Metrics {
                frame_pool_exhaustions: counted(old(metrics).frame_pool_exhaustions),
                ..*old(metrics)
            }
        },
{
    if frames_available == 0 {
        metrics.frame_pool_exhaustions = count(metrics.frame_pool_exhaustions);
        *cursor = id.slot;
        return false;
    }
    true
}

/// A tick visits every flow, each as often as it is there.
pub proof fn law_round_meets_every_flow(ids: Seq<FlowId>, cursor: u32)
    requires
        ids.len() > 0,
    ensures
        round(ids, cursor).len() == ids.len(),
        round(ids, cursor).to_multiset() == ids.to_multiset(),
{
    let start = (below_cursor(ids, cursor) % ids.len()) as int;
    assert(ids =~= ids.take(start) + ids.skip(start));
    vstd::seq_lib::lemma_multiset_commutative(ids.take(start), ids.skip(start));
    vstd::seq_lib::lemma_multiset_commutative(ids.skip(start), ids.take(start));
    assert(ids.take(start).to_multiset().add(ids.skip(start).to_multiset())
        =~= ids.skip(start).to_multiset().add(ids.take(start).to_multiset()));
}

/// What is sent again is the oldest segment, from its own start, with its own flags
/// and the acknowledgment of now. A frame that is too small carries the front of it,
/// and the FIN only with the last octet.
pub proof fn law_oldest_segment_is_sent_again(entry: FlowEntry, payload_capacity: usize)
    requires
        entry.sent_segments@.len() > 0,
    ensures
        ({
            let oldest = entry.sent_segments@[0];
            let control = control_again(entry);
            let (plan, flags) = payload_again(entry, payload_capacity);
            let whole = oldest.payload_len <= payload_capacity;
            &&& control.sequence == oldest.sequence && control.length == 0
            &&& control.syn == oldest.syn && control.fin == oldest.fin
            &&& control.acknowledgment == entry.flow@.namespace_acked
            &&& plan.sequence == oldest.sequence
            &&& plan.acknowledgment == entry.flow@.namespace_acked
            &&& whole ==> plan.length == oldest.payload_len && plan.fin == oldest.fin
            &&& !whole ==> plan.length == payload_capacity && !plan.fin
            &&& plan.syn == oldest.syn
            &&& flags.ack && flags.psh && !flags.rst
            &&& flags.fin == plan.fin && flags.syn == plan.syn
            &&& segment_flags(oldest) == (TcpFlags {
                fin: oldest.fin,
                syn: oldest.syn,
                rst: false,
                psh: oldest.payload_len > 0,
                ack: true,
            })
        }),
{
}

/// A retransmission needs what it repeats: the upstream socket must still hold the
/// octets of the segment, as far as the frame takes them.
pub proof fn law_retransmission_needs_its_octets(
    segment: SentSegment,
    length: usize,
    payload_capacity: usize,
)
    ensures
        retransmit_fault(segment, Peeked::Eof, payload_capacity) is Some,
        retransmit_fault(segment, Peeked::WouldBlock, payload_capacity) is Some,
        retransmit_fault(segment, Peeked::Data { length }, payload_capacity) is None <==> length
            == if segment.payload_len <= payload_capacity {
            segment.payload_len
        } else {
            payload_capacity
        },
{
}

/// Only a timeout backs off; any other repetition just restarts the clock.
pub proof fn law_only_timeouts_back_off(segment: SentSegment, now: Instant)
    requires
        segment.retries < 255,
    ensures
        resent(segment, false, now) == (SentSegment { last_sent: now, ..segment }),
        resent(segment, true, now).last_sent == now,
        resent(segment, true, now).retries == segment.retries + 1,
{
}

/// The oldest segment is due once its timeout has passed since it was last sent,
/// unless the closed window is probed instead.
pub proof fn law_segment_is_due_after_its_timeout(entry: FlowEntry, now: Instant)
    ensures
        entry.zero_window_probe is Some ==> !retransmit_due(entry, now),
        entry.sent_segments@.len() == 0 ==> !retransmit_due(entry, now),
        entry.zero_window_probe is None && entry.sent_segments@.len() > 0
            && entry.sent_segments@[0].last_sent <= now ==> (retransmit_due(entry, now) <==> now
            >= entry.sent_segments@[0].last_sent + entry.sent_segments@[0].retransmit_timeout),
{
}

/// A probe is one octet that the namespace can check: the first that it has not
/// acknowledged, or the one in front of the next.
pub proof fn law_probe_is_one_octet_of_the_stream(entry: FlowEntry, socket_byte: u8)
    ensures
        ({
            let plan = probe_segment(entry);
            let held = entry.sent_segments@.len() > 0 && entry.sent_segments@[0].payload_len > 0;
            &&& plan.length == 1 && !plan.syn && !plan.fin
            &&& plan.acknowledgment == entry.flow@.namespace_acked
            &&& held ==> plan.sequence == entry.sent_segments@[0].sequence && probe_octet(
                entry,
                socket_byte,
            ) == socket_byte
            &&& !held ==> (plan.sequence + 1) % 0x1_0000_0000 == entry.flow@.local_next
            &&& !held && entry.last_namespace_byte is Some ==> Some(
                probe_octet(entry, socket_byte),
            ) == entry.last_namespace_byte
        }),
{
}

/// A tick starts at the first flow that is not below the cursor, or at the first of
/// all where every flow is.
pub proof fn law_tick_starts_at_the_cursor(ids: Seq<FlowId>, cursor: u32, i: int)
    requires
        0 <= i <= ids.len(),
        forall|j: int| 0 <= j < i ==> (#[trigger] ids[j]).slot < cursor,
        i < ids.len() ==> ids[i].slot >= cursor,
    ensures
        below_cursor(ids, cursor) == i,
    decreases ids.len(),
{
    if i > 0 {
        assert(ids[0].slot < cursor);
        let rest = ids.drop_first();
        assert forall|j: int| 0 <= j < i - 1 implies (#[trigger] rest[j]).slot < cursor by {
            assert(rest[j] == ids[j + 1]);
        }
        law_tick_starts_at_the_cursor(rest, cursor, i - 1);
    }
}

/// The flows before the cursor are those whose places lie below it, up to the
/// first whose place does not.
pub proof fn law_flows_before_the_cursor_are_counted(ids: Seq<FlowId>, cursor: u32)
    ensures
        ({
            let n = below_cursor(ids, cursor);
            &&& n <= ids.len()
            &&& forall|i: int| 0 <= i < n ==> (#[trigger] ids[i]).slot < cursor
            &&& n < ids.len() ==> ids[n as int].slot >= cursor
        }),
    decreases ids.len(),
{
    if ids.len() > 0 && ids[0].slot < cursor {
        let rest = ids.drop_first();
        law_flows_before_the_cursor_are_counted(rest, cursor);
        let n = below_cursor(ids, cursor);
        assert forall|i: int| 0 <= i < n implies (#[trigger] ids[i]).slot < cursor by {
            if i > 0 {
                assert(rest[i - 1] == ids[i]);
            }
        }
        if n < ids.len() {
            assert(rest[n as int - 1] == ids[n as int]);
        }
    }
}

} // verus!
