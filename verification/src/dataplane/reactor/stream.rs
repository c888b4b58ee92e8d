//! What the segments in flight and the state of a flow say together: the stream
//! to the namespace has no gap, an acknowledgment frees exactly the payload that
//! it covers, and the stream from the namespace goes upstream in order.

use super::entry::{
    FlowEntry, FlushStep, SegmentFields, payload_submitted, queue_flushed, received, taken_first,
    taken_now,
};
use super::ledger::Ledger;
use super::proxy::SendOutcome;
use super::segment::{RETRANSMIT_INITIAL, SentSegment, acknowledged, one_if, payload_sum};
use super::tap::{after_send, commits, lemma_payload_sum_push};
use crate::tcp_adapter::flow::{FlowState, SendPlan};
use crate::tcp_adapter::sequence::{
    advanced, ahead, lemma_advanced_twice, lemma_ahead_advances, lemma_difference, lemma_places,
    lemma_step_is_short, lemma_steps_add_up, precedes,
};
use crate::time::Instant;
use vstd::prelude::*;

verus! {

/// Whether the segments take the sequence numbers from the place `from` of the
/// stream to the place `to` without a gap. The first number of the stream is
/// that of the SYN, and the last one that of the FIN, if it was sent.
pub open spec fn laid(
    initial: u32,
    segments: Seq<SentSegment>,
    from: int,
    to: int,
    fin: bool,
) -> bool
    decreases segments.len(),
{
    if segments.len() == 0 {
        from == to
    } else {
        let first = segments[0];
        let end = from + first.span();
        &&& first.sequence == advanced(initial, from)
        &&& from < end <= to
        &&& first.syn == (from == 0)
        &&& first.fin == (fin && end == to)
        &&& laid(initial, segments.drop_first(), end, to, fin)
    }
}

/// Whether exactly what is in flight is kept to be sent again, for a stream of
/// less than half of the sequence space.
pub open spec fn carried(flow: FlowState, segments: Seq<SentSegment>) -> bool {
    let from = ahead(flow.local_initial, flow.local_unacked);
    let to = ahead(flow.local_initial, flow.local_next);
    &&& from <= to
    &&& 1 <= to < 0x8000_0000
    &&& match flow.local_fin_sequence {
        Some(sequence) => to >= 2 && sequence == advanced(flow.local_initial, to - 1),
        None => true,
    }
    &&& laid(flow.local_initial, segments, from, to, flow.local_fin_sequence is Some)
}

/// The place of the stream that payload has reached at the place `at`: the SYN
/// comes before the payload, and the FIN behind it.
pub open spec fn payload_place(at: int, to: int, fin: bool) -> int {
    let end = to - one_if(fin);
    if at < 1 {
        1
    } else if at > end {
        end
    } else {
        at
    }
}

/// The payload of the segments is what lies between their places.
proof fn lemma_payload_between(
    initial: u32,
    segments: Seq<SentSegment>,
    from: int,
    to: int,
    fin: bool,
)
    requires
        laid(initial, segments, from, to, fin),
        0 <= from <= to,
        1 <= to,
        fin ==> to >= 2,
    ensures
        payload_sum(segments) == payload_place(to, to, fin) - payload_place(from, to, fin),
    decreases segments.len(),
{
    if segments.len() > 0 {
        let first = segments[0];
        lemma_payload_between(initial, segments.drop_first(), from + first.span(), to, fin);
    }
}

/// Whether an acknowledgment covers a segment is a matter of their places, and
/// what it does not cover stands behind it.
proof fn lemma_trimmed_place(initial: u32, segment: SentSegment, from: int, at: int)
    requires
        0 <= from <= at,
        at < 0x8000_0000,
        from + segment.span() < 0x8000_0000,
        segment.span() > 0,
        segment.sequence == advanced(initial, from),
        segment.syn == (from == 0),
        0 < at,
    ensures
        segment.covered(advanced(initial, at)) == (from < at && from + segment.span() <= at),
        at < from + segment.span() ==> ({
            let rest = segment.trimmed(advanced(initial, at));
            &&& rest.sequence == advanced(initial, at)
            &&& !rest.syn
            &&& rest.fin == segment.fin
            &&& rest.span() == from + segment.span() - at
        }),
{
    lemma_places(initial, from, at);
    lemma_places(initial, at, from + segment.span());
    lemma_advanced_twice(initial, from, segment.span());
}

/// An acknowledgment leaves the segments behind its place, without a gap.
proof fn lemma_acknowledged_laid(
    initial: u32,
    segments: Seq<SentSegment>,
    from: int,
    at: int,
    to: int,
    fin: bool,
)
    requires
        laid(initial, segments, from, to, fin),
        0 <= from <= at <= to < 0x8000_0000,
        0 < at,
    ensures
        laid(initial, acknowledged(segments, advanced(initial, at)), at, to, fin),
    decreases segments.len(),
{
    let acknowledgment = advanced(initial, at);
    if segments.len() > 0 {
        let first = segments[0];
        let end = from + first.span();
        lemma_trimmed_place(initial, first, from, at);
        if first.covered(acknowledgment) {
            lemma_acknowledged_laid(initial, segments.drop_first(), end, at, to, fin);
        } else {
            let rest = first.trimmed(acknowledgment);
            let all = segments.update(0, rest);
            assert(all.drop_first() =~= segments.drop_first());
            assert(all[0] == rest);
            assert(laid(initial, segments.drop_first(), end, to, fin));
        }
    }
}

/// The payload that an acknowledgment moves over, by its places.
proof fn lemma_newly_acked(flow: FlowState, previous: u32)
    requires
        ({
            let from = ahead(flow.local_initial, previous);
            let at = ahead(flow.local_initial, flow.local_unacked);
            let to = ahead(flow.local_initial, flow.local_next);
            &&& from < at <= to < 0x8000_0000
            &&& match flow.local_fin_sequence {
                Some(sequence) => to >= 2 && sequence == advanced(flow.local_initial, to - 1),
                None => true,
            }
        }),
    ensures
        ({
            let from = ahead(flow.local_initial, previous);
            let at = ahead(flow.local_initial, flow.local_unacked);
            let to = ahead(flow.local_initial, flow.local_next);
            let fin = flow.local_fin_sequence is Some;
            flow.newly_acked(previous) == payload_place(at, to, fin) - payload_place(from, to, fin)
        }),
{
    let initial = flow.local_initial;
    let from = ahead(initial, previous);
    let at = ahead(initial, flow.local_unacked);
    let to = ahead(initial, flow.local_next);
    let end = to - one_if(flow.local_fin_sequence is Some);
    let low = if from < 1 {
        1
    } else {
        from
    };
    let high = if end < at {
        end
    } else {
        at
    };
    assert(previous == advanced(initial, from));
    assert(flow.local_unacked == advanced(initial, at));
    assert(flow.local_next == advanced(initial, to));
    lemma_places(initial, from, 1);
    lemma_places(initial, end, at);
    lemma_places(initial, low, high);
}

/// An acknowledgment that moves the flow on lies in what is in flight.
proof fn lemma_acknowledged_place(flow: FlowState, acknowledgment: u32)
    requires
        ahead(flow.local_initial, flow.local_unacked) <= ahead(
            flow.local_initial,
            flow.local_next,
        ) < 0x8000_0000,
        ahead(flow.local_unacked, acknowledgment) != 0x8000_0000,
        ahead(acknowledgment, flow.local_next) != 0x8000_0000,
        flow.acknowledged(acknowledgment).local_unacked != flow.local_unacked,
    ensures
        acknowledgment == advanced(
            flow.local_initial,
            ahead(flow.local_initial, acknowledgment),
        ),
        flow.acknowledged(acknowledgment).local_unacked == acknowledgment,
        ahead(flow.local_initial, flow.local_unacked) < ahead(flow.local_initial, acknowledgment)
            <= ahead(flow.local_initial, flow.local_next),
{
    let unacked = flow.local_unacked;
    let next = flow.local_next;
    let first = ahead(unacked, acknowledgment);
    let second = ahead(acknowledgment, next);
    lemma_ahead_advances(flow.local_initial, acknowledgment);
    lemma_step_is_short(unacked, acknowledgment);
    assert(0 <= second < 0x8000_0000) by {
        if acknowledgment != next {
            lemma_step_is_short(acknowledgment, next);
        }
    }
    lemma_steps_add_up(unacked, acknowledgment, next);
    lemma_steps_add_up(flow.local_initial, unacked, acknowledgment);
    lemma_difference(flow.local_initial, unacked, next);
}

/// An acknowledgment in what is in flight frees exactly the payload octets that
/// the segments no longer hold, and what is left is still without a gap; one
/// outside of it frees nothing.
pub proof fn law_acknowledgment_frees_what_it_covers(
    flow: FlowState,
    segments: Seq<SentSegment>,
    acknowledgment: u32,
)
    requires
        carried(flow, segments),
        ahead(flow.local_unacked, acknowledgment) != 0x8000_0000,
        ahead(acknowledgment, flow.local_next) != 0x8000_0000,
    ensures
        ({
            let later = flow.acknowledged(acknowledgment);
            let moved = later.local_unacked != flow.local_unacked;
            let left = if moved {
                acknowledged(segments, later.local_unacked)
            } else {
                segments
            };
            &&& carried(later, left)
            &&& moved ==> payload_sum(segments) == payload_sum(left) + later.newly_acked(
                flow.local_unacked,
            )
        }),
{
    let later = flow.acknowledged(acknowledgment);
    let initial = flow.local_initial;
    let from = ahead(initial, flow.local_unacked);
    let to = ahead(initial, flow.local_next);
    let fin = flow.local_fin_sequence is Some;
    if later.local_unacked != flow.local_unacked {
        let at = ahead(initial, acknowledgment);
        lemma_acknowledged_place(flow, acknowledgment);
        lemma_acknowledged_laid(initial, segments, from, at, to, fin);
        lemma_payload_between(initial, segments, from, to, fin);
        lemma_payload_between(initial, acknowledged(segments, acknowledgment), at, to, fin);
        lemma_newly_acked(later, flow.local_unacked);
    }
}

/// A segment from the namespace, whatever else it carries, frees exactly the
/// payload octets that it acknowledges: as many are dropped from the upstream
/// socket as the segments in flight lose.
pub proof fn law_segment_frees_what_it_acknowledges(
    flow: FlowState,
    segments: Seq<SentSegment>,
    fields: SegmentFields,
)
    requires
        carried(flow, segments),
        !fields.rst,
        fields.acknowledgment matches Some(acknowledgment) ==> {
            &&& ahead(flow.local_unacked, acknowledgment) != 0x8000_0000
            &&& ahead(acknowledgment, flow.local_next) != 0x8000_0000
        },
    ensures
        ({
            let later = received(flow, fields).0;
            let moved = later.local_unacked != flow.local_unacked;
            let left = if moved {
                acknowledged(segments, later.local_unacked)
            } else {
                segments
            };
            let discard = if moved {
                later.newly_acked(flow.local_unacked)
            } else {
                0
            };
            &&& carried(later, left)
            &&& payload_sum(segments) == payload_sum(left) + discard
        }),
{
    match fields.acknowledgment {
        Some(acknowledgment) => {
            law_acknowledgment_frees_what_it_covers(flow, segments, acknowledgment);
            let moved = flow.acknowledged(acknowledgment);
            let later = received(flow, fields).0;
            assert(later.local_unacked == moved.local_unacked);
            assert(later.local_next == moved.local_next);
            assert(later.local_fin_sequence == moved.local_fin_sequence);
            assert(later.local_initial == moved.local_initial);
        },
        None => {},
    }
}

/// A segment behind the others makes them reach further.
proof fn lemma_laid_push(
    initial: u32,
    segments: Seq<SentSegment>,
    from: int,
    to: int,
    segment: SentSegment,
)
    requires
        laid(initial, segments, from, to, false),
        0 <= from <= to,
        segment.sequence == advanced(initial, to),
        segment.span() > 0,
        segment.syn == (to == 0),
    ensures
        laid(initial, segments.push(segment), from, to + segment.span(), segment.fin),
    decreases segments.len(),
{
    let all = segments.push(segment);
    if segments.len() == 0 {
        let end = to + segment.span();
        assert(all.drop_first() =~= segments);
        assert(laid(initial, segments, end, end, segment.fin));
        assert(all[0] == segment);
    } else {
        let end = from + segments[0].span();
        assert(all[0] == segments[0]);
        assert(all.drop_first() =~= segments.drop_first().push(segment));
        lemma_ends_within(initial, segments.drop_first(), end, to, false);
        lemma_laid_push(initial, segments.drop_first(), end, to, segment);
    }
}

proof fn lemma_ends_within(
    initial: u32,
    segments: Seq<SentSegment>,
    from: int,
    to: int,
    fin: bool,
)
    requires
        laid(initial, segments, from, to, fin),
    ensures
        from <= to,
    decreases segments.len(),
{
}

/// The segment that a sent plan leaves to be sent again.
pub open spec fn segment_of(plan: SendPlan, now: Instant) -> SentSegment {
    SentSegment {
        sequence: plan.sequence,
        payload_len: plan.length,
        syn: plan.syn,
        fin: plan.fin,
        last_sent: now,
        retransmit_timeout: RETRANSMIT_INITIAL,
        retries: 0,
    }
}

/// Payload or a FIN that is sent behind what is in flight extends it without a
/// gap, and its octets are held until they are acknowledged.
pub proof fn law_sending_extends_the_stream(
    flow: FlowState,
    segments: Seq<SentSegment>,
    plan: SendPlan,
    now: Instant,
)
    requires
        carried(flow, segments),
        flow.local_fin_sequence is None,
        plan.sequence == flow.local_next,
        !plan.syn,
        plan.length > 0 || plan.fin,
        ahead(flow.local_initial, flow.local_next) + plan.length + 1 < 0x8000_0000,
    ensures
        commits(flow, plan),
        carried(after_send(flow, plan), segments.push(segment_of(plan, now))),
        payload_sum(segments.push(segment_of(plan, now))) == payload_sum(segments) + plan.length,
{
    let initial = flow.local_initial;
    let from = ahead(initial, flow.local_unacked);
    let to = ahead(initial, flow.local_next);
    let segment = segment_of(plan, now);
    let later = after_send(flow, plan);
    let end = to + segment.span();
    lemma_ahead_advances(initial, flow.local_next);
    lemma_laid_push(initial, segments, from, to, segment);
    lemma_payload_sum_push(segments, segment);
    lemma_places(initial, to, end);
    lemma_places(initial, end, end);
    lemma_advanced_twice(initial, to, plan.length as int);
    lemma_advanced_twice(initial, to + plan.length, 1);
    assert(plan.length as u32 == plan.length);
    assert(later.local_next == advanced(initial, end));
}

/// The answer to the SYN of the namespace is the first segment of the stream.
pub proof fn law_syn_ack_starts_the_stream(flow: FlowState, plan: SendPlan, now: Instant)
    requires
        flow.local_unacked == flow.local_initial,
        flow.local_next == advanced(flow.local_initial, 1),
        flow.local_fin_sequence is None,
        plan.sequence == flow.local_initial,
        plan.syn,
        !plan.fin,
        plan.length == 0,
    ensures
        commits(flow, plan),
        carried(after_send(flow, plan), seq![segment_of(plan, now)]),
{
    let segments = seq![segment_of(plan, now)];
    assert(segments.drop_first() =~= Seq::empty());
    assert(laid(flow.local_initial, Seq::empty(), 1, 1, false));
    assert(ahead(flow.local_initial, flow.local_next) == 1);
    assert(segments[0].span() == 1);
}

/// Payload of the namespace goes upstream in order and whole: what the upstream
/// socket has taken and what waits for it are together the stream so far, before
/// and after more of it came. A socket that takes new payload while older payload
/// waits changes the order, and is left out.
pub proof fn law_payload_goes_upstream_in_order(
    before: (FlowEntry, Ledger),
    after: (FlowEntry, Ledger),
    taken: Seq<u8>,
    payload: Seq<u8>,
    sent: Option<usize>,
)
    requires
        payload_submitted(before, after, payload, sent, true),
        taken_now(sent) <= payload.len(),
        before.0.pending_socket.waiting().len() > 0 ==> taken_now(sent) == 0,
    ensures
        taken + payload.take(taken_now(sent)) + after.0.pending_socket.waiting() == taken
            + before.0.pending_socket.waiting() + payload,
{
    let count = taken_now(sent);
    let older = before.0.pending_socket.waiting();
    assert(payload.take(count) + payload.skip(count) =~= payload);
    if older.len() > 0 {
        assert(payload.take(count) =~= Seq::empty());
    } else {
        assert(older =~= Seq::empty());
    }
    assert(taken + payload.take(count) + after.0.pending_socket.waiting() =~= taken + older
        + payload);
}

/// What waits for the upstream socket goes on to it in order and whole.
pub proof fn law_waiting_payload_goes_upstream_in_order(
    before: (FlowEntry, Ledger),
    after: (FlowEntry, Ledger),
    taken: Seq<u8>,
    sent: usize,
)
    requires
        queue_flushed(before, after, SendOutcome::Sent(sent), FlushStep::Stop),
    ensures
        ({
            let count = taken_first(before.0.pending_socket, sent);
            let waiting = before.0.pending_socket.waiting();
            taken + waiting.take(count) + after.0.pending_socket.waiting() == taken + waiting
        }),
{
    let count = taken_first(before.0.pending_socket, sent);
    let waiting = before.0.pending_socket.waiting();
    assert(0 <= count <= waiting.len());
    assert(waiting.take(count) + waiting.skip(count) =~= waiting);
    assert(taken + waiting.take(count) + waiting.skip(count) =~= taken + waiting);
}

} // verus!
