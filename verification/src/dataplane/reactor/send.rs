//! Upstream data on its way to the namespace.

use super::entry::FlowEntry;
use super::frame::{Error, GSO_MAX_L3_BYTES, payload_start, tcp_payload_offset};
use super::ledger::Ledger;
use super::metrics::{Metrics, count, counted, less};
use super::segment::{payload_sum, retained_payload};
use crate::packet::tcp::{TCP_MIN_HEADER_LEN, TcpFlags};
use crate::tcp_adapter::flow::{FlowKey, SendPlan, State, min};
use vstd::prelude::*;

verus! {

/// Whether data may go to the namespace in this state.
pub open spec fn sends(state: State) -> bool {
    state == State::Established || state == State::NamespaceFinReceived
}

/// The most octets that one frame carries: a segment, or with offload as many
/// as the largest packet holds.
pub open spec fn frame_payload_limit(offload: bool, v4: bool, mss: u16) -> int {
    if offload {
        GSO_MAX_L3_BYTES - (if v4 {
            20int
        } else {
            40
        }) - TCP_MIN_HEADER_LEN
    } else {
        mss as int
    }
}

/// What is done about data in the upstream socket.
#[derive(Clone, Copy, Debug, PartialEq, Eq, Structural)]
pub enum ReadDecision {
    /// Nothing is read now.
    Stop,
    /// Up to `limit` octets are read behind the first `offset`, which were sent
    /// and are not acknowledged.
    Read { offset: usize, limit: usize },
}

/// What one step of forwarding decides, and what it counts.
pub open spec fn read_decision(
    entry: FlowEntry,
    ledger: Ledger,
    offload: bool,
    frames_available: nat,
    frame_waits: bool,
) -> (ReadDecision, Metrics) {
    let room = less(ledger.max_retained as int, ledger.retained as int);
    let flow = entry.flow@;
    if frames_available == 0 {
        (
            ReadDecision::Stop,
            Metrics {
                frame_pool_exhaustions: counted(ledger.metrics.frame_pool_exhaustions),
                ..ledger.metrics
            },
        )
    } else if frame_waits || !sends(flow.state) || flow.room() == 0 {
        (ReadDecision::Stop, ledger.metrics)
    } else if room == 0 {
        (
            ReadDecision::Stop,
            Metrics {
                retained_limit_hits: counted(ledger.metrics.retained_limit_hits),
                ..ledger.metrics
            },
        )
    } else {
        (
            ReadDecision::Read {
                offset: payload_sum(entry.sent_segments@) as usize,
                limit: min(
                    min(
                        frame_payload_limit(
                            offload,
                            entry.construction.sides().unwrap().key().target.ip is V4,
                            flow.mss,
                        ),
                        flow.room(),
                    ),
                    room,
                ) as usize,
            },
            ledger.metrics,
        )
    }
}

/// Decides whether and how much to read from the upstream socket next.
pub fn plan_socket_read(
    entry: &FlowEntry,
    ledger: &mut Ledger,
    offload: bool,
    frames_available: usize,
    frame_waits: bool,
) -> (result: Result<ReadDecision, Error>)
    requires
        entry.wf(),
        old(ledger).wf(),
    ensures
        final(ledger).wf(),
        match result {
            Ok(decision) => {
                let expected = read_decision(
                    *entry,
                    *old(ledger),
                    offload,
                    frames_available as nat,
                    frame_waits,
                );
                &&& frames_available == 0 || frame_waits || entry.construction.sides() is Some
                &&& decision == expected.0
                &&& *final(ledger) == (Ledger { metrics: expected.1, ..*old(ledger) })
            },
            Err(error) => {
                &&& frames_available > 0 && !frame_waits
                &&& entry.construction.sides() is None
                &&& error == Error::Invariant("inactive flow reached socket reader")
                &&& *final(ledger) == *old(ledger)
            },
        },
{
    if frames_available == 0 {
        ledger.metrics.frame_pool_exhaustions = count(ledger.metrics.frame_pool_exhaustions);
        return Ok(ReadDecision::Stop);
    }
    if frame_waits {
        return Ok(ReadDecision::Stop);
    }
    let key = match entry.construction.active_sides() {
        Some(sides) => sides.namespace_key(),
        None => return Err(Error::Invariant("inactive flow reached socket reader")),
    };
    let window: usize = entry.flow.available_namespace_window();
    let state = entry.flow.state();
    if !matches!(state, State::Established | State::NamespaceFinReceived) || window == 0 {
        return Ok(ReadDecision::Stop);
    }
    let retained_available: usize = ledger.max_retained.saturating_sub(ledger.retained);
    if retained_available == 0 {
        ledger.metrics.retained_limit_hits = count(ledger.metrics.retained_limit_hits);
        return Ok(ReadDecision::Stop);
    }
    let max_send: usize = if offload {
        let ip_header_len: usize = if key.target.is_ipv4() {
            20
        } else {
            40
        };
        GSO_MAX_L3_BYTES - ip_header_len - TCP_MIN_HEADER_LEN
    } else {
        entry.flow.mss() as usize
    };
    let mut limit: usize = if max_send <= window {
        max_send
    } else {
        window
    };
    if retained_available < limit {
        limit = retained_available;
    }
    Ok(ReadDecision::Read { offset: retained_payload(&entry.sent_segments), limit })
}

/// What a look into the upstream socket found.
#[derive(Clone, Copy, Debug, PartialEq, Eq, Structural)]
pub enum Peeked {
    Data { length: usize },
    Eof,
    WouldBlock,
}

/// What the octets behind `offset` mean: none at all is the end of the stream,
/// unless octets in front of them are still to be acknowledged.
pub open spec fn peeked_as(offset: usize, read: Option<usize>) -> Peeked {
    match read {
        None => Peeked::WouldBlock,
        Some(length) => if length > 0 {
            Peeked::Data { length }
        } else if offset == 0 {
            Peeked::Eof
        } else {
            Peeked::WouldBlock
        },
    }
}

/// Tells what a read behind `offset` found.
#[must_use]
pub fn classify_peek(offset: usize, read: Option<usize>) -> (peeked: Peeked)
    ensures
        peeked == peeked_as(offset, read),
{
    match read {
        None => Peeked::WouldBlock,
        Some(length) => if length > 0 {
            Peeked::Data { length }
        } else if offset == 0 {
            Peeked::Eof
        } else {
            Peeked::WouldBlock
        },
    }
}

/// Where payload is looked for in the upstream socket, and how many octets a
/// frame for it has to hold.
pub fn plan_peek(offload: bool, key: FlowKey, offset: usize, limit: usize) -> (result: Result<
    (i32, usize),
    Error,
>)
    requires
        payload_start(offload, key, None, None) + limit <= usize::MAX,
    ensures
        match result {
            Ok((at, required)) => {
                &&& at == offset
                &&& required == payload_start(offload, key, None, None) + limit
            },
            Err(error) => {
                &&& offset > i32::MAX
                &&& error == Error::Invariant("socket peek offset exceeds i32")
            },
        },
{
    if offset > 0x7fff_ffff {
        return Err(Error::Invariant("socket peek offset exceeds i32"));
    }
    Ok((offset as i32, tcp_payload_offset(offload, key, None, None) + limit))
}

/// How many octets of payload a frame takes: no more than asked for, and no
/// more than lie behind its headers.
#[must_use]
pub fn peek_room(capacity: usize, start: usize, limit: usize) -> (room: usize)
    ensures
        room == min(limit as int, less(capacity as int, start as int)),
{
    let behind: usize = capacity.saturating_sub(start);
    if limit <= behind {
        limit
    } else {
        behind
    }
}

/// The plan for the next `length` octets or the FIN.
pub open spec fn next_plan(entry: FlowEntry, length: usize, fin: bool) -> SendPlan {
    SendPlan {
        sequence: entry.flow@.local_next,
        acknowledgment: entry.flow@.namespace_acked,
        length,
        syn: false,
        fin,
    }
}

/// Plans the FIN for the namespace, once the upstream stream has ended.
pub fn plan_fin(entry: &FlowEntry) -> (plan: SendPlan)
    ensures
        plan == next_plan(*entry, 0, true),
{
    match entry.flow.plan_send(0, true) {
        Some(plan) => plan,
        None => SendPlan {
            sequence: entry.flow.local_next(),
            acknowledgment: entry.flow.namespace_ack(),
            length: 0,
            syn: false,
            fin: true,
        },
    }
}

/// Plans a frame with `length` octets, of which `last_byte` is the last: it is
/// kept to ask a closed window again. Without offload a frame carries at most
/// one segment.
pub fn plan_data(entry: &mut FlowEntry, offload: bool, length: usize, last_byte: u8) -> (result:
    Result<SendPlan, Error>)
    requires
        old(entry).wf(),
    ensures
        final(entry).wf(),
        match result {
            Ok(plan) => {
                &&& length <= old(entry).flow@.room()
                &&& offload || length <= old(entry).flow@.mss
                &&& plan == next_plan(*old(entry), length, false)
                &&& *final(entry) == (FlowEntry {
                    last_namespace_byte: Some(last_byte),
                    ..*old(entry)
                })
            },
            Err(error) => {
                &&& length > old(entry).flow@.room() || (!offload && length > old(entry).flow@.mss)
                &&& error == Error::Invariant("unable to plan TCP payload")
                &&& *final(entry) == *old(entry)
            },
        },
{
    let planned = if offload {
        entry.flow.plan_offloaded_send(length)
    } else {
        entry.flow.plan_send(length, false)
    };
    match planned {
        Some(plan) => {
            entry.last_namespace_byte = Some(last_byte);
            Ok(plan)
        },
        None => Err(Error::Invariant("unable to plan TCP payload")),
    }
}

/// What is read within a decision can be sent: it fits the namespace window, the
/// segment size and the limit on held bytes.
pub proof fn law_read_data_can_be_sent(
    entry: FlowEntry,
    ledger: Ledger,
    offload: bool,
    frames_available: nat,
    length: int,
)
    requires
        ledger.wf(),
        read_decision(entry, ledger, offload, frames_available, false).0 matches ReadDecision::Read {
            limit,
            ..
        } && 0 <= length <= limit,
    ensures
        length <= entry.flow@.room(),
        offload || length <= entry.flow@.mss,
        ledger.admits(length),
{
}

/// Data is read for the namespace while the flow is open toward it, its window has
/// room, no earlier frame of it waits, and the limit on held bytes leaves room: as
/// much as all of them and one frame admit, from behind what is in flight.
pub proof fn law_data_is_read_while_there_is_room(
    entry: FlowEntry,
    ledger: Ledger,
    offload: bool,
    frames_available: nat,
    frame_waits: bool,
)
    requires
        entry.wf(),
        entry.construction.sides() is Some,
        ledger.retained <= ledger.max_retained,
    ensures
        ({
            let decision = read_decision(entry, ledger, offload, frames_available, frame_waits).0;
            let state = entry.flow@.state;
            let may = frames_available > 0 && !frame_waits && (state == State::Established || state
                == State::NamespaceFinReceived) && entry.flow@.room() > 0 && ledger.retained
                < ledger.max_retained;
            let frame: int = if !offload {
                entry.flow@.mss as int
            } else if entry.construction.sides().unwrap().initiating.local_endpoint.ip is V4 {
                65535 - 20 - 20
            } else {
                65535 - 40 - 20
            };
            let held = ledger.max_retained - ledger.retained;
            match decision {
                ReadDecision::Stop => !may,
                ReadDecision::Read { offset, limit } => {
                    &&& may
                    &&& offset == payload_sum(entry.sent_segments@)
                    &&& limit <= entry.flow@.room() && limit <= held && limit <= frame
                    &&& limit == entry.flow@.room() || limit == held || limit == frame
                },
            }
        }),
{
}

/// Octets are data; none at all is the end of the stream only where nothing in front
/// of them is still held, and a socket that would block says nothing.
pub proof fn law_end_of_stream_is_seen_at_its_front(offset: usize, length: usize)
    ensures
        peeked_as(offset, None) == Peeked::WouldBlock,
        length > 0 ==> peeked_as(offset, Some(length)) == (Peeked::Data { length }),
        peeked_as(0, Some(0)) == Peeked::Eof,
        offset > 0 ==> peeked_as(offset, Some(0)) == Peeked::WouldBlock,
{
}

/// What is sent next comes behind everything sent before, and acknowledges what the
/// namespace is to be told.
pub proof fn law_next_plan_continues_the_stream(entry: FlowEntry, length: usize, fin: bool)
    ensures
        ({
            let plan = next_plan(entry, length, fin);
            &&& plan.sequence == entry.flow@.local_next
            &&& plan.acknowledgment == entry.flow@.namespace_acked
            &&& plan.length == length
            &&& plan.fin == fin
            &&& !plan.syn
        }),
{
}

/// Without offload a frame carries one segment; with it, what a packet of 65535
/// octets leaves behind its headers. Data goes to the namespace until this side
/// has ended the stream.
pub proof fn law_frame_carries_a_segment_or_a_packet(mss: u16, state: State)
    ensures
        frame_payload_limit(false, true, mss) == mss,
        frame_payload_limit(false, false, mss) == mss,
        frame_payload_limit(true, true, mss) == 65_495,
        frame_payload_limit(true, false, mss) == 65_475,
        sends(state) <==> state == State::Established || state == State::NamespaceFinReceived,
{
}

} // verus!
