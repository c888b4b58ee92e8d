//! Upstream payload on its way into frames. It is read out of the socket and
//! stays in it until the namespace has acknowledged it.

use super::entry::FlowEntry;
use super::frame::{Error, Link, payload_start, tcp_payload_offset};
use super::ledger::Ledger;
use super::metrics::Metrics;
use super::pools::PooledFrame;
use super::recovery::{
    RetransmitRequest, control_again, payload_again, retransmit_fault, retransmit_payload,
    retransmit_request, segment_flags,
};
use super::send::{
    Peeked, classify_peek, next_plan, peek_room, peeked_as, plan_data, plan_peek,
};
use super::sending::{
    data_flags, fin_flags, flow_frame_sent, frame_given_back, payload_flags, payload_frame_sent,
    send_fin, send_flow_frame, send_payload_frame,
};
use super::tap::{Offer, TapOutput};
use crate::dataplane::flow_table::FlowId;
use crate::tcp_adapter::flow::min;
use vstd::prelude::*;

verus! {

/// Where the payload of a flow's frames begins.
pub open spec fn flow_payload_start(entry: FlowEntry, offload: bool) -> int {
    payload_start(offload, entry.construction.sides().unwrap().key(), None, None)
}

/// A frame that payload is to be read into: `room` octets from `start`, behind
/// the first `offset` octets in the upstream socket.
pub struct Look {
    pub frame: PooledFrame,
    pub start: usize,
    pub room: usize,
    pub offset: i32,
}

/// Why there is no frame to read into, if there is none.
pub open spec fn look_refusal(
    output: TapOutput,
    entry: FlowEntry,
    offload: bool,
    offset: usize,
    limit: usize,
) -> Option<Error> {
    let wanted = (flow_payload_start(entry, offload) + limit) as usize;
    if entry.construction.sides() is None {
        Some(Error::Invariant("inactive flow reached socket reader"))
    } else if offset > i32::MAX {
        Some(Error::Invariant("socket peek offset exceeds i32"))
    } else if output.pools().tier_for(wanted) is None {
        Some(Error::Invariant("TAP frame pool exhausted"))
    } else {
        None
    }
}

/// Takes a frame for up to `limit` octets of upstream payload.
pub fn prepare_peek(
    output: &mut TapOutput,
    metrics: &mut Metrics,
    entry: &FlowEntry,
    offload: bool,
    offset: usize,
    limit: usize,
) -> (result: Result<Look, Error>)
    requires
        old(output).wf(),
        entry.construction.sides() is Some ==> {
            let start = flow_payload_start(*entry, offload);
            &&& start + limit <= usize::MAX
            &&& old(output).pools().tier_for((start + limit) as usize) matches Some(tier)
                ==> start <= old(output).pools().room(tier)
        },
    ensures
        final(output).wf(),
        final(output).queue() == old(output).queue(),
        final(output).drops() == old(output).drops(),
        ({
            let start = flow_payload_start(*entry, offload);
            let wanted = (start + limit) as usize;
            let refusal = look_refusal(*old(output), *entry, offload, offset, limit);
            let asked = entry.construction.sides() is Some && offset <= i32::MAX;
            &&& *final(metrics) == if asked {
                old(output).pools().acquire_metrics(wanted, *old(metrics))
            } else {
                *old(metrics)
            }
            &&& match result {
                Ok(look) => {
                    &&& refusal is None
                    &&& old(output).pools().tier_for(wanted) == Some(look.frame.tier)
                    &&& final(output).pools().lending(&old(output).pools(), &look.frame)
                    &&& final(output).handed_out(&look.frame)
                    &&& look.start == start
                    &&& look.room == min(
                        limit as int,
                        old(output).pools().room(look.frame.tier) - start,
                    )
                    &&& look.offset == offset
                },
                Err(error) => {
                    &&& refusal == Some(error)
                    &&& final(output).pools() == old(output).pools()
                },
            }
        }),
{
    let key = match entry.construction.active_sides() {
        Some(sides) => sides.namespace_key(),
        None => return Err(Error::Invariant("inactive flow reached socket reader")),
    };
    let start: usize = tcp_payload_offset(offload, key, None, None);
    let (at, wanted) = plan_peek(offload, key, offset, limit)?;
    match output.acquire(wanted, metrics) {
        Some(frame) => {
            assert(output.pools().room(frame.tier) == old(output).pools().room(frame.tier));
            let room: usize = peek_room(frame.buffer.capacity(), start, limit);
            Ok(Look { frame, start, room, offset: at })
        },
        None => Err(Error::Invariant("TAP frame pool exhausted")),
    }
}

/// What a look into the upstream socket brought.
pub enum PeekedFrame {
    /// `length` octets in the frame, where its payload begins.
    Data { frame: PooledFrame, length: usize },
    /// The upstream stream has ended.
    Eof,
    WouldBlock,
}

impl PeekedFrame {
    pub open spec fn found(&self) -> Peeked {
        match self {
            PeekedFrame::Data { length, .. } => Peeked::Data { length: *length },
            PeekedFrame::Eof => Peeked::Eof,
            PeekedFrame::WouldBlock => Peeked::WouldBlock,
        }
    }

    /// Whether the frame, if there is one, is out of the pools, and its payload
    /// lies within it.
    pub open spec fn wf(&self, output: TapOutput, entry: FlowEntry, offload: bool) -> bool {
        match self {
            PeekedFrame::Data { frame, length } => {
                &&& output.handed_out(frame)
                &&& entry.construction.sides() is Some
                &&& *length > 0
                &&& flow_payload_start(entry, offload) + *length <= frame.buffer.storage().len()
            },
            _ => true,
        }
    }
}

/// Settles a read of payload into `frame`, which is taken back if nothing came.
pub fn settle_peek(
    output: &mut TapOutput,
    frame: PooledFrame,
    offset: usize,
    read: Option<usize>,
) -> (peeked: PeekedFrame)
    requires
        old(output).wf(),
        old(output).handed_out(&frame),
    ensures
        final(output).wf(),
        peeked.found() == peeked_as(offset, read),
        match peeked {
            PeekedFrame::Data { frame: held, .. } => {
                &&& held == frame
                &&& *final(output) == *old(output)
            },
            _ => frame_given_back(*old(output), *final(output), frame),
        },
{
    match classify_peek(offset, read) {
        Peeked::Data { length } => PeekedFrame::Data { frame, length },
        Peeked::Eof => {
            output.release(frame);
            PeekedFrame::Eof
        },
        Peeked::WouldBlock => {
            output.release(frame);
            PeekedFrame::WouldBlock
        },
    }
}

/// Whether `length` octets can go to the namespace in one frame.
pub open spec fn fits_one_frame(entry: FlowEntry, offload: bool, length: usize) -> bool {
    length <= entry.flow@.room() && (offload || length <= entry.flow@.mss)
}

/// The flow once the last octet of a frame is known.
pub open spec fn with_last_octet(entry: FlowEntry, octet: u8) -> FlowEntry {
    FlowEntry { last_namespace_byte: Some(octet), ..entry }
}

/// Sends what was found in the upstream socket on its way to the namespace:
/// payload in its frame, the end of the stream as a FIN. Nothing is sent if
/// nothing was found.
pub fn forward_peeked(
    output: &mut TapOutput,
    ledger: &mut Ledger,
    link: &Link,
    entry: &mut FlowEntry,
    id: FlowId,
    peeked: PeekedFrame,
) -> (result: Result<Option<Offer>, Error>)
    requires
        old(output).wf(),
        old(ledger).wf(),
        old(entry).wf(),
        peeked.wf(*old(output), *old(entry), link.offload),
    ensures
        final(output).wf(),
        final(ledger).wf(),
        final(entry).wf(),
        ({
            let before = (*old(output), *old(ledger));
            let after = (*final(output), *final(ledger));
            match peeked {
                PeekedFrame::WouldBlock => {
                    &&& result == Ok::<Option<Offer>, Error>(None)
                    &&& after == before
                    &&& *final(entry) == *old(entry)
                },
                PeekedFrame::Eof => {
                    let plan = next_plan(*old(entry), 0, true);
                    &&& *final(entry) == *old(entry)
                    &&& result != Ok::<Option<Offer>, Error>(None)
                    &&& flow_frame_sent(
                        sent(result),
                        before,
                        after,
                        *link,
                        *old(entry),
                        Some(id),
                        plan,
                        fin_flags(),
                        Seq::empty(),
                        Some(plan),
                    )
                },
                PeekedFrame::Data { frame, length } => {
                    let start = flow_payload_start(*old(entry), link.offload);
                    let plan = next_plan(*old(entry), length, false);
                    if fits_one_frame(*old(entry), link.offload, length) {
                        &&& *final(entry) == with_last_octet(
                            *old(entry),
                            frame.buffer.storage()[start + length - 1],
                        )
                        &&& result != Ok::<Option<Offer>, Error>(None)
                        &&& payload_frame_sent(
                            sent(result),
                            before,
                            after,
                            *link,
                            *final(entry),
                            id,
                            frame,
                            plan,
                            data_flags(),
                            Some(plan),
                        )
                    } else {
                        &&& result == Err::<Option<Offer>, Error>(
                            Error::Invariant("unable to plan TCP payload"),
                        )
                        &&& *final(entry) == *old(entry)
                        &&& *final(ledger) == *old(ledger)
                        &&& frame_given_back(*old(output), *final(output), frame)
                    }
                },
            }
        }),
{
    match peeked {
        PeekedFrame::WouldBlock => Ok(None),
        PeekedFrame::Eof => match send_fin(output, ledger, link, entry, id) {
            Ok(offer) => Ok(Some(offer)),
            Err(error) => Err(error),
        },
        PeekedFrame::Data { frame, length } => {
            let start: usize = match entry.construction.active_sides() {
                Some(sides) => tcp_payload_offset(link.offload, sides.namespace_key(), None, None),
                None => 0,
            };
            let last_byte: u8 = frame.buffer.octet(start + length - 1);
            match plan_data(entry, link.offload, length, last_byte) {
                Ok(plan) => {
                    let sent = send_payload_frame(
                        output,
                        ledger,
                        link,
                        entry,
                        id,
                        frame,
                        plan,
                        payload_flags(),
                        Some(plan),
                    );
                    match sent {
                        Ok(offer) => Ok(Some(offer)),
                        Err(error) => Err(error),
                    }
                },
                Err(error) => {
                    output.release(frame);
                    Err(error)
                },
            }
        },
    }
}

/// The outcome of a send, where one was made.
pub open spec fn sent(result: Result<Option<Offer>, Error>) -> Result<Offer, Error> {
    match result {
        Ok(offer) => Ok(offer.unwrap()),
        Err(error) => Err(error),
    }
}

/// How the oldest segment is sent again.
pub enum Resend {
    /// Nothing is sent: a frame of the flow still waits, or all is acknowledged.
    Nothing,
    /// The segment has no payload, and is on its way.
    Offered(Offer),
    /// Its `length` octets are read from the upstream socket first.
    Read { length: usize },
}

/// Whether there is nothing to send again now.
pub open spec fn resend_idle(output: TapOutput, entry: FlowEntry, id: FlowId) -> bool {
    output.waits(id) || entry.sent_segments@.len() == 0
}

/// Begins to send the oldest segment again.
pub fn begin_retransmit(
    output: &mut TapOutput,
    ledger: &mut Ledger,
    link: &Link,
    entry: &FlowEntry,
    id: FlowId,
) -> (result: Result<Resend, Error>)
    requires
        old(output).wf(),
        old(ledger).wf(),
        entry.wf(),
    ensures
        final(output).wf(),
        final(ledger).wf(),
        ({
            let before = (*old(output), *old(ledger));
            let after = (*final(output), *final(ledger));
            let oldest = entry.sent_segments@[0];
            if resend_idle(*old(output), *entry, id) {
                &&& result == Ok::<Resend, Error>(Resend::Nothing)
                &&& after == before
            } else if entry.construction.sides() is None {
                &&& result == Err::<Resend, Error>(
                    Error::Invariant("inactive flow reached retransmit"),
                )
                &&& after == before
            } else if oldest.payload_len > 0 {
                &&& result == Ok::<Resend, Error>(Resend::Read { length: oldest.payload_len })
                &&& after == before
            } else {
                &&& result matches Ok(resend) ==> resend is Offered
                &&& flow_frame_sent(
                    match result {
                        Ok(resend) => Ok(resend->Offered_0),
                        Err(error) => Err(error),
                    },
                    before,
                    after,
                    *link,
                    *entry,
                    Some(id),
                    control_again(*entry),
                    segment_flags(oldest),
                    Seq::empty(),
                    None,
                )
            }
        }),
{
    let waits = output.frame_waits(id);
    match retransmit_request(entry, waits)? {
        RetransmitRequest::Nothing => Ok(Resend::Nothing),
        RetransmitRequest::Payload { length } => Ok(Resend::Read { length }),
        RetransmitRequest::Control { plan, flags } => {
            let nothing: [u8; 0] = [];
            assert(nothing@ =~= Seq::<u8>::empty());
            match send_flow_frame(
                output,
                ledger,
                link,
                entry,
                Some(id),
                plan,
                flags,
                &nothing,
                None,
            ) {
                Ok(offer) => Ok(Resend::Offered(offer)),
                Err(error) => Err(error),
            }
        },
    }
}

/// What became of payload that was read to be sent again.
pub enum Resent {
    Offered(Offer),
    /// The upstream socket no longer holds what was not acknowledged: the flow
    /// is to be failed.
    Broken(&'static str),
}

/// How many octets of payload the frame takes.
pub open spec fn payload_capacity(
    peeked: PeekedFrame,
    entry: FlowEntry,
    offload: bool,
) -> usize {
    match peeked {
        PeekedFrame::Data { frame, .. } => (frame.buffer.storage().len() - flow_payload_start(
            entry,
            offload,
        )) as usize,
        _ => 0,
    }
}

/// Sends the oldest segment again with the payload that was read for it.
pub fn retransmit_peeked(
    output: &mut TapOutput,
    ledger: &mut Ledger,
    link: &Link,
    entry: &FlowEntry,
    id: FlowId,
    peeked: PeekedFrame,
) -> (result: Result<Resent, Error>)
    requires
        old(output).wf(),
        old(ledger).wf(),
        entry.wf(),
        entry.sent_segments@.len() > 0,
        peeked.wf(*old(output), *entry, link.offload),
    ensures
        final(output).wf(),
        final(ledger).wf(),
        ({
            let before = (*old(output), *old(ledger));
            let after = (*final(output), *final(ledger));
            let capacity = payload_capacity(peeked, *entry, link.offload);
            let fault = retransmit_fault(entry.sent_segments@[0], peeked.found(), capacity);
            match fault {
                Some(reason) => {
                    &&& result == Ok::<Resent, Error>(Resent::Broken(reason))
                    &&& *final(ledger) == *old(ledger)
                    &&& match peeked {
                        PeekedFrame::Data { frame, .. } => frame_given_back(
                            *old(output),
                            *final(output),
                            frame,
                        ),
                        _ => *final(output) == *old(output),
                    }
                },
                None => {
                    let part = payload_again(*entry, capacity);
                    &&& result matches Ok(resent) ==> resent is Offered
                    &&& payload_frame_sent(
                        match result {
                            Ok(resent) => Ok(resent->Offered_0),
                            Err(error) => Err(error),
                        },
                        before,
                        after,
                        *link,
                        *entry,
                        id,
                        peeked->frame,
                        part.0,
                        part.1,
                        None,
                    )
                },
            }
        }),
{
    match peeked {
        PeekedFrame::WouldBlock => Ok(Resent::Broken("retained socket payload is unavailable")),
        PeekedFrame::Eof => Ok(Resent::Broken("retained socket payload reached EOF")),
        PeekedFrame::Data { frame, length } => {
            let start: usize = match entry.construction.active_sides() {
                Some(sides) => tcp_payload_offset(link.offload, sides.namespace_key(), None, None),
                None => 0,
            };
            let capacity: usize = frame.buffer.capacity() - start;
            match retransmit_payload(entry, Peeked::Data { length }, capacity) {
                Ok((plan, flags)) => match send_payload_frame(
                    output,
                    ledger,
                    link,
                    entry,
                    id,
                    frame,
                    plan,
                    flags,
                    None,
                ) {
                    Ok(offer) => Ok(Resent::Offered(offer)),
                    Err(error) => Err(error),
                },
                Err(reason) => {
                    output.release(frame);
                    Ok(Resent::Broken(reason))
                },
            }
        },
    }
}

/// Octets go in one frame if the namespace has room for them, and, where the kernel
/// does not cut them, if they are one segment.
pub proof fn law_one_frame_holds_what_fits(entry: FlowEntry, length: usize)
    ensures
        fits_one_frame(entry, true, length) <==> length <= entry.flow@.room(),
        fits_one_frame(entry, false, length) <==> length <= entry.flow@.room() && length
            <= entry.flow@.mss,
        forall|octet: u8|
            (#[trigger] with_last_octet(entry, octet)).last_namespace_byte == Some(octet)
                && with_last_octet(entry, octet).flow == entry.flow,
{
}

/// Nothing is sent again while a frame of the flow waits, or when all is
/// acknowledged; otherwise there is something.
pub proof fn law_resending_is_idle_without_segments(output: TapOutput, entry: FlowEntry, id: FlowId)
    ensures
        entry.sent_segments@.len() == 0 ==> resend_idle(output, entry, id),
        output.waits(id) ==> resend_idle(output, entry, id),
        entry.sent_segments@.len() > 0 && !output.waits(id) ==> !resend_idle(output, entry, id),
{
}

/// A frame is looked for with room for the headers and the payload that is
/// wanted. There is none exactly when the flow is not active, what is to be
/// skipped does not fit the kernel's number, or no frame is free.
pub proof fn law_frame_is_looked_for_by_its_size(
    output: TapOutput,
    entry: FlowEntry,
    offload: bool,
    offset: usize,
    limit: usize,
    headers: int,
)
    requires
        entry.construction.sides() is Some,
        headers == (if offload {
            10int
        } else {
            0
        }) + (if entry.construction.sides().unwrap().key().target.ip is V4 {
            54int
        } else {
            74
        }),
        headers + limit <= usize::MAX,
    ensures
        look_refusal(output, entry, offload, offset, limit) is None <==> offset <= 0x7fff_ffff
            && output.pools().tier_for((headers + limit) as usize) is Some,
{
}

} // verus!
