//! The frames of a flow, from what is known of it to the device.

use super::answer::{
    after_acquiring, carries, send_refusal, send_reset, send_tcp_frame, tcp_frame_sent,
};
use super::entry::FlowEntry;
use super::frame::{Error, Link};
use super::ledger::Ledger;
use super::metrics::{Metrics, counted};
use super::pools::PooledFrame;
use super::recovery::{plan_probe, probe_octet, probe_segment};
use super::reply::{finalize_payload_frame, reset_spec};
use super::send::{next_plan, plan_fin};
use super::tap::{Offer, TapOutput, held_by};
use super::window::{
    ack_plan, activate_flow, activated, flow_frame, flow_frame_spec, payload_frame,
    payload_frame_spec, syn_ack_plan,
};
use crate::dataplane::flow_table::FlowId;
use crate::packet::tcp::TcpFlags;
use crate::tcp_adapter::flow::SendPlan;
use vstd::prelude::*;

verus! {

/// The flags of a plain acknowledgment.
pub open spec fn ack_flags() -> TcpFlags {
    TcpFlags { fin: false, syn: false, rst: false, psh: false, ack: true }
}

/// The flags of the answer to a SYN.
pub open spec fn syn_ack_flags() -> TcpFlags {
    TcpFlags { fin: false, syn: true, rst: false, psh: false, ack: true }
}

/// The flags of a frame that ends the stream.
pub open spec fn fin_flags() -> TcpFlags {
    TcpFlags { fin: true, syn: false, rst: false, psh: false, ack: true }
}

/// The flags of a frame with payload.
pub open spec fn data_flags() -> TcpFlags {
    TcpFlags { fin: false, syn: false, rst: false, psh: true, ack: true }
}

/// The flags of a frame with payload.
#[must_use]
pub fn payload_flags() -> (flags: TcpFlags)
    ensures
        flags == data_flags(),
{
    TcpFlags { fin: false, syn: false, rst: false, psh: true, ack: true }
}

/// What sending a frame of a flow comes to: a flow that is not active has none,
/// otherwise it is that of any TCP frame.
pub open spec fn flow_frame_sent(
    result: Result<Offer, Error>,
    before: (TapOutput, Ledger),
    after: (TapOutput, Ledger),
    link: Link,
    entry: FlowEntry,
    flow: Option<FlowId>,
    plan: SendPlan,
    flags: TcpFlags,
    payload: Seq<u8>,
    tracked_plan: Option<SendPlan>,
) -> bool {
    if entry.construction.sides() is None {
        &&& result matches Err(error) && error == Error::Invariant(
            "inactive flow reached packet builder",
        )
        &&& after == before
    } else {
        tcp_frame_sent(
            result,
            before,
            after,
            link,
            flow,
            flow_frame(entry, plan, flags, payload.len() as usize),
            payload,
            tracked_plan,
        )
    }
}

/// Builds the frame of a flow for `plan` and sends it on its way. Its octets are
/// held until they are acknowledged if it is sent for the first time, so with a
/// plan to commit.
pub fn send_flow_frame(
    output: &mut TapOutput,
    ledger: &mut Ledger,
    link: &Link,
    entry: &FlowEntry,
    flow: Option<FlowId>,
    plan: SendPlan,
    flags: TcpFlags,
    payload: &[u8],
    tracked_plan: Option<SendPlan>,
) -> (result: Result<Offer, Error>)
    requires
        old(output).wf(),
        old(ledger).wf(),
    ensures
        final(output).wf(),
        final(ledger).wf(),
        flow_frame_sent(
            result,
            (*old(output), *old(ledger)),
            (*final(output), *final(ledger)),
            *link,
            *entry,
            flow,
            plan,
            flags,
            payload@,
            tracked_plan,
        ),
{
    let spec = match flow_frame_spec(entry, plan, flags, payload.len()) {
        Ok(spec) => spec,
        Err(error) => return Err(error),
    };
    send_tcp_frame(output, ledger, link, flow, spec, payload, tracked_plan)
}

/// Tells the namespace where the flow is.
pub fn send_ack(output: &mut TapOutput, ledger: &mut Ledger, link: &Link, entry: &FlowEntry) -> (
    result: Result<Offer, Error>)
    requires
        old(output).wf(),
        old(ledger).wf(),
    ensures
        final(output).wf(),
        final(ledger).wf(),
        flow_frame_sent(
            result,
            (*old(output), *old(ledger)),
            (*final(output), *final(ledger)),
            *link,
            *entry,
            None,
            next_plan(*entry, 0, false),
            ack_flags(),
            Seq::empty(),
            Some(next_plan(*entry, 0, false)),
        ),
{
    let plan = ack_plan(entry);
    let flags = TcpFlags { fin: false, syn: false, rst: false, psh: false, ack: true };
    let nothing: [u8; 0] = [];
    assert(nothing@ =~= Seq::<u8>::empty());
    send_flow_frame(output, ledger, link, entry, None, plan, flags, &nothing, Some(plan))
}

/// Answers the SYN of the namespace now that the upstream connection is there.
pub fn send_syn_ack(
    output: &mut TapOutput,
    ledger: &mut Ledger,
    link: &Link,
    entry: &mut FlowEntry,
    id: FlowId,
    bytes_acked: u64,
) -> (result: Result<Offer, Error>)
    requires
        old(output).wf(),
        old(ledger).wf(),
        old(entry).wf(),
    ensures
        final(output).wf(),
        final(ledger).wf(),
        final(entry).wf(),
        *final(entry) == (FlowEntry { flow: final(entry).flow, ..*old(entry) }),
        final(entry).flow@ == activated(*old(entry), *old(ledger), bytes_acked),
        ({
            let plan = syn_ack_plan(*old(entry));
            flow_frame_sent(
                result,
                (*old(output), *old(ledger)),
                (*final(output), *final(ledger)),
                *link,
                *final(entry),
                Some(id),
                plan,
                syn_ack_flags(),
                Seq::empty(),
                Some(plan),
            )
        }),
{
    let plan = activate_flow(entry, ledger, bytes_acked);
    let flags = TcpFlags { fin: false, syn: true, rst: false, psh: false, ack: true };
    let nothing: [u8; 0] = [];
    assert(nothing@ =~= Seq::<u8>::empty());
    send_flow_frame(output, ledger, link, entry, Some(id), plan, flags, &nothing, Some(plan))
}

/// Ends the stream to the namespace, as the upstream stream has ended.
pub fn send_fin(
    output: &mut TapOutput,
    ledger: &mut Ledger,
    link: &Link,
    entry: &FlowEntry,
    id: FlowId,
) -> (result: Result<Offer, Error>)
    requires
        old(output).wf(),
        old(ledger).wf(),
    ensures
        final(output).wf(),
        final(ledger).wf(),
        flow_frame_sent(
            result,
            (*old(output), *old(ledger)),
            (*final(output), *final(ledger)),
            *link,
            *entry,
            Some(id),
            next_plan(*entry, 0, true),
            fin_flags(),
            Seq::empty(),
            Some(next_plan(*entry, 0, true)),
        ),
{
    let plan = plan_fin(entry);
    let flags = TcpFlags { fin: true, syn: false, rst: false, psh: false, ack: true };
    let nothing: [u8; 0] = [];
    assert(nothing@ =~= Seq::<u8>::empty());
    send_flow_frame(output, ledger, link, entry, Some(id), plan, flags, &nothing, Some(plan))
}

/// Asks the namespace for its window with one octet that it knows or is about to
/// get.
pub fn send_probe(
    output: &mut TapOutput,
    ledger: &mut Ledger,
    link: &Link,
    entry: &FlowEntry,
    id: FlowId,
    socket_byte: u8,
) -> (result: Result<Offer, Error>)
    requires
        old(output).wf(),
        old(ledger).wf(),
        entry.wf(),
    ensures
        final(output).wf(),
        final(ledger).wf(),
        flow_frame_sent(
            result,
            (*old(output), *old(ledger)),
            (*final(output), *final(ledger)),
            *link,
            *entry,
            Some(id),
            probe_segment(*entry),
            data_flags(),
            seq![probe_octet(*entry, socket_byte)],
            None,
        ),
{
    let (plan, byte) = plan_probe(entry, socket_byte);
    let payload = [byte];
    assert(payload@ =~= seq![byte]);
    send_flow_frame(output, ledger, link, entry, Some(id), plan, payload_flags(), &payload, None)
}

/// The ledger once a frame was made ready, before it is sent.
pub open spec fn after_finishing(ledger: Ledger, segmented: bool) -> Ledger {
    Ledger {
        metrics: if segmented {
            Metrics {
                gso_frames_tx: counted(ledger.metrics.gso_frames_tx),
                ..ledger.metrics
            }
        } else {
            ledger.metrics
        },
        ..ledger
    }
}

/// What sending a frame with the payload that lies in it comes to. It is taken
/// back if the flow is not active, if its headers cannot be written, or if its
/// payload would be held beyond the limit; otherwise it is on its way.
pub open spec fn payload_frame_sent(
    result: Result<Offer, Error>,
    before: (TapOutput, Ledger),
    after: (TapOutput, Ledger),
    link: Link,
    entry: FlowEntry,
    id: FlowId,
    frame: PooledFrame,
    plan: SendPlan,
    flags: TcpFlags,
    tracked_plan: Option<SendPlan>,
) -> bool {
    let spec = payload_frame(entry, plan, flags, plan.length);
    let start = spec.start(link.offload);
    let payload = frame.buffer.storage().subrange(start, start + plan.length);
    let ready = after_finishing(before.1, spec.segmented(link.offload));
    let held = held_by(tracked_plan) as int;
    let active = entry.construction.sides() is Some;
    match result {
        Ok(offer) => {
            &&& active
            &&& spec.refusal(link.offload) is None
            &&& ready.admits(held) ==> {
                &&& carries(
                    offer,
                    before.0,
                    after.0,
                    Some(id),
                    tracked_plan,
                    spec.frame(link, payload),
                )
                &&& after.0.pools() == before.0.pools()
                &&& after.1 == ready.reserved(held)
            }
            &&& !ready.admits(held) ==> {
                &&& offer is Refused
                &&& frame_given_back(before.0, after.0, frame)
                &&& after.1 == ready.refused()
            }
        },
        Err(error) => {
            &&& active ==> spec.refusal(link.offload) is Some
            &&& error == if active {
                spec.refusal(link.offload).unwrap()
            } else {
                Error::Invariant("inactive flow reached packet builder")
            }
            &&& frame_given_back(before.0, after.0, frame)
            &&& after.1 == before.1
        },
    }
}

/// Whether nothing but the return of `frame` changed.
pub open spec fn frame_given_back(
    before: TapOutput,
    after: TapOutput,
    frame: PooledFrame,
) -> bool {
    &&& after.pools().given_back(&before.pools(), frame.tier, frame.pool_index)
    &&& after.queue() == before.queue()
    &&& after.drops() == before.drops()
}

/// Writes the headers before the payload that was read straight into `frame`,
/// and sends it on its way. A frame that cannot be is taken back.
pub fn send_payload_frame(
    output: &mut TapOutput,
    ledger: &mut Ledger,
    link: &Link,
    entry: &FlowEntry,
    id: FlowId,
    frame: PooledFrame,
    plan: SendPlan,
    flags: TcpFlags,
    tracked_plan: Option<SendPlan>,
) -> (result: Result<Offer, Error>)
    requires
        old(output).wf(),
        old(ledger).wf(),
        old(output).handed_out(&frame),
        entry.construction.sides() is Some ==> payload_frame(
            *entry,
            plan,
            flags,
            plan.length,
        ).start(link.offload) + plan.length <= frame.buffer.storage().len(),
    ensures
        final(output).wf(),
        final(ledger).wf(),
        payload_frame_sent(
            result,
            (*old(output), *old(ledger)),
            (*final(output), *final(ledger)),
            *link,
            *entry,
            id,
            frame,
            plan,
            flags,
            tracked_plan,
        ),
{
    let mut frame = frame;
    let spec = match payload_frame_spec(entry, plan, flags, plan.length) {
        Ok(spec) => spec,
        Err(error) => {
            output.release(frame);
            return Err(error);
        },
    };
    match finalize_payload_frame(&mut frame.buffer, link, spec, &mut ledger.metrics) {
        Ok(()) => {
            let offer = output.queue_tap(ledger, Some(id), frame, tracked_plan);
            assert(offer is Queued ==> output.queue().drop_last() =~= old(output).queue());
            Ok(offer)
        },
        Err(error) => {
            output.release(frame);
            Err(error)
        },
    }
}

/// Resets the connection of a flow.
pub fn send_reset_for_flow(
    output: &mut TapOutput,
    ledger: &mut Ledger,
    link: &Link,
    entry: &FlowEntry,
) -> (result: Result<Offer, Error>)
    requires
        old(output).wf(),
        old(ledger).wf(),
    ensures
        final(output).wf(),
        final(ledger).wf(),
        match entry.construction.sides() {
            None => {
                &&& result matches Err(error) && error == Error::Invariant(
                    "inactive flow reached reset builder",
                )
                &&& *final(output) == *old(output)
                &&& *final(ledger) == *old(ledger)
            },
            Some(sides) => {
                let spec = reset_spec(sides.key(), entry.flow@.namespace_acked);
                match result {
                    Ok(offer) => {
                        &&& send_refusal(*old(output), *link, spec) is None
                        &&& carries(
                            offer,
                            *old(output),
                            *final(output),
                            None,
                            None,
                            spec.frame(*link, Seq::empty()),
                        )
                        &&& final(output).pools().one_out(&old(output).pools())
                        &&& *final(ledger) == (Ledger {
                            metrics: Metrics {
                                tcp_resets: counted(old(ledger).metrics.tcp_resets),
                                ..old(ledger).metrics
                            },
                            ..*old(ledger)
                        }).reserved(0)
                    },
                    Err(error) => {
                        &&& send_refusal(*old(output), *link, spec) == Some(error)
                        &&& final(output).pools().none_out(&old(output).pools())
                        &&& final(output).queue() == old(output).queue()
                        &&& final(output).drops() == old(output).drops()
                        &&& *final(ledger) == after_acquiring(*old(ledger), *old(output))
                    },
                }
            },
        },
{
    match entry.construction.active_sides() {
        None => Err(Error::Invariant("inactive flow reached reset builder")),
        Some(sides) => send_reset(
            output,
            ledger,
            link,
            sides.namespace_key(),
            entry.flow.namespace_ack(),
        ),
    }
}

/// Every segment behind the SYN acknowledges, a SYN is answered by a SYN, the end of
/// the stream is a FIN, and payload is pushed. None of them resets.
pub proof fn law_flags_say_what_a_frame_is()
    ensures
        ack_flags().ack && !ack_flags().syn && !ack_flags().fin && !ack_flags().psh,
        syn_ack_flags().ack && syn_ack_flags().syn && !syn_ack_flags().fin,
        fin_flags().ack && fin_flags().fin && !fin_flags().syn,
        data_flags().ack && data_flags().psh && !data_flags().syn && !data_flags().fin,
        !ack_flags().rst && !syn_ack_flags().rst && !fin_flags().rst && !data_flags().rst,
{
}

/// The payload that goes out in a frame is what lies in it where its payload begins,
/// it is held until it is acknowledged if it is new, and a frame that cannot go is
/// taken back.
pub proof fn law_payload_frame_carries_what_was_read(
    result: Result<Offer, Error>,
    before: (TapOutput, Ledger),
    after: (TapOutput, Ledger),
    link: Link,
    entry: FlowEntry,
    id: FlowId,
    frame: PooledFrame,
    plan: SendPlan,
    flags: TcpFlags,
    tracked_plan: Option<SendPlan>,
)
    requires
        before.1.wf(),
        payload_frame_sent(
            result,
            before,
            after,
            link,
            entry,
            id,
            frame,
            plan,
            flags,
            tracked_plan,
        ),
    ensures
        entry.construction.sides() is None ==> result is Err,
        result is Err ==> after.1 == before.1 && after.0.queue() == before.0.queue(),
        result is Ok && before.1.retained + held_by(tracked_plan) <= before.1.max_retained ==> {
            let spec = payload_frame(entry, plan, flags, plan.length);
            let start = spec.start(link.offload);
            &&& carries(
                result->Ok_0,
                before.0,
                after.0,
                Some(id),
                tracked_plan,
                spec.frame(link, frame.buffer.storage().subrange(start, start + plan.length)),
            )
            &&& after.1.retained == before.1.retained + held_by(tracked_plan)
        },
        result is Ok && before.1.retained + held_by(tracked_plan) > before.1.max_retained ==> {
            &&& result->Ok_0 is Refused
            &&& after.1.retained == before.1.retained
            &&& after.0.queue() == before.0.queue()
        },
{
}

/// A frame that the kernel is to cut is counted once, and no other frame is.
pub proof fn law_cut_frames_are_counted(ledger: Ledger, segmented: bool)
    requires
        ledger.metrics.gso_frames_tx < u64::MAX,
    ensures
        after_finishing(ledger, true).metrics.gso_frames_tx == ledger.metrics.gso_frames_tx + 1,
        after_finishing(ledger, false) == ledger,
        after_finishing(ledger, segmented).pending == ledger.pending,
        after_finishing(ledger, segmented).retained == ledger.retained,
{
}

} // verus!
