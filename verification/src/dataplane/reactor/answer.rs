//! Frames that the data plane makes itself, from the pool to the device.

use super::frame::{Error, Link, TcpFrameSpec, prefix_len, vnet_len};
use super::ledger::Ledger;
use super::metrics::{Metrics, count, counted};
use super::pools::{FrameTier, law_frame_taken_back};
use super::reply::{
    build_arp_reply, build_dns_reply, build_neighbor_advertisement, build_tcp_frame, reply_frame,
    reply_refusal, reset_spec, tcp_frame_refusal,
};
use super::tap::{Offer, QueuedFrame, TapOutput, held_by};
use crate::bytes::zeros;
use crate::dataplane::flow_table::FlowId;
use crate::net::SocketAddress;
use crate::packet::PacketError;
use crate::packet::ethernet::MacAddress;
use crate::packet::ip::lemma_ipv6_header_len;
use crate::packet::neighbor::{ArpRequest, advertisement_frame, arp_reply};
use crate::tcp_adapter::flow::{FlowKey, SendPlan};
use vstd::prelude::*;

verus! {

/// Whether `held` is exactly this frame.
pub open spec fn holds(
    held: QueuedFrame,
    flow: Option<FlowId>,
    plan: Option<SendPlan>,
    content: Seq<u8>,
) -> bool {
    &&& held.flow == flow
    &&& held.plan == plan
    &&& held.reserved_retained == held_by(plan)
    &&& held.frame.buffer.wf()
    &&& held.frame.buffer.content() == content
}

/// Whether `offer` sends exactly this frame on its way: behind the frames that
/// wait, or, if none waits, at once, unless its loss is being injected.
pub open spec fn carries(
    offer: Offer,
    before: TapOutput,
    after: TapOutput,
    flow: Option<FlowId>,
    plan: Option<SendPlan>,
    content: Seq<u8>,
) -> bool {
    let missing = plan is Some && before.drops().taken(plan.unwrap()).0;
    match offer {
        Offer::Refused => false,
        Offer::Missing(held) => {
            &&& before.queue().len() == 0
            &&& missing
            &&& holds(held, flow, plan, content)
            &&& after.handed_out(&held.frame)
            &&& after.queue() == before.queue()
            &&& after.drops() == before.drops().taken(plan.unwrap()).1
        },
        Offer::Write(held) => {
            &&& before.queue().len() == 0
            &&& !missing
            &&& holds(held, flow, plan, content)
            &&& after.handed_out(&held.frame)
            &&& after.queue() == before.queue()
            &&& after.drops() == before.drops()
        },
        Offer::Queued => {
            &&& before.queue().len() > 0
            &&& after.queue().len() == before.queue().len() + 1
            &&& after.queue().drop_last() == before.queue()
            &&& holds(after.queue().last(), flow, plan, content)
            &&& after.drops() == before.drops()
        },
    }
}

/// What became of a DNS reply.
pub enum DnsReplyOutcome {
    /// There was no frame for it; its client asks again.
    Dropped,
    Offered(Offer),
}

/// Builds and sends the frame that carries a DNS message back to its client. A
/// dry pool is no fault: the reply is dropped and counted.
pub fn queue_dns_reply(
    output: &mut TapOutput,
    ledger: &mut Ledger,
    link: &Link,
    client: SocketAddress,
    gateway: SocketAddress,
    payload: &[u8],
) -> (result: Result<DnsReplyOutcome, Error>)
    requires
        old(output).wf(),
        old(ledger).wf(),
    ensures
        final(output).wf(),
        final(ledger).wf(),
        ({
            let dry = old(output).pools().pool(FrameTier::Mtu).free().len() == 0;
            let refusal = reply_refusal(
                link.offload,
                client,
                gateway,
                payload@.len() as int,
                old(output).pools().room(FrameTier::Mtu) as nat,
            );
            match result {
                Ok(DnsReplyOutcome::Dropped) => {
                    &&& dry
                    &&& final(output).pools() == old(output).pools()
                    &&& final(output).queue() == old(output).queue()
                    &&& final(output).drops() == old(output).drops()
                    &&& *final(ledger) == (Ledger {
                        metrics: Metrics {
                            frame_pool_exhaustions: counted(
                                old(ledger).metrics.frame_pool_exhaustions,
                            ),
                            dns_reply_drops: counted(old(ledger).metrics.dns_reply_drops),
                            ..old(ledger).metrics
                        },
                        ..*old(ledger)
                    })
                },
                Ok(DnsReplyOutcome::Offered(offer)) => {
                    &&& !dry
                    &&& refusal is None
                    &&& carries(
                        offer,
                        *old(output),
                        *final(output),
                        None,
                        None,
                        reply_frame(*link, client, gateway, payload@),
                    )
                    &&& final(output).pools().one_out(&old(output).pools())
                    &&& *final(ledger) == old(ledger).reserved(0)
                },
                Err(error) => {
                    &&& !dry
                    &&& refusal == Some(error)
                    &&& final(output).pools().none_out(&old(output).pools())
                    &&& final(output).queue() == old(output).queue()
                    &&& final(output).drops() == old(output).drops()
                    &&& *final(ledger) == *old(ledger)
                },
            }
        }),
{
    let mut frame = match output.acquire(0, &mut ledger.metrics) {
        Some(frame) => frame,
        None => {
            ledger.metrics.dns_reply_drops = count(ledger.metrics.dns_reply_drops);
            return Ok(DnsReplyOutcome::Dropped);
        },
    };
    let ghost lent = *output;
    let ghost taken = frame;
    match build_dns_reply(&mut frame.buffer, link, client, gateway, payload) {
        Ok(()) => {
            let offer = output.queue_tap(ledger, None, frame, None);
            assert(offer is Queued ==> output.queue().drop_last() =~= old(output).queue());
            Ok(DnsReplyOutcome::Offered(offer))
        },
        Err(error) => {
            output.release(frame);
            proof {
                law_frame_taken_back(old(output).pools(), lent.pools(), output.pools(), taken);
            }
            Err(error)
        },
    }
}

/// Why a TCP frame is not sent, if it is not.
pub open spec fn send_refusal(
    output: TapOutput,
    link: Link,
    spec: TcpFrameSpec,
) -> Option<Error> {
    if output.pools().pool(FrameTier::Mtu).free().len() == 0 {
        Some(Error::Invariant("TAP frame pool exhausted"))
    } else {
        tcp_frame_refusal(spec, link.offload, output.pools().room(FrameTier::Mtu) as nat)
    }
}

/// The ledger after an ordinary frame was asked for.
pub open spec fn after_acquiring(ledger: Ledger, output: TapOutput) -> Ledger {
    Ledger { metrics: output.pools().acquire_metrics(0, ledger.metrics), ..ledger }
}

/// What building and sending a TCP frame comes to. It is refused if there is no
/// frame for it or it does not fit; it is turned down if its payload would be
/// held beyond the limit; otherwise it is on its way.
pub open spec fn tcp_frame_sent(
    result: Result<Offer, Error>,
    before: (TapOutput, Ledger),
    after: (TapOutput, Ledger),
    link: Link,
    flow: Option<FlowId>,
    spec: TcpFrameSpec,
    payload: Seq<u8>,
    plan: Option<SendPlan>,
) -> bool {
    match result {
        Ok(offer) => {
            &&& send_refusal(before.0, link, spec) is None
            &&& before.1.admits(held_by(plan) as int) ==> {
                &&& carries(offer, before.0, after.0, flow, plan, spec.frame(link, payload))
                &&& after.0.pools().one_out(&before.0.pools())
                &&& after.1 == before.1.reserved(held_by(plan) as int)
            }
            &&& !before.1.admits(held_by(plan) as int) ==> {
                &&& offer is Refused
                &&& after.0.pools().none_out(&before.0.pools())
                &&& after.0.queue() == before.0.queue()
                &&& after.0.drops() == before.0.drops()
                &&& after.1 == before.1.refused()
            }
        },
        Err(error) => {
            &&& send_refusal(before.0, link, spec) == Some(error)
            &&& after.0.pools().none_out(&before.0.pools())
            &&& after.0.queue() == before.0.queue()
            &&& after.0.drops() == before.0.drops()
            &&& after.1 == after_acquiring(before.1, before.0)
        },
    }
}

/// Builds a TCP frame and sends it on its way.
pub fn send_tcp_frame(
    output: &mut TapOutput,
    ledger: &mut Ledger,
    link: &Link,
    flow: Option<FlowId>,
    spec: TcpFrameSpec,
    payload: &[u8],
    plan: Option<SendPlan>,
) -> (result: Result<Offer, Error>)
    requires
        old(output).wf(),
        old(ledger).wf(),
        spec.payload_len == payload@.len(),
        spec.gso_size is None,
    ensures
        final(output).wf(),
        final(ledger).wf(),
        tcp_frame_sent(
            result,
            (*old(output), *old(ledger)),
            (*final(output), *final(ledger)),
            *link,
            flow,
            spec,
            payload@,
            plan,
        ),
{
    let mut frame = match output.acquire(0, &mut ledger.metrics) {
        Some(frame) => frame,
        None => return Err(Error::Invariant("TAP frame pool exhausted")),
    };
    let ghost lent = *output;
    let ghost taken = frame;
    match build_tcp_frame(&mut frame.buffer, link, spec, payload) {
        Ok(()) => {
            let offer = output.queue_tap(ledger, flow, frame, plan);
            proof {
                if offer is Refused {
                    law_frame_taken_back(old(output).pools(), lent.pools(), output.pools(), taken);
                }
            }
            assert(offer is Queued ==> output.queue().drop_last() =~= old(output).queue());
            Ok(offer)
        },
        Err(error) => {
            output.release(frame);
            proof {
                law_frame_taken_back(old(output).pools(), lent.pools(), output.pools(), taken);
            }
            Err(error)
        },
    }
}

/// Sends the frame that refuses or ends a connection, and counts it.
pub fn send_reset(
    output: &mut TapOutput,
    ledger: &mut Ledger,
    link: &Link,
    key: FlowKey,
    acknowledgment: u32,
) -> (result: Result<Offer, Error>)
    requires
        old(output).wf(),
        old(ledger).wf(),
    ensures
        final(output).wf(),
        final(ledger).wf(),
        ({
            let spec = reset_spec(key, acknowledgment);
            match result {
                Ok(offer) => {
                    &&& send_refusal(*old(output), *link, spec) is None
                    &&& carries(
                        offer,
                        *old(output),
                        *final(output),
                        None,
                        None,
                        spec.frame(*link, Seq::empty()),
                    )
                    &&& final(output).pools().one_out(&old(output).pools())
                    &&& *final(ledger) == (Ledger {
                        metrics: Metrics {
                            tcp_resets: counted(old(ledger).metrics.tcp_resets),
                            ..old(ledger).metrics
                        },
                        ..*old(ledger)
                    }).reserved(0)
                },
                Err(error) => {
                    &&& send_refusal(*old(output), *link, spec) == Some(error)
                    &&& final(output).pools().none_out(&old(output).pools())
                    &&& final(output).queue() == old(output).queue()
                    &&& final(output).drops() == old(output).drops()
                    &&& *final(ledger) == after_acquiring(*old(ledger), *old(output))
                },
            }
        }),
{
    let mut frame = match output.acquire(0, &mut ledger.metrics) {
        Some(frame) => frame,
        None => return Err(Error::Invariant("TAP frame pool exhausted")),
    };
    let ghost lent = *output;
    let ghost taken = frame;
    match super::reply::build_reset(&mut frame.buffer, link, key, acknowledgment) {
        Ok(()) => {
            ledger.metrics.tcp_resets = count(ledger.metrics.tcp_resets);
            let offer = output.queue_tap(ledger, None, frame, None);
            assert(offer is Queued ==> output.queue().drop_last() =~= old(output).queue());
            Ok(offer)
        },
        Err(error) => {
            output.release(frame);
            proof {
                law_frame_taken_back(old(output).pools(), lent.pools(), output.pools(), taken);
            }
            Err(error)
        },
    }
}

/// Refuses a connection to the resolver because none is configured.
pub fn refuse_dns(
    output: &mut TapOutput,
    ledger: &mut Ledger,
    link: &Link,
    key: FlowKey,
    acknowledgment: u32,
) -> (result: Result<Offer, Error>)
    requires
        old(output).wf(),
        old(ledger).wf(),
    ensures
        final(output).wf(),
        final(ledger).wf(),
        ({
            let spec = reset_spec(key, acknowledgment);
            match result {
                Ok(offer) => {
                    &&& send_refusal(*old(output), *link, spec) is None
                    &&& carries(
                        offer,
                        *old(output),
                        *final(output),
                        None,
                        None,
                        spec.frame(*link, Seq::empty()),
                    )
                    &&& final(output).pools().one_out(&old(output).pools())
                    &&& *final(ledger) == (Ledger {
                        metrics: Metrics {
                            tcp_resets: counted(old(ledger).metrics.tcp_resets),
                            dns_refused: counted(old(ledger).metrics.dns_refused),
                            ..old(ledger).metrics
                        },
                        ..*old(ledger)
                    }).reserved(0)
                },
                Err(error) => {
                    &&& send_refusal(*old(output), *link, spec) == Some(error)
                    &&& final(output).pools().none_out(&old(output).pools())
                    &&& final(output).queue() == old(output).queue()
                    &&& final(output).drops() == old(output).drops()
                    &&& *final(ledger) == after_acquiring(*old(ledger), *old(output))
                },
            }
        }),
{
    let result = send_reset(output, ledger, link, key, acknowledgment);
    if result.is_ok() {
        ledger.metrics.dns_refused = count(ledger.metrics.dns_refused);
    }
    result
}

/// Whether a frame with this content was sent from the ordinary pool, or why
/// not: there was no frame, or it was too small.
pub open spec fn plain_frame_sent(
    result: Result<Offer, Error>,
    before: (TapOutput, Ledger),
    after: (TapOutput, Ledger),
    content: Seq<u8>,
) -> bool {
    let dry = before.0.pools().pool(FrameTier::Mtu).free().len() == 0;
    let fits = content.len() <= before.0.pools().room(FrameTier::Mtu);
    match result {
        Ok(offer) => {
            &&& !dry && fits
            &&& carries(offer, before.0, after.0, None, None, content)
            &&& after.0.pools().one_out(&before.0.pools())
            &&& after.1 == before.1.reserved(0)
        },
        Err(error) => {
            &&& dry || !fits
            &&& error == if dry {
                Error::Invariant("TAP frame pool exhausted")
            } else {
                Error::Packet(PacketError::Truncated)
            }
            &&& after.0.pools().none_out(&before.0.pools())
            &&& after.0.queue() == before.0.queue()
            &&& after.0.drops() == before.0.drops()
            &&& after.1 == after_acquiring(before.1, before.0)
        },
    }
}

/// Answers an ARP request for the gateway.
pub fn send_arp_reply(
    output: &mut TapOutput,
    ledger: &mut Ledger,
    link: &Link,
    gateway: [u8; 4],
    request: ArpRequest,
) -> (result: Result<Offer, Error>)
    requires
        old(output).wf(),
        old(ledger).wf(),
    ensures
        final(output).wf(),
        final(ledger).wf(),
        plain_frame_sent(
            result,
            (*old(output), *old(ledger)),
            (*final(output), *final(ledger)),
            zeros(prefix_len(link.offload) as nat) + arp_reply(link.gateway_mac, gateway@, request),
        ),
{
    let mut frame = match output.acquire(0, &mut ledger.metrics) {
        Some(frame) => frame,
        None => return Err(Error::Invariant("TAP frame pool exhausted")),
    };
    let ghost lent = *output;
    let ghost taken = frame;
    if frame.buffer.capacity() < vnet_len(link.offload) {
        output.release(frame);
        proof {
            law_frame_taken_back(old(output).pools(), lent.pools(), output.pools(), taken);
        }
        return Err(Error::Packet(PacketError::Truncated));
    }
    match build_arp_reply(&mut frame.buffer, link, gateway, request) {
        Ok(()) => {
            let offer = output.queue_tap(ledger, None, frame, None);
            assert(offer is Queued ==> output.queue().drop_last() =~= old(output).queue());
            Ok(offer)
        },
        Err(error) => {
            output.release(frame);
            proof {
                law_frame_taken_back(old(output).pools(), lent.pools(), output.pools(), taken);
            }
            Err(error)
        },
    }
}

/// Answers a neighbor solicitation for the gateway.
pub fn send_neighbor_advertisement(
    output: &mut TapOutput,
    ledger: &mut Ledger,
    link: &Link,
    target_mac: MacAddress,
    gateway: [u8; 16],
    target: [u8; 16],
) -> (result: Result<Offer, Error>)
    requires
        old(output).wf(),
        old(ledger).wf(),
    ensures
        final(output).wf(),
        final(ledger).wf(),
        plain_frame_sent(
            result,
            (*old(output), *old(ledger)),
            (*final(output), *final(ledger)),
            zeros(prefix_len(link.offload) as nat) + advertisement_frame(
                link.gateway_mac,
                target_mac,
                gateway@,
                target@,
            ),
        ),
{
    let ghost content = zeros(prefix_len(link.offload) as nat) + advertisement_frame(
        link.gateway_mac,
        target_mac,
        gateway@,
        target@,
    );
    proof {
        lemma_ipv6_header_len(gateway@, target@, crate::packet::ip::IPPROTO_ICMPV6, 32, 255);
    }
    assert(content.len() == prefix_len(link.offload) + 86);
    let mut frame = match output.acquire(0, &mut ledger.metrics) {
        Some(frame) => frame,
        None => return Err(Error::Invariant("TAP frame pool exhausted")),
    };
    let ghost lent = *output;
    let ghost taken = frame;
    if frame.buffer.capacity() < vnet_len(link.offload) {
        output.release(frame);
        proof {
            law_frame_taken_back(old(output).pools(), lent.pools(), output.pools(), taken);
        }
        return Err(Error::Packet(PacketError::Truncated));
    }
    match build_neighbor_advertisement(&mut frame.buffer, link, target_mac, gateway, target) {
        Ok(()) => {
            let offer = output.queue_tap(ledger, None, frame, None);
            assert(offer is Queued ==> output.queue().drop_last() =~= old(output).queue());
            Ok(offer)
        },
        Err(error) => {
            output.release(frame);
            proof {
                law_frame_taken_back(old(output).pools(), lent.pools(), output.pools(), taken);
            }
            Err(error)
        },
    }
}

/// A frame that is on its way belongs to its flow and its plan, holds back the
/// payload of the plan, and has exactly its octets. It waits exactly behind
/// others, as the last of them.
pub proof fn law_frame_goes_out_as_it_was_built(
    offer: Offer,
    before: TapOutput,
    after: TapOutput,
    flow: Option<FlowId>,
    plan: Option<SendPlan>,
    content: Seq<u8>,
)
    requires
        carries(offer, before, after, flow, plan, content),
    ensures
        !(offer is Refused),
        offer is Queued <==> before.queue().len() > 0,
        offer is Queued ==> {
            let last = after.queue()[before.queue().len() as int];
            &&& after.queue().len() == before.queue().len() + 1
            &&& last.flow == flow && last.plan == plan
            &&& last.reserved_retained == (if plan is Some {
                plan.unwrap().length
            } else {
                0
            })
            &&& last.frame.buffer.content() == content
            &&& forall|i: int|
                0 <= i < before.queue().len() ==> #[trigger] after.queue()[i] == before.queue()[i]
        },
        offer is Write ==> {
            let held = offer->Write_0;
            &&& held.flow == flow && held.plan == plan
            &&& held.frame.buffer.content() == content
            &&& after.queue() == before.queue()
        },
        offer is Missing ==> {
            let held = offer->Missing_0;
            &&& plan is Some
            &&& held.flow == flow && held.plan == plan
            &&& held.frame.buffer.content() == content
            &&& after.queue() == before.queue()
        },
        plan is None ==> after.drops() == before.drops(),
{
    if offer is Queued {
        assert forall|i: int| 0 <= i < before.queue().len() implies #[trigger] after.queue()[i]
            == before.queue()[i] by {
            assert(after.queue().drop_last()[i] == after.queue()[i]);
        }
    }
}

/// A TCP frame is refused exactly when no ordinary frame is free or it does not
/// fit into one. Otherwise it goes out, unless its payload would exceed what may
/// be held, and a frame that holds nothing always goes out.
pub proof fn law_frame_is_sent_if_there_is_room(
    result: Result<Offer, Error>,
    before: (TapOutput, Ledger),
    after: (TapOutput, Ledger),
    link: Link,
    flow: Option<FlowId>,
    spec: TcpFrameSpec,
    payload: Seq<u8>,
    plan: Option<SendPlan>,
)
    requires
        tcp_frame_sent(result, before, after, link, flow, spec, payload, plan),
    ensures
        result is Ok ==> before.0.pools().pool(FrameTier::Mtu).free().len() > 0 && spec.start(
            link.offload,
        ) + spec.payload_len <= before.0.pools().room(FrameTier::Mtu),
        before.0.pools().pool(FrameTier::Mtu).free().len() == 0 ==> result is Err,
        before.0.pools().pool(FrameTier::Mtu).free().len() > 0 && spec.start(link.offload)
            + spec.payload_len <= before.0.pools().room(FrameTier::Mtu) && spec.refusal(
            link.offload,
        ) is None ==> result is Ok,
        result is Ok && before.1.admits(held_by(plan) as int) ==> !(result->Ok_0 is Refused),
        result is Ok && !before.1.admits(held_by(plan) as int) ==> result->Ok_0 is Refused,
        result is Err ==> after.0.queue() == before.0.queue(),
{
}

/// A frame without a flow goes out exactly when an ordinary frame is free and
/// holds it, and then nothing is held back for it.
pub proof fn law_plain_frame_goes_out_if_it_fits(
    result: Result<Offer, Error>,
    before: (TapOutput, Ledger),
    after: (TapOutput, Ledger),
    content: Seq<u8>,
)
    requires
        plain_frame_sent(result, before, after, content),
    ensures
        result is Ok <==> before.0.pools().pool(FrameTier::Mtu).free().len() > 0 && content.len()
            <= before.0.pools().room(FrameTier::Mtu),
        result is Ok ==> carries(result->Ok_0, before.0, after.0, None, None, content),
        result is Ok ==> after.1.retained == before.1.retained && after.1.pending
            == before.1.pending,
        result is Err ==> after.0.queue() == before.0.queue(),
{
}

} // verus!
