//! Whole frames for the namespace, in buffers of the pools.

use super::frame::{
    Error, Link, TcpFrameSpec, finalize_tcp_frame, ip_len, link_header, prefix_len,
    tcp_payload_offset, vnet_len,
};
use super::metrics::{Metrics, count, counted};
use crate::bytes::zeros;
use crate::dataplane::buffer::FrameBuffer;
use crate::net::{IpAddress, SocketAddress};
use crate::packet::PacketError;
use crate::packet::checksum::lemma_word_sum_bound;
use crate::packet::ethernet;
use crate::packet::ethernet::{ETHERNET_HEADER_LEN, EtherType, MacAddress};
use crate::packet::ip::{
    IPPROTO_UDP, ipv4_header, ipv6_header, lemma_ipv4_header_len, lemma_ipv6_header_len,
};
use crate::packet::neighbor;
use crate::packet::neighbor::{ArpRequest, advertisement_frame, arp_reply};
use crate::packet::tcp::TcpFlags;
use crate::packet::udp;
use crate::packet::udp::UDP_HEADER_LEN;
use crate::tcp_adapter::flow::{FlowKey, SendPlan};
use vstd::prelude::*;

verus! {

/// Why a TCP frame with this payload does not go into a buffer, if it does not.
pub open spec fn tcp_frame_refusal(spec: TcpFrameSpec, offload: bool, capacity: nat) -> Option<
    Error,
> {
    if spec.start(offload) + spec.payload_len > capacity {
        Some(Error::Invariant("TCP frame exceeds buffer capacity"))
    } else {
        spec.refusal(offload)
    }
}

/// Builds a TCP frame around `payload`.
pub fn build_tcp_frame(
    buffer: &mut FrameBuffer,
    link: &Link,
    spec: TcpFrameSpec,
    payload: &[u8],
) -> (result: Result<(), Error>)
    requires
        spec.payload_len == payload@.len(),
        spec.gso_size is None,
    ensures
        final(buffer).storage().len() == old(buffer).storage().len(),
        match result {
            Ok(()) => {
                &&& tcp_frame_refusal(spec, link.offload, old(buffer).storage().len()) is None
                &&& final(buffer).wf()
                &&& final(buffer).content() == spec.frame(*link, payload@)
            },
            Err(error) => tcp_frame_refusal(spec, link.offload, old(buffer).storage().len())
                == Some(error),
        },
{
    let capacity: usize = buffer.capacity();
    let start: usize = tcp_payload_offset(link.offload, spec.key, spec.mss, spec.window_scale);
    if start > capacity || payload.len() > capacity - start {
        return Err(Error::Invariant("TCP frame exceeds buffer capacity"));
    }
    let bytes = buffer.writable();
    crate::bytes::put(bytes, start, payload);
    assert(bytes@.subrange(start as int, start + spec.payload_len) =~= payload@);
    let ghost behind = bytes@.skip(start + spec.payload_len);
    let ghost laid = bytes@.len();
    match finalize_tcp_frame(bytes, link, spec) {
        Ok(finished) => {
            buffer.set_len(finished.length);
            assert(spec.frame(*link, payload@).len() == finished.length) by {
                assert((spec.frame(*link, payload@) + behind).len() == laid);
            }
            assert(buffer.content() =~= spec.frame(*link, payload@));
            Ok(())
        },
        Err(error) => Err(error),
    }
}

/// Writes the headers of a frame whose payload was read straight into it, and
/// counts a frame that the kernel is to segment.
pub fn finalize_payload_frame(
    buffer: &mut FrameBuffer,
    link: &Link,
    spec: TcpFrameSpec,
    metrics: &mut Metrics,
) -> (result: Result<(), Error>)
    requires
        spec.start(link.offload) + spec.payload_len <= old(buffer).storage().len(),
    ensures
        final(buffer).storage().len() == old(buffer).storage().len(),
        match result {
            Ok(()) => {
                let start = spec.start(link.offload);
                &&& spec.refusal(link.offload) is None
                &&& final(buffer).wf()
                &&& final(buffer).content() == spec.frame(
                    *link,
                    old(buffer).storage().subrange(start, start + spec.payload_len),
                )
                &&& *final(metrics) == if spec.segmented(link.offload) {
                    Metrics { gso_frames_tx: counted(old(metrics).gso_frames_tx), ..*old(metrics) }
                } else {
                    *old(metrics)
                }
            },
            Err(error) => {
                &&& spec.refusal(link.offload) == Some(error)
                &&& *final(metrics) == *old(metrics)
            },
        },
{
    let ghost storage = buffer.storage();
    let ghost start = spec.start(link.offload);
    let bytes = buffer.writable();
    match finalize_tcp_frame(bytes, link, spec) {
        Ok(finished) => {
            let ghost frame = spec.frame(
                *link,
                storage.subrange(start, start + spec.payload_len),
            );
            buffer.set_len(finished.length);
            assert(frame.len() == finished.length) by {
                assert((frame + storage.skip(finished.length as int)).len() == storage.len());
            }
            assert(buffer.content() =~= frame);
            if finished.segmented {
                metrics.gso_frames_tx = count(metrics.gso_frames_tx);
            }
            Ok(())
        },
        Err(error) => Err(error),
    }
}

/// The frame that refuses or ends a connection.
pub open spec fn reset_spec(key: FlowKey, acknowledgment: u32) -> TcpFrameSpec {
    TcpFrameSpec {
        key,
        plan: SendPlan { sequence: 0, acknowledgment, length: 0, syn: false, fin: false },
        flags: TcpFlags { fin: false, syn: false, rst: true, psh: false, ack: true },
        mss: None,
        window_scale: None,
        window: 0,
        payload_len: 0,
        gso_size: None,
    }
}

pub fn build_reset(
    buffer: &mut FrameBuffer,
    link: &Link,
    key: FlowKey,
    acknowledgment: u32,
) -> (result: Result<(), Error>)
    ensures
        final(buffer).storage().len() == old(buffer).storage().len(),
        match result {
            Ok(()) => {
                &&& tcp_frame_refusal(
                    reset_spec(key, acknowledgment),
                    link.offload,
                    old(buffer).storage().len(),
                ) is None
                &&& final(buffer).wf()
                &&& final(buffer).content() == reset_spec(key, acknowledgment).frame(
                    *link,
                    Seq::empty(),
                )
            },
            Err(error) => tcp_frame_refusal(
                reset_spec(key, acknowledgment),
                link.offload,
                old(buffer).storage().len(),
            ) == Some(error),
        },
{
    let none: [u8; 0] = [];
    assert(none@ =~= Seq::<u8>::empty());
    build_tcp_frame(
        buffer,
        link,
        TcpFrameSpec {
            key,
            plan: SendPlan { sequence: 0, acknowledgment, length: 0, syn: false, fin: false },
            flags: TcpFlags { fin: false, syn: false, rst: true, psh: false, ack: true },
            mss: None,
            window_scale: None,
            window: 0,
            payload_len: 0,
            gso_size: None,
        },
        &none,
    )
}

/// The datagram of a DNS reply before its checksum is filled in.
pub open spec fn bare_datagram(
    client: SocketAddress,
    gateway: SocketAddress,
    payload: Seq<u8>,
) -> Seq<u8> {
    udp::header_bytes(gateway.port, client.port, payload.len() as int) + payload
}

/// The IP header and the datagram of a DNS reply.
#[verifier::opaque]
pub open spec fn reply_packet(
    client: SocketAddress,
    gateway: SocketAddress,
    payload: Seq<u8>,
) -> Seq<u8> {
    let bare = bare_datagram(client, gateway, payload);
    match (gateway.ip, client.ip) {
        (IpAddress::V4(source), IpAddress::V4(destination)) => ipv4_header(
            source@,
            destination@,
            IPPROTO_UDP,
            bare.len() as int,
            0,
        ) + udp::with_ipv4_checksum(bare, source@, destination@),
        (IpAddress::V6(source), IpAddress::V6(destination)) => ipv6_header(
            source@,
            destination@,
            IPPROTO_UDP,
            bare.len() as int,
        ) + udp::with_ipv6_checksum(bare, source@, destination@),
        _ => Seq::empty(),
    }
}

/// The frame that carries a DNS message to its client.
pub open spec fn reply_frame(
    link: Link,
    client: SocketAddress,
    gateway: SocketAddress,
    payload: Seq<u8>,
) -> Seq<u8> {
    zeros(prefix_len(link.offload) as nat) + link_header(link, client.ip is V4) + reply_packet(
        client,
        gateway,
        payload,
    )
}

pub open spec fn reply_len(offload: bool, client: SocketAddress, payload_len: int) -> int {
    prefix_len(offload) + ETHERNET_HEADER_LEN + ip_len(client) + UDP_HEADER_LEN + payload_len
}

/// Why a DNS reply cannot be sent, if it cannot.
pub open spec fn reply_refusal(
    offload: bool,
    client: SocketAddress,
    gateway: SocketAddress,
    payload_len: int,
    capacity: nat,
) -> Option<Error> {
    if reply_len(offload, client, payload_len) > capacity {
        Some(Error::Invariant("DNS reply exceeds frame capacity"))
    } else if 8 + payload_len > 0xffff {
        Some(Error::Packet(PacketError::InvalidLength))
    } else if (client.ip is V4) != (gateway.ip is V4) {
        Some(Error::Packet(PacketError::ProtocolMismatch))
    } else if client.ip is V4 && 28 + payload_len > 0xffff {
        Some(Error::Packet(PacketError::InvalidLength))
    } else {
        None
    }
}

fn write_reply_packet(
    packet: &mut [u8],
    client: SocketAddress,
    gateway: SocketAddress,
    payload: &[u8],
) -> (result: Result<(), PacketError>)
    requires
        old(packet)@.len() == ip_len(client) + 8 + payload@.len(),
    ensures
        final(packet)@.len() == old(packet)@.len(),
        match result {
            Ok(()) => {
                &&& 8 + payload@.len() <= 0xffff
                &&& (client.ip is V4) == (gateway.ip is V4)
                &&& client.ip is V4 ==> 28 + payload@.len() <= 0xffff
                &&& final(packet)@ == reply_packet(client, gateway, payload@)
            },
            Err(error) => error == if 8 + payload@.len() > 0xffff {
                PacketError::InvalidLength
            } else if (client.ip is V4) != (gateway.ip is V4) {
                PacketError::ProtocolMismatch
            } else {
                PacketError::InvalidLength
            } && (8 + payload@.len() > 0xffff || (client.ip is V4) != (gateway.ip is V4) || (
            client.ip is V4 && 28 + payload@.len() > 0xffff)),
        },
{
    reveal(reply_packet);
    let ip_header_len: usize = if client.is_ipv4() {
        20
    } else {
        40
    };
    let size: usize = packet.len();
    let ghost bare = bare_datagram(client, gateway, payload@);
    let (head, datagram) = packet.split_at_mut(ip_header_len);
    let length: usize = datagram.len();
    crate::bytes::put(datagram, UDP_HEADER_LEN, payload);
    match udp::write_header(datagram, gateway.port, client.port, payload.len()) {
        Ok(_) => {},
        Err(error) => return Err(error),
    }
    assert(datagram@ =~= bare);
    proof {
        lemma_word_sum_bound(udp::without_checksum(bare));
    }
    match (gateway.ip, client.ip) {
        (IpAddress::V4(source), IpAddress::V4(destination)) => {
            match crate::packet::ip::write_ipv4_header(
                head,
                source,
                destination,
                IPPROTO_UDP,
                length,
                0,
            ) {
                Ok(_) => {},
                Err(error) => return Err(error),
            }
            proof {
                lemma_ipv4_header_len(source@, destination@, IPPROTO_UDP, length as int, 0);
                lemma_word_sum_bound(source@);
                lemma_word_sum_bound(destination@);
            }
            assert(head@ =~= ipv4_header(source@, destination@, IPPROTO_UDP, length as int, 0));
            udp::set_ipv4_checksum(datagram, source, destination)
        },
        (IpAddress::V6(source), IpAddress::V6(destination)) => {
            match crate::packet::ip::write_ipv6_header(
                head,
                source,
                destination,
                IPPROTO_UDP,
                length,
            ) {
                Ok(_) => {},
                Err(error) => return Err(error),
            }
            proof {
                lemma_ipv6_header_len(source@, destination@, IPPROTO_UDP, length as int, 64);
                lemma_word_sum_bound(source@);
                lemma_word_sum_bound(destination@);
            }
            assert(head@ =~= ipv6_header(source@, destination@, IPPROTO_UDP, length as int));
            udp::set_ipv6_checksum(datagram, source, destination)
        },
        _ => Err(PacketError::ProtocolMismatch),
    }
}

/// Builds the frame that carries a DNS message back to its client.
pub fn build_dns_reply(
    buffer: &mut FrameBuffer,
    link: &Link,
    client: SocketAddress,
    gateway: SocketAddress,
    payload: &[u8],
) -> (result: Result<(), Error>)
    ensures
        final(buffer).storage().len() == old(buffer).storage().len(),
        match result {
            Ok(()) => {
                &&& reply_refusal(
                    link.offload,
                    client,
                    gateway,
                    payload@.len() as int,
                    old(buffer).storage().len(),
                ) is None
                &&& final(buffer).wf()
                &&& final(buffer).content() == reply_frame(*link, client, gateway, payload@)
            },
            Err(error) => reply_refusal(
                link.offload,
                client,
                gateway,
                payload@.len() as int,
                old(buffer).storage().len(),
            ) == Some(error),
        },
{
    let capacity: usize = buffer.capacity();
    let v4 = client.is_ipv4();
    let prefix: usize = vnet_len(link.offload);
    let ip_header_len: usize = if v4 {
        20
    } else {
        40
    };
    let start: usize = prefix + ETHERNET_HEADER_LEN + ip_header_len + UDP_HEADER_LEN;
    if start > capacity || payload.len() > capacity - start {
        return Err(Error::Invariant("DNS reply exceeds frame capacity"));
    }
    let length: usize = start + payload.len();
    let ghost storage = buffer.storage();
    let bytes = buffer.writable();
    let (front, body) = bytes.split_at_mut(prefix);
    let (link_part, behind) = body.split_at_mut(ETHERNET_HEADER_LEN);
    let (packet, rest) = behind.split_at_mut(length - prefix - ETHERNET_HEADER_LEN);
    assert(rest@.len() == storage.len() - length);
    crate::bytes::clear(front, 0, prefix);
    assert(front@ =~= zeros(prefix as nat));
    let ether_type = if v4 {
        EtherType::Ipv4
    } else {
        EtherType::Ipv6
    };
    let _ = ethernet::write_header(link_part, link.target_mac, link.gateway_mac, ether_type);
    assert(link_part@ =~= link_header(*link, v4));
    match write_reply_packet(packet, client, gateway, payload) {
        Ok(()) => {
            let ghost frame = reply_frame(*link, client, gateway, payload@);
            assert(front@ + (link_part@ + (packet@ + rest@)) =~= frame + rest@);
            assert(frame.len() == length);
            buffer.set_len(length);
            assert(buffer.content() =~= frame);
            Ok(())
        },
        Err(error) => Err(Error::Packet(error)),
    }
}

/// Builds the frame that answers an ARP request for the gateway.
pub fn build_arp_reply(
    buffer: &mut FrameBuffer,
    link: &Link,
    gateway: [u8; 4],
    request: ArpRequest,
) -> (result: Result<(), Error>)
    requires
        prefix_len(link.offload) <= old(buffer).storage().len(),
    ensures
        final(buffer).storage().len() == old(buffer).storage().len(),
        match result {
            Ok(()) => {
                &&& old(buffer).storage().len() >= prefix_len(link.offload) + 42
                &&& final(buffer).wf()
                &&& final(buffer).content() == zeros(prefix_len(link.offload) as nat) + arp_reply(
                    link.gateway_mac,
                    gateway@,
                    request,
                )
            },
            Err(error) => {
                &&& old(buffer).storage().len() < prefix_len(link.offload) + 42
                &&& error == Error::Packet(PacketError::Truncated)
            },
        },
{
    let prefix: usize = vnet_len(link.offload);
    let ghost storage = buffer.storage();
    let bytes = buffer.writable();
    let (front, body) = bytes.split_at_mut(prefix);
    crate::bytes::clear(front, 0, prefix);
    assert(front@ =~= zeros(prefix as nat));
    match neighbor::write_arp_reply(body, link.gateway_mac, gateway, request) {
        Ok(length) => {
            buffer.set_len(prefix + length);
            assert(buffer.content() =~= zeros(prefix as nat) + arp_reply(
                link.gateway_mac,
                gateway@,
                request,
            ));
            Ok(())
        },
        Err(error) => Err(Error::Packet(error)),
    }
}

/// Builds the frame that answers a neighbor solicitation for the gateway.
pub fn build_neighbor_advertisement(
    buffer: &mut FrameBuffer,
    link: &Link,
    target_mac: MacAddress,
    gateway: [u8; 16],
    target: [u8; 16],
) -> (result: Result<(), Error>)
    requires
        prefix_len(link.offload) <= old(buffer).storage().len(),
    ensures
        final(buffer).storage().len() == old(buffer).storage().len(),
        match result {
            Ok(()) => {
                &&& old(buffer).storage().len() >= prefix_len(link.offload) + 86
                &&& final(buffer).wf()
                &&& final(buffer).content() == zeros(prefix_len(link.offload) as nat)
                    + advertisement_frame(link.gateway_mac, target_mac, gateway@, target@)
            },
            Err(error) => {
                &&& old(buffer).storage().len() < prefix_len(link.offload) + 86
                &&& error == Error::Packet(PacketError::Truncated)
            },
        },
{
    let prefix: usize = vnet_len(link.offload);
    let ghost storage = buffer.storage();
    let bytes = buffer.writable();
    let (front, body) = bytes.split_at_mut(prefix);
    crate::bytes::clear(front, 0, prefix);
    assert(front@ =~= zeros(prefix as nat));
    let ghost frame = advertisement_frame(link.gateway_mac, target_mac, gateway@, target@);
    match neighbor::write_neighbor_advertisement(
        body,
        link.gateway_mac,
        target_mac,
        gateway,
        target,
    ) {
        Ok(length) => {
            proof {
                lemma_ipv6_header_len(
                    gateway@,
                    target@,
                    crate::packet::ip::IPPROTO_ICMPV6,
                    32,
                    255,
                );
            }
            buffer.set_len(prefix + length);
            assert(buffer.content() =~= zeros(prefix as nat) + frame);
            Ok(())
        },
        Err(error) => Err(Error::Packet(error)),
    }
}

/// A reset acknowledges what it refuses: it carries RST and ACK and nothing
/// else, neither payload nor options, and offers no window.
pub proof fn law_reset_refuses_and_acknowledges(key: FlowKey, acknowledgment: u32)
    ensures
        ({
            let reset = reset_spec(key, acknowledgment);
            &&& reset.key == key
            &&& reset.plan.acknowledgment == acknowledgment
            &&& reset.plan.sequence == 0
            &&& reset.flags.rst && reset.flags.ack
            &&& !reset.flags.syn && !reset.flags.fin && !reset.flags.psh
            &&& reset.payload_len == 0
            &&& reset.window == 0
            &&& reset.mss is None && reset.window_scale is None && reset.gso_size is None
        }),
{
}

/// A TCP frame goes into every buffer that has room for its headers and its
/// payload, and into no other.
pub proof fn law_frame_needs_its_room(spec: TcpFrameSpec, offload: bool, capacity: nat)
    ensures
        spec.start(offload) + spec.payload_len > capacity ==> {
            &&& tcp_frame_refusal(spec, offload, capacity) is Some
            &&& tcp_frame_refusal(spec, offload, capacity).unwrap() is Invariant
        },
        spec.start(offload) + spec.payload_len <= capacity ==> tcp_frame_refusal(
            spec,
            offload,
            capacity,
        ) == spec.refusal(offload),
{
}

/// A DNS reply is refused exactly when it does not fit the buffer or a length
/// field of 16 bits, or when its addresses are of two families.
pub proof fn law_only_overlong_replies_are_refused(
    offload: bool,
    client: SocketAddress,
    gateway: SocketAddress,
    payload_len: int,
    capacity: nat,
)
    requires
        payload_len >= 0,
    ensures
        reply_len(offload, client, payload_len) == (if offload {
            10int
        } else {
            0
        }) + (if client.ip is V4 {
            42int
        } else {
            62
        }) + payload_len,
        client.ip is V4 && gateway.ip is V4 ==> (reply_refusal(
            offload,
            client,
            gateway,
            payload_len,
            capacity,
        ) is None <==> reply_len(offload, client, payload_len) <= capacity && payload_len
            <= 65_507),
        client.ip is V6 && gateway.ip is V6 ==> (reply_refusal(
            offload,
            client,
            gateway,
            payload_len,
            capacity,
        ) is None <==> reply_len(offload, client, payload_len) <= capacity && payload_len
            <= 65_527),
        (client.ip is V4) != (gateway.ip is V4) ==> reply_refusal(
            offload,
            client,
            gateway,
            payload_len,
            capacity,
        ) is Some,
{
}

/// A DNS reply comes from the gateway, goes to its client, and carries the
/// message at its end.
pub proof fn law_reply_comes_from_the_gateway(
    client: SocketAddress,
    gateway: SocketAddress,
    payload: Seq<u8>,
    source4: [u8; 4],
    destination4: [u8; 4],
    source6: [u8; 16],
    destination6: [u8; 16],
)
    requires
        payload.len() <= 65_507,
    ensures
        ({
            let bare = bare_datagram(client, gateway, payload);
            &&& bare.len() == 8 + payload.len()
            &&& 256 * bare[0] + bare[1] == gateway.port
            &&& 256 * bare[2] + bare[3] == client.port
            &&& 256 * bare[4] + bare[5] == 8 + payload.len()
            &&& bare.skip(8) == payload
        }),
        gateway.ip == IpAddress::V4(source4) && client.ip == IpAddress::V4(destination4) ==> {
            let packet = reply_packet(client, gateway, payload);
            &&& packet.len() == 28 + payload.len()
            &&& packet.subrange(12, 16) == source4@
            &&& packet.subrange(16, 20) == destination4@
            &&& packet[9] == 17
        },
        gateway.ip == IpAddress::V6(source6) && client.ip == IpAddress::V6(destination6) ==> {
            let packet = reply_packet(client, gateway, payload);
            &&& packet.len() == 48 + payload.len()
            &&& packet.subrange(8, 24) == source6@
            &&& packet.subrange(24, 40) == destination6@
            &&& packet[6] == 17
        },
{
    reveal(reply_packet);
    let bare = bare_datagram(client, gateway, payload);
    udp::law_header_has_its_form(gateway.port, client.port, payload.len() as int);
    let header = udp::header_bytes(gateway.port, client.port, payload.len() as int);
    assert(forall|i: int| 0 <= i < 8 ==> bare[i] == header[i]);
    assert(bare.skip(8) =~= payload);
    crate::packet::ip::law_headers_have_their_form(
        source4@,
        destination4@,
        source6@,
        destination6@,
        17,
        bare.len() as int,
        0,
    );
    if gateway.ip == IpAddress::V4(source4) && client.ip == IpAddress::V4(destination4) {
        let packet = reply_packet(client, gateway, payload);
        let front = ipv4_header(source4@, destination4@, 17, bare.len() as int, 0);
        assert(packet.subrange(12, 16) =~= front.subrange(12, 16));
        assert(packet.subrange(16, 20) =~= front.subrange(16, 20));
        assert(packet[9] == front[9]);
    }
    if gateway.ip == IpAddress::V6(source6) && client.ip == IpAddress::V6(destination6) {
        let packet = reply_packet(client, gateway, payload);
        let front = ipv6_header(source6@, destination6@, 17, bare.len() as int);
        assert(packet.subrange(8, 24) =~= front.subrange(8, 24));
        assert(packet.subrange(24, 40) =~= front.subrange(24, 40));
        assert(packet[6] == front[6]);
    }
}

} // verus!
