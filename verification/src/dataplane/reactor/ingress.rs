//! What a frame from the namespace is about.

use super::frame::{Error, Link, TcpFrameSpec, link_header, prefix_len};
use super::metrics::{Metrics, count, counted};
use super::reply::{bare_datagram, reply_frame, reply_packet, reply_refusal};
use crate::bytes::{be16, be16_bytes, be32, splice, zeros};
use crate::net::{IpAddress, SocketAddress};
use crate::packet::PacketError;
use crate::packet::checksum::{
    complement, ipv4_pseudo_sum, ipv4_transport_sum, ipv6_pseudo_sum, ipv6_transport_sum, ones_sum,
};
use crate::packet::ethernet::{ETHERNET_HEADER_LEN, EtherType, EthernetFrame, MacAddress};
use crate::packet::ip::{
    IPPROTO_ICMPV6, IPPROTO_TCP, IPPROTO_UDP, Ipv4Packet, Ipv6Packet, ipv4_error, ipv4_payload,
    ipv6_error, ipv6_payload, ipv6_transport_at,
};
use crate::packet::neighbor;
use crate::packet::neighbor::{ArpRequest, arp_error, solicitation_error};
use crate::packet::tcp;
use crate::packet::tcp::{TcpSegment, tcp_error, tcp_header_len, tcp_ipv4_error, tcp_ipv6_error};
use crate::packet::udp;
use crate::packet::udp::{UdpDatagram, udp_datagram, udp_error, udp_ipv4_error, udp_ipv6_error};
use crate::packet::vnet;
use crate::packet::vnet::{VNET_HEADER_LEN, VnetHeader, vnet_header};
use crate::tcp_adapter::flow::FlowKey;
use vstd::prelude::*;

verus! {

/// The addresses that the data plane answers for.
#[derive(Clone, Copy, Debug)]
pub struct Gateways {
    pub ipv4: Option<[u8; 4]>,
    pub ipv6: Option<[u8; 16]>,
}

/// What a frame asks for.
pub enum Ingress<'a> {
    /// Nothing that the data plane serves.
    Ignore,
    /// The hardware address of the gateway, by ARP.
    Arp { request: ArpRequest },
    /// The hardware address of the gateway, by neighbor discovery.
    Neighbor { target_mac: MacAddress, source: [u8; 16] },
    /// A UDP datagram.
    Udp { client: SocketAddress, gateway: SocketAddress, message: &'a [u8] },
    /// A TCP segment.
    Tcp { key: FlowKey, segment: TcpSegment<'a> },
}

/// The classes of frames.
pub enum Class {
    Ignore,
    Arp,
    Neighbor,
    Udp,
    Tcp,
}

/// The frame behind the offload state, and whether its transport checksum is
/// still to be verified. A checksum that the namespace kernel vouches for, or
/// that it left to be completed, is not.
pub open spec fn received_body(offload: bool, bytes: Seq<u8>) -> Result<(Seq<u8>, bool), Error> {
    if !offload {
        Ok((bytes, true))
    } else if bytes.len() < VNET_HEADER_LEN {
        Err(Error::Packet(PacketError::Truncated))
    } else {
        let header = vnet_header(bytes);
        if header.gso_type == vnet::GSO_NONE || header.gso_type == vnet::GSO_TCPV4
            || header.gso_type == vnet::GSO_TCPV6 {
            Ok(
                (
                    bytes.skip(VNET_HEADER_LEN as int),
                    header.flags & (vnet::FLAG_NEEDS_CSUM | vnet::FLAG_DATA_VALID) == 0,
                ),
            )
        } else {
            Err(Error::Invariant("TAP frame carries an unnegotiated GSO type"))
        }
    }
}

/// Whether the frame counts as one that the namespace left to be segmented.
pub open spec fn received_segmented(offload: bool, bytes: Seq<u8>) -> bool {
    &&& offload
    &&& bytes.len() >= VNET_HEADER_LEN
    &&& vnet_header(bytes).gso_type == vnet::GSO_TCPV4 || vnet_header(bytes).gso_type
        == vnet::GSO_TCPV6
}

pub open spec fn received_metrics(offload: bool, bytes: Seq<u8>, metrics: Metrics) -> Metrics {
    if received_segmented(offload, bytes) {
        Metrics { gso_frames_rx: counted(metrics.gso_frames_rx), ..metrics }
    } else {
        metrics
    }
}

/// Splits and validates the `virtio_net_hdr` prefix of a received frame.
/// Super-frames need no segmentation here: the payload is forwarded to the
/// upstream socket whole.
pub fn split_rx_vnet<'a>(offload: bool, bytes: &'a [u8], metrics: &mut Metrics) -> (result: Result<
    (&'a [u8], bool),
    Error,
>)
    ensures
        *final(metrics) == received_metrics(offload, bytes@, *old(metrics)),
        match result {
            Ok((body, verify)) => received_body(offload, bytes@) == Ok::<(Seq<u8>, bool), Error>(
                (body@, verify),
            ),
            Err(error) => received_body(offload, bytes@) == Err::<(Seq<u8>, bool), Error>(error),
        },
{
    if !offload {
        return Ok((bytes, true));
    }
    let header = match VnetHeader::parse(bytes) {
        Ok(header) => header,
        Err(error) => return Err(Error::Packet(error)),
    };
    match header.gso_type {
        vnet::GSO_NONE => {},
        vnet::GSO_TCPV4 | vnet::GSO_TCPV6 => {
            metrics.gso_frames_rx = count(metrics.gso_frames_rx);
        },
        _ => return Err(Error::Invariant("TAP frame carries an unnegotiated GSO type")),
    }
    let verify = header.flags & (vnet::FLAG_NEEDS_CSUM | vnet::FLAG_DATA_VALID) == 0;
    let body = vstd::slice::slice_subrange(bytes, VNET_HEADER_LEN, bytes.len());
    assert(body@ =~= bytes@.skip(VNET_HEADER_LEN as int));
    Ok((body, verify))
}

pub open spec fn refused(error: Option<PacketError>, class: Class) -> Result<Class, Error> {
    match error {
        Some(error) => Err(Error::Packet(error)),
        None => Ok(class),
    }
}

/// What an IPv4 packet is about.
pub open spec fn ipv4_class(ip: Seq<u8>, verify: bool) -> Result<Class, Error> {
    if ipv4_error(ip) is Some {
        Err(Error::Packet(ipv4_error(ip).unwrap()))
    } else if ip[9] == IPPROTO_UDP {
        refused(udp_ipv4_error(ip, verify), Class::Udp)
    } else if ip[9] == IPPROTO_TCP {
        refused(
            if verify {
                tcp_ipv4_error(ip)
            } else {
                tcp_error(ipv4_payload(ip))
            },
            Class::Tcp,
        )
    } else {
        Ok(Class::Ignore)
    }
}

/// What an IPv6 packet is about.
pub open spec fn ipv6_class(gateway: Option<[u8; 16]>, ip: Seq<u8>, verify: bool) -> Result<
    Class,
    Error,
> {
    let next = ipv6_transport_at(ip).unwrap().0;
    if ipv6_error(ip) is Some {
        Err(Error::Packet(ipv6_error(ip).unwrap()))
    } else if next == IPPROTO_ICMPV6 {
        let payload = ipv6_payload(ip);
        if payload.len() == 0 || payload[0] != 135 || gateway is None {
            Ok(Class::Ignore)
        } else if solicitation_error(ip) is Some {
            Err(Error::Packet(solicitation_error(ip).unwrap()))
        } else if payload.subrange(8, 24) == gateway.unwrap()@ {
            Ok(Class::Neighbor)
        } else {
            Ok(Class::Ignore)
        }
    } else if next == IPPROTO_UDP {
        refused(udp_ipv6_error(ip, verify), Class::Udp)
    } else if next == IPPROTO_TCP {
        refused(
            if verify {
                tcp_ipv6_error(ip)
            } else {
                tcp_error(ipv6_payload(ip))
            },
            Class::Tcp,
        )
    } else {
        Ok(Class::Ignore)
    }
}

/// What an ARP packet is about.
pub open spec fn arp_class(gateway: Option<[u8; 4]>, arp: Seq<u8>) -> Result<Class, Error> {
    match gateway {
        None => Ok(Class::Ignore),
        Some(address) => if arp_error(arp) is Some {
            Err(Error::Packet(arp_error(arp).unwrap()))
        } else if arp.subrange(24, 28) == address@ {
            Ok(Class::Arp)
        } else {
            Ok(Class::Ignore)
        },
    }
}

/// What a frame without its offload state is about.
pub open spec fn frame_class(gateways: Gateways, frame: Seq<u8>, verify: bool) -> Result<
    Class,
    Error,
> {
    if frame.len() < ETHERNET_HEADER_LEN {
        Err(Error::Packet(PacketError::Truncated))
    } else {
        let payload = frame.skip(ETHERNET_HEADER_LEN as int);
        match EtherType::spec_from_raw(be16(frame, 12)) {
            EtherType::Arp => arp_class(gateways.ipv4, payload),
            EtherType::Ipv4 => ipv4_class(payload, verify),
            EtherType::Ipv6 => ipv6_class(gateways.ipv6, payload, verify),
            EtherType::Other(_) => Ok(Class::Ignore),
        }
    }
}

/// What a received frame is about.
pub open spec fn ingress_class(gateways: Gateways, offload: bool, bytes: Seq<u8>) -> Result<
    Class,
    Error,
> {
    match received_body(offload, bytes) {
        Err(error) => Err(error),
        Ok((frame, verify)) => frame_class(gateways, frame, verify),
    }
}

/// Whether `address` is `octets` and `port`, with no flow label and no zone.
pub open spec fn address_is(address: SocketAddress, octets: Seq<u8>, port: u16) -> bool {
    &&& address.port == port
    &&& address.flowinfo == 0
    &&& address.scope_id == 0
    &&& match address.ip {
        IpAddress::V4(held) => held@ == octets,
        IpAddress::V6(held) => held@ == octets,
    }
}

/// Whether `ingress` holds what the IPv4 packet says.
pub open spec fn ipv4_content(ip: Seq<u8>, ingress: Ingress) -> bool {
    match ingress {
        Ingress::Udp { client, gateway, message } => {
            let datagram = udp_datagram(ipv4_payload(ip));
            &&& client.ip is V4 && gateway.ip is V4
            &&& address_is(client, ip.subrange(12, 16), be16(datagram, 0))
            &&& address_is(gateway, ip.subrange(16, 20), be16(datagram, 2))
            &&& message@ == datagram.skip(8)
        },
        Ingress::Tcp { key, segment } => {
            &&& key.namespace.ip is V4 && key.target.ip is V4
            &&& segment@ == ipv4_payload(ip)
            &&& address_is(key.namespace, ip.subrange(12, 16), be16(segment@, 0))
            &&& address_is(key.target, ip.subrange(16, 20), be16(segment@, 2))
        },
        _ => ingress is Ignore,
    }
}

/// Whether `ingress` holds what the IPv6 packet says.
pub open spec fn ipv6_content(sender: Seq<u8>, ip: Seq<u8>, ingress: Ingress) -> bool {
    match ingress {
        Ingress::Neighbor { target_mac, source } => {
            &&& target_mac.0@ == sender
            &&& source@ == ip.subrange(8, 24)
        },
        Ingress::Udp { client, gateway, message } => {
            let datagram = udp_datagram(ipv6_payload(ip));
            &&& client.ip is V6 && gateway.ip is V6
            &&& address_is(client, ip.subrange(8, 24), be16(datagram, 0))
            &&& address_is(gateway, ip.subrange(24, 40), be16(datagram, 2))
            &&& message@ == datagram.skip(8)
        },
        Ingress::Tcp { key, segment } => {
            &&& key.namespace.ip is V6 && key.target.ip is V6
            &&& segment@ == ipv6_payload(ip)
            &&& address_is(key.namespace, ip.subrange(8, 24), be16(segment@, 0))
            &&& address_is(key.target, ip.subrange(24, 40), be16(segment@, 2))
        },
        _ => ingress is Ignore,
    }
}

/// Whether `ingress` holds what the frame says.
pub open spec fn frame_content(frame: Seq<u8>, ingress: Ingress) -> bool {
    let payload = frame.skip(ETHERNET_HEADER_LEN as int);
    match EtherType::spec_from_raw(be16(frame, 12)) {
        EtherType::Arp => match ingress {
            Ingress::Arp { request } => {
                &&& request.sender_mac.0@ == payload.subrange(8, 14)
                &&& request.sender_ip@ == payload.subrange(14, 18)
                &&& request.target_ip@ == payload.subrange(24, 28)
            },
            _ => ingress is Ignore,
        },
        EtherType::Ipv4 => ipv4_content(payload, ingress),
        EtherType::Ipv6 => ipv6_content(frame.subrange(6, 12), payload, ingress),
        EtherType::Other(_) => ingress is Ignore,
    }
}

pub open spec fn class_of(ingress: Ingress) -> Class {
    match ingress {
        Ingress::Ignore => Class::Ignore,
        Ingress::Arp { .. } => Class::Arp,
        Ingress::Neighbor { .. } => Class::Neighbor,
        Ingress::Udp { .. } => Class::Udp,
        Ingress::Tcp { .. } => Class::Tcp,
    }
}

pub fn handle_arp<'a>(gateway: Option<[u8; 4]>, arp: &'a [u8]) -> (result: Result<
    Ingress<'a>,
    Error,
>)
    ensures
        match result {
            Ok(ingress) => {
                &&& arp_class(gateway, arp@) == Ok::<Class, Error>(class_of(ingress))
                &&& match ingress {
                    Ingress::Arp { request } => {
                        &&& request.sender_mac.0@ == arp@.subrange(8, 14)
                        &&& request.sender_ip@ == arp@.subrange(14, 18)
                        &&& request.target_ip@ == arp@.subrange(24, 28)
                    },
                    _ => ingress is Ignore,
                }
            },
            Err(error) => arp_class(gateway, arp@) == Err::<Class, Error>(error),
        },
{
    let address = match gateway {
        None => return Ok(Ingress::Ignore),
        Some(address) => address,
    };
    match neighbor::parse_arp_request(arp) {
        Err(error) => Err(Error::Packet(error)),
        Ok(request) => if crate::bytes::equal(&request.target_ip, &address) {
            Ok(Ingress::Arp { request })
        } else {
            Ok(Ingress::Ignore)
        },
    }
}

pub fn handle_ipv4<'a>(bytes: &'a [u8], verify: bool) -> (result: Result<Ingress<'a>, Error>)
    ensures
        match result {
            Ok(ingress) => {
                &&& ipv4_class(bytes@, verify) == Ok::<Class, Error>(class_of(ingress))
                &&& ipv4_content(bytes@, ingress)
            },
            Err(error) => ipv4_class(bytes@, verify) == Err::<Class, Error>(error),
        },
{
    let packet = match Ipv4Packet::parse(bytes) {
        Ok(packet) => packet,
        Err(error) => return Err(Error::Packet(error)),
    };
    let protocol: u8 = packet.protocol();
    if protocol == IPPROTO_UDP {
        let datagram = match UdpDatagram::parse_ipv4(packet, verify) {
            Ok(datagram) => datagram,
            Err(error) => return Err(Error::Packet(error)),
        };
        let client = SocketAddress::v4(packet.source(), datagram.source_port());
        let gateway = SocketAddress::v4(packet.destination(), datagram.destination_port());
        return Ok(Ingress::Udp { client, gateway, message: datagram.payload() });
    }
    if protocol != IPPROTO_TCP {
        return Ok(Ingress::Ignore);
    }
    let parsed = if verify {
        TcpSegment::parse_ipv4(packet)
    } else {
        TcpSegment::parse(packet.payload())
    };
    let segment = match parsed {
        Ok(segment) => segment,
        Err(error) => return Err(Error::Packet(error)),
    };
    let key = FlowKey {
        namespace: SocketAddress::v4(packet.source(), segment.source_port()),
        target: SocketAddress::v4(packet.destination(), segment.destination_port()),
    };
    Ok(Ingress::Tcp { key, segment })
}

pub fn handle_ipv6<'a>(
    gateway: Option<[u8; 16]>,
    sender: MacAddress,
    bytes: &'a [u8],
    verify: bool,
) -> (result: Result<Ingress<'a>, Error>)
    ensures
        match result {
            Ok(ingress) => {
                &&& ipv6_class(gateway, bytes@, verify) == Ok::<Class, Error>(class_of(ingress))
                &&& ipv6_content(sender.0@, bytes@, ingress)
            },
            Err(error) => ipv6_class(gateway, bytes@, verify) == Err::<Class, Error>(error),
        },
{
    let packet = match Ipv6Packet::parse(bytes) {
        Ok(packet) => packet,
        Err(error) => return Err(Error::Packet(error)),
    };
    let next: u8 = packet.next_header();
    if next == IPPROTO_ICMPV6 {
        let payload = packet.payload();
        if payload.len() == 0 || payload[0] != 135 {
            return Ok(Ingress::Ignore);
        }
        let address = match gateway {
            None => return Ok(Ingress::Ignore),
            Some(address) => address,
        };
        let target = match neighbor::parse_neighbor_solicitation(packet) {
            Ok(target) => target,
            Err(error) => return Err(Error::Packet(error)),
        };
        if !crate::bytes::equal(&target, &address) {
            return Ok(Ingress::Ignore);
        }
        return Ok(Ingress::Neighbor { target_mac: sender, source: packet.source() });
    }
    if next == IPPROTO_UDP {
        let datagram = match UdpDatagram::parse_ipv6(packet, verify) {
            Ok(datagram) => datagram,
            Err(error) => return Err(Error::Packet(error)),
        };
        let client = SocketAddress::v6(packet.source(), datagram.source_port());
        let gateway = SocketAddress::v6(packet.destination(), datagram.destination_port());
        return Ok(Ingress::Udp { client, gateway, message: datagram.payload() });
    }
    if next != IPPROTO_TCP {
        return Ok(Ingress::Ignore);
    }
    let parsed = if verify {
        TcpSegment::parse_ipv6(packet)
    } else {
        TcpSegment::parse(packet.payload())
    };
    let segment = match parsed {
        Ok(segment) => segment,
        Err(error) => return Err(Error::Packet(error)),
    };
    let key = FlowKey {
        namespace: SocketAddress::v6(packet.source(), segment.source_port()),
        target: SocketAddress::v6(packet.destination(), segment.destination_port()),
    };
    Ok(Ingress::Tcp { key, segment })
}

/// Reads a frame from the namespace.
pub fn handle_frame<'a>(
    gateways: &Gateways,
    offload: bool,
    bytes: &'a [u8],
    metrics: &mut Metrics,
) -> (result: Result<Ingress<'a>, Error>)
    ensures
        *final(metrics) == received_metrics(offload, bytes@, *old(metrics)),
        match result {
            Ok(ingress) => {
                &&& ingress_class(*gateways, offload, bytes@) == Ok::<Class, Error>(
                    class_of(ingress),
                )
                &&& frame_content(received_body(offload, bytes@).unwrap().0, ingress)
            },
            Err(error) => ingress_class(*gateways, offload, bytes@) == Err::<Class, Error>(
                error,
            ),
        },
{
    let (body, verify) = match split_rx_vnet(offload, bytes, metrics) {
        Ok(parts) => parts,
        Err(error) => return Err(error),
    };
    let ethernet = match EthernetFrame::parse(body) {
        Ok(ethernet) => ethernet,
        Err(error) => return Err(Error::Packet(error)),
    };
    match ethernet.ether_type() {
        EtherType::Arp => handle_arp(gateways.ipv4, ethernet.payload()),
        EtherType::Ipv4 => handle_ipv4(ethernet.payload(), verify),
        EtherType::Ipv6 => handle_ipv6(
            gateways.ipv6,
            ethernet.source(),
            ethernet.payload(),
            verify,
        ),
        EtherType::Other(_) => Ok(Ingress::Ignore),
    }
}

/// Whether `segment` holds the fields that the frame was made with and carries
/// `payload`.
pub open spec fn segment_content(spec: TcpFrameSpec, segment: Seq<u8>, payload: Seq<u8>) -> bool {
    &&& be16(segment, 0) == spec.key.target.port
    &&& be16(segment, 2) == spec.key.namespace.port
    &&& be32(segment, 4) == spec.plan.sequence
    &&& be32(segment, 8) == spec.plan.acknowledgment
    &&& tcp::flags_of(segment[13]) == spec.flags
    &&& be16(segment, 14) == spec.window
    &&& segment.skip(tcp_header_len(segment)) == payload
}

/// Filling in a checksum changes nothing else.
proof fn lemma_checksum_keeps_content(spec: TcpFrameSpec, payload: Seq<u8>, check: Seq<u8>)
    requires
        check.len() == 2,
    ensures
        ({
            let segment = splice(spec.bare_segment(payload), 16, check);
            &&& tcp_error(segment) is None
            &&& segment.len() == spec.bare_segment(payload).len()
            &&& segment_content(spec, segment, payload)
        }),
{
    let bare = spec.bare_segment(payload);
    let segment = splice(bare, 16, check);
    tcp::law_header_round_trip(spec.header(), payload);
    assert(bare.len() >= 20);
    assert(forall|i: int| 0 <= i < bare.len() && i != 16 && i != 17 ==> segment[i] == bare[i]);
    assert(tcp_header_len(segment) == tcp_header_len(bare));
    assert(segment.skip(tcp_header_len(segment)) =~= bare.skip(tcp_header_len(bare)));
}

proof fn lemma_ipv4_packet_accepted(
    spec: TcpFrameSpec,
    payload: Seq<u8>,
    source: [u8; 4],
    destination: [u8; 4],
    offload: bool,
)
    requires
        spec.key.target.ip == IpAddress::V4(source),
        spec.key.namespace.ip == IpAddress::V4(destination),
        20 + spec.bare_segment(payload).len() <= 0xffff,
    ensures
        ({
            let ip = spec.packet(offload, payload);
            &&& ipv4_error(ip) is None
            &&& ip[9] == IPPROTO_TCP
            &&& offload || tcp_ipv4_error(ip) is None
            &&& tcp_error(ipv4_payload(ip)) is None
            &&& ip.subrange(12, 16) == source@
            &&& ip.subrange(16, 20) == destination@
            &&& segment_content(spec, ipv4_payload(ip), payload)
        }),
{
    reveal(TcpFrameSpec::packet);
    let bare = spec.bare_segment(payload);
    let partial = ipv4_pseudo_sum(source@, destination@, 6, bare.len() as u32);
    let segment = if offload {
        tcp::with_partial_checksum(bare, partial)
    } else {
        tcp::with_ipv4_checksum(bare, source@, destination@)
    };
    let check = be16_bytes(
        if offload {
            ones_sum(partial)
        } else {
            complement(
                ipv4_transport_sum(source@, destination@, 6, tcp::without_checksum(bare)),
            )
        },
    );
    lemma_checksum_keeps_content(spec, payload, check);
    assert(segment =~= splice(bare, 16, check));
    tcp::law_ipv4_checksum_verifies(bare, source@, destination@);
    crate::packet::ip::law_ipv4_round_trip(
        source@,
        destination@,
        IPPROTO_TCP,
        bare.len() as int,
        0,
        segment,
    );
    assert(segment.subrange(0, bare.len() as int) =~= segment);
}

proof fn lemma_ipv6_packet_accepted(
    spec: TcpFrameSpec,
    payload: Seq<u8>,
    source: [u8; 16],
    destination: [u8; 16],
    offload: bool,
)
    requires
        spec.key.target.ip == IpAddress::V6(source),
        spec.key.namespace.ip == IpAddress::V6(destination),
        spec.bare_segment(payload).len() <= 0xffff,
    ensures
        ({
            let ip = spec.packet(offload, payload);
            &&& ipv6_error(ip) is None
            &&& ipv6_transport_at(ip).unwrap().0 == IPPROTO_TCP
            &&& offload || tcp_ipv6_error(ip) is None
            &&& tcp_error(ipv6_payload(ip)) is None
            &&& ip.subrange(8, 24) == source@
            &&& ip.subrange(24, 40) == destination@
            &&& segment_content(spec, ipv6_payload(ip), payload)
        }),
{
    reveal(TcpFrameSpec::packet);
    let bare = spec.bare_segment(payload);
    let partial = ipv6_pseudo_sum(source@, destination@, 6, bare.len() as u32);
    let segment = if offload {
        tcp::with_partial_checksum(bare, partial)
    } else {
        tcp::with_ipv6_checksum(bare, source@, destination@)
    };
    let check = be16_bytes(
        if offload {
            ones_sum(partial)
        } else {
            complement(
                ipv6_transport_sum(source@, destination@, 6, tcp::without_checksum(bare)),
            )
        },
    );
    lemma_checksum_keeps_content(spec, payload, check);
    assert(segment =~= splice(bare, 16, check));
    tcp::law_ipv6_checksum_verifies(bare, source@, destination@);
    crate::packet::ip::law_ipv6_round_trip(
        source@,
        destination@,
        IPPROTO_TCP,
        bare.len() as int,
        64,
        segment,
    );
    assert(segment.subrange(0, bare.len() as int) =~= segment);
}

/// A frame without its offload state is accepted, with its checksum verified
/// unless it is still to be completed.
proof fn lemma_body_accepted(
    spec: TcpFrameSpec,
    link: Link,
    gateways: Gateways,
    payload: Seq<u8>,
)
    requires
        spec.refusal(link.offload) is None,
        payload.len() == spec.payload_len,
    ensures
        ({
            let ip = spec.packet(link.offload, payload);
            let body = link_header(link, spec.key.target.ip is V4) + ip;
            let segment = if spec.key.target.ip is V4 {
                ipv4_payload(ip)
            } else {
                ipv6_payload(ip)
            };
            &&& body.skip(ETHERNET_HEADER_LEN as int) == ip
            &&& frame_class(gateways, body, !link.offload) == Ok::<Class, Error>(Class::Tcp)
            &&& segment_content(spec, segment, payload)
        }),
{
    let v4 = spec.key.target.ip is V4;
    let ip = spec.packet(link.offload, payload);
    let ether_type = if v4 {
        EtherType::Ipv4
    } else {
        EtherType::Ipv6
    };
    crate::packet::ethernet::law_header_round_trip(
        link.target_mac,
        link.gateway_mac,
        ether_type,
        ip,
    );
    tcp::law_header_round_trip(spec.header(), payload);
    assert(spec.bare_segment(payload).len() == tcp::header_len(spec.header()) + payload.len())
        by {
        assert(spec.bare_segment(payload).skip(tcp::header_len(spec.header())).len()
            == payload.len());
    }
    match (spec.key.target.ip, spec.key.namespace.ip) {
        (IpAddress::V4(source), IpAddress::V4(destination)) => {
            lemma_ipv4_packet_accepted(spec, payload, source, destination, link.offload);
        },
        (IpAddress::V6(source), IpAddress::V6(destination)) => {
            lemma_ipv6_packet_accepted(spec, payload, source, destination, link.offload);
        },
        _ => {},
    }
}

/// The offload state of a frame says that its checksum is to be completed.
proof fn lemma_offload_state_accepted(spec: TcpFrameSpec, body: Seq<u8>)
    ensures
        received_body(true, spec.offload_state().octets() + body) == Ok::<(Seq<u8>, bool), Error>(
            (body, false),
        ),
        spec.offload_state().octets().len() == VNET_HEADER_LEN,
{
    reveal(TcpFrameSpec::offload_state);
    let state = spec.offload_state();
    let frame = state.octets() + body;
    vnet::law_header_round_trip(state, body);
    assert(frame.skip(VNET_HEADER_LEN as int) =~= body);
    assert(1u8 & (1u8 | 2u8) != 0) by (bit_vector);
}

/// Every TCP frame that is built is one that a receiver on the same link
/// accepts: its lengths are right, its checksums are right or left to be
/// completed, and it gives back the fields and the payload that it was built
/// from.
pub proof fn law_tcp_frame_reads_back(
    spec: TcpFrameSpec,
    link: Link,
    gateways: Gateways,
    payload: Seq<u8>,
)
    requires
        spec.refusal(link.offload) is None,
        payload.len() == spec.payload_len,
    ensures
        ({
            let frame = spec.frame(link, payload);
            let ip = frame.skip(prefix_len(link.offload) + ETHERNET_HEADER_LEN);
            let segment = if spec.key.target.ip is V4 {
                ipv4_payload(ip)
            } else {
                ipv6_payload(ip)
            };
            &&& ingress_class(gateways, link.offload, frame) == Ok::<Class, Error>(Class::Tcp)
            &&& segment_content(spec, segment, payload)
        }),
{
    let frame = spec.frame(link, payload);
    let ip = spec.packet(link.offload, payload);
    let body = link_header(link, spec.key.target.ip is V4) + ip;
    lemma_body_accepted(spec, link, gateways, payload);
    if link.offload {
        let state = spec.offload_state().octets();
        lemma_offload_state_accepted(spec, body);
        assert(frame =~= state + body);
        assert(frame.skip(VNET_HEADER_LEN + ETHERNET_HEADER_LEN) =~= body.skip(
            ETHERNET_HEADER_LEN as int,
        ));
    } else {
        assert(frame =~= body);
    }
}

/// Filling in a checksum keeps the ports and the payload of a datagram.
proof fn lemma_checksum_keeps_datagram(
    client: SocketAddress,
    gateway: SocketAddress,
    payload: Seq<u8>,
    check: Seq<u8>,
)
    requires
        check.len() == 2,
        8 + payload.len() <= 0xffff,
    ensures
        ({
            let datagram = splice(bare_datagram(client, gateway, payload), 6, check);
            &&& datagram.len() == 8 + payload.len()
            &&& udp_error(datagram) is None
            &&& udp_datagram(datagram) == datagram
            &&& be16(datagram, 0) == gateway.port
            &&& be16(datagram, 2) == client.port
            &&& datagram.skip(8) == payload
        }),
{
    let bare = bare_datagram(client, gateway, payload);
    let datagram = splice(bare, 6, check);
    udp::law_header_round_trip(gateway.port, client.port, payload, Seq::empty());
    assert(bare + Seq::<u8>::empty() =~= bare);
    assert(bare.len() == 8 + payload.len());
    assert(be16(bare, 4) == 8 + payload.len()) by {
        assert(udp_datagram(bare).skip(8).len() == payload.len());
    }
    assert(forall|i: int| 0 <= i < bare.len() && i != 6 && i != 7 ==> datagram[i] == bare[i]);
    assert(udp_datagram(bare) =~= bare);
    assert(udp_datagram(datagram) =~= datagram);
    assert(datagram.skip(8) =~= bare.skip(8));
}

proof fn lemma_ipv4_reply_accepted(
    client: SocketAddress,
    gateway: SocketAddress,
    payload: Seq<u8>,
    source: [u8; 4],
    destination: [u8; 4],
)
    requires
        gateway.ip == IpAddress::V4(source),
        client.ip == IpAddress::V4(destination),
        28 + payload.len() <= 0xffff,
    ensures
        ({
            let ip = reply_packet(client, gateway, payload);
            let datagram = udp_datagram(ipv4_payload(ip));
            &&& ipv4_error(ip) is None
            &&& ip[9] == IPPROTO_UDP
            &&& udp_ipv4_error(ip, true) is None
            &&& ip.subrange(12, 16) == source@
            &&& ip.subrange(16, 20) == destination@
            &&& be16(datagram, 0) == gateway.port
            &&& be16(datagram, 2) == client.port
            &&& datagram.skip(8) == payload
        }),
{
    reveal(reply_packet);
    let bare = bare_datagram(client, gateway, payload);
    let done = udp::with_ipv4_checksum(bare, source@, destination@);
    assert(bare.len() == 8 + payload.len());
    lemma_checksum_keeps_datagram(client, gateway, payload, done.subrange(6, 8));
    assert(done =~= splice(bare, 6, done.subrange(6, 8)));
    udp::law_ipv4_checksum_verifies(bare, source@, destination@);
    crate::packet::ip::law_ipv4_round_trip(
        source@,
        destination@,
        IPPROTO_UDP,
        bare.len() as int,
        0,
        done,
    );
    assert(done.subrange(0, bare.len() as int) =~= done);
}

proof fn lemma_ipv6_reply_accepted(
    client: SocketAddress,
    gateway: SocketAddress,
    payload: Seq<u8>,
    source: [u8; 16],
    destination: [u8; 16],
)
    requires
        gateway.ip == IpAddress::V6(source),
        client.ip == IpAddress::V6(destination),
        8 + payload.len() <= 0xffff,
    ensures
        ({
            let ip = reply_packet(client, gateway, payload);
            let datagram = udp_datagram(ipv6_payload(ip));
            &&& ipv6_error(ip) is None
            &&& ipv6_transport_at(ip).unwrap().0 == IPPROTO_UDP
            &&& udp_ipv6_error(ip, true) is None
            &&& ip.subrange(8, 24) == source@
            &&& ip.subrange(24, 40) == destination@
            &&& be16(datagram, 0) == gateway.port
            &&& be16(datagram, 2) == client.port
            &&& datagram.skip(8) == payload
        }),
{
    reveal(reply_packet);
    let bare = bare_datagram(client, gateway, payload);
    let done = udp::with_ipv6_checksum(bare, source@, destination@);
    assert(bare.len() == 8 + payload.len());
    lemma_checksum_keeps_datagram(client, gateway, payload, done.subrange(6, 8));
    assert(done =~= splice(bare, 6, done.subrange(6, 8)));
    udp::law_ipv6_checksum_verifies(bare, source@, destination@);
    crate::packet::ip::law_ipv6_round_trip(
        source@,
        destination@,
        IPPROTO_UDP,
        bare.len() as int,
        64,
        done,
    );
    assert(done.subrange(0, bare.len() as int) =~= done);
}

/// No offload state says that checksums are complete.
proof fn lemma_plain_state_accepted(body: Seq<u8>)
    ensures
        received_body(true, zeros(VNET_HEADER_LEN as nat) + body) == Ok::<(Seq<u8>, bool), Error>(
            (body, true),
        ),
{
    let frame = zeros(VNET_HEADER_LEN as nat) + body;
    assert(frame[0] == 0 && frame[1] == 0);
    assert(frame.skip(VNET_HEADER_LEN as int) =~= body);
    assert(0u8 & (1u8 | 2u8) == 0) by (bit_vector);
}

/// Every DNS reply that is sent is one that its client accepts: it comes from
/// the gateway that the query went to, its lengths and checksums are right, and
/// it carries the message.
pub proof fn law_dns_reply_reads_back(
    link: Link,
    gateways: Gateways,
    client: SocketAddress,
    gateway: SocketAddress,
    payload: Seq<u8>,
    capacity: nat,
)
    requires
        reply_refusal(link.offload, client, gateway, payload.len() as int, capacity) is None,
    ensures
        ({
            let frame = reply_frame(link, client, gateway, payload);
            let ip = frame.skip(prefix_len(link.offload) + ETHERNET_HEADER_LEN);
            let datagram = udp_datagram(
                if client.ip is V4 {
                    ipv4_payload(ip)
                } else {
                    ipv6_payload(ip)
                },
            );
            &&& ingress_class(gateways, link.offload, frame) == Ok::<Class, Error>(Class::Udp)
            &&& match (gateway.ip, client.ip) {
                (IpAddress::V4(from), IpAddress::V4(to)) => {
                    ip.subrange(12, 16) == from@ && ip.subrange(16, 20) == to@
                },
                (IpAddress::V6(from), IpAddress::V6(to)) => {
                    ip.subrange(8, 24) == from@ && ip.subrange(24, 40) == to@
                },
                _ => false,
            }
            &&& be16(datagram, 0) == gateway.port
            &&& be16(datagram, 2) == client.port
            &&& datagram.skip(8) == payload
        }),
{
    let v4 = client.ip is V4;
    let frame = reply_frame(link, client, gateway, payload);
    let ip = reply_packet(client, gateway, payload);
    let body = link_header(link, v4) + ip;
    let ether_type = if v4 {
        EtherType::Ipv4
    } else {
        EtherType::Ipv6
    };
    crate::packet::ethernet::law_header_round_trip(
        link.target_mac,
        link.gateway_mac,
        ether_type,
        ip,
    );
    assert(body.skip(ETHERNET_HEADER_LEN as int) =~= ip);
    match (gateway.ip, client.ip) {
        (IpAddress::V4(source), IpAddress::V4(destination)) => {
            lemma_ipv4_reply_accepted(client, gateway, payload, source, destination);
        },
        (IpAddress::V6(source), IpAddress::V6(destination)) => {
            lemma_ipv6_reply_accepted(client, gateway, payload, source, destination);
        },
        _ => {},
    }
    if link.offload {
        lemma_plain_state_accepted(body);
        assert(frame =~= zeros(VNET_HEADER_LEN as nat) + body);
        assert(frame.skip(VNET_HEADER_LEN + ETHERNET_HEADER_LEN) =~= ip);
    } else {
        assert(frame =~= body);
        assert(frame.skip(0 + ETHERNET_HEADER_LEN) =~= ip);
    }
}

/// Without offload state a frame is taken as it is, and its checksum is
/// verified. With it, ten octets come off the front, and the checksum is
/// verified exactly when neither of its two lowest flags is set.
pub proof fn law_offload_state_comes_off(bytes: Seq<u8>)
    ensures
        received_body(false, bytes) == Ok::<(Seq<u8>, bool), Error>((bytes, true)),
        bytes.len() < 10 ==> received_body(true, bytes) == Err::<(Seq<u8>, bool), Error>(
            Error::Packet(PacketError::Truncated),
        ),
        bytes.len() >= 10 ==> {
            &&& received_body(true, bytes) is Ok <==> bytes[1] == 0 || bytes[1] == 1 || bytes[1]
                == 4
            &&& received_body(true, bytes) is Ok ==> received_body(true, bytes)->Ok_0 == (
                bytes.skip(10),
                bytes[0] % 4 == 0,
            )
            &&& received_body(true, bytes) is Err ==> received_body(
                true,
                bytes,
            )->Err_0 is Invariant
        },
{
    let flags = bytes[0];
    assert(flags & 3u8 == flags % 4 && 1u8 | 2u8 == 3u8) by (bit_vector);
}

/// A frame that the namespace left to be cut is counted: exactly one with
/// offload state whose second octet names TCP over IPv4 or IPv6.
pub proof fn law_uncut_frames_are_counted(offload: bool, bytes: Seq<u8>, metrics: Metrics)
    ensures
        received_segmented(offload, bytes) <==> offload && bytes.len() >= 10 && (bytes[1] == 1
            || bytes[1] == 4),
        received_metrics(offload, bytes, metrics).gso_frames_rx != metrics.gso_frames_rx
            ==> received_segmented(offload, bytes),
        received_segmented(offload, bytes) && metrics.gso_frames_rx < u64::MAX
            ==> received_metrics(offload, bytes, metrics).gso_frames_rx == metrics.gso_frames_rx
            + 1,
        received_metrics(offload, bytes, metrics).gso_frames_tx == metrics.gso_frames_tx,
{
}

/// The type of a frame decides what it is read as, and every type but those of
/// ARP and the two versions of IP is passed over.
pub proof fn law_frame_type_decides(gateways: Gateways, frame: Seq<u8>, verify: bool)
    ensures
        frame.len() < 14 ==> frame_class(gateways, frame, verify) == Err::<Class, Error>(
            Error::Packet(PacketError::Truncated),
        ),
        frame.len() >= 14 ==> {
            let kind = 256 * frame[12] + frame[13];
            frame_class(gateways, frame, verify) == if kind == 0x0800 {
                ipv4_class(frame.skip(14), verify)
            } else if kind == 0x86dd {
                ipv6_class(gateways.ipv6, frame.skip(14), verify)
            } else if kind == 0x0806 {
                arp_class(gateways.ipv4, frame.skip(14))
            } else {
                Ok::<Class, Error>(Class::Ignore)
            }
        },
{
    if frame.len() >= 14 {
        crate::bytes::law_octet_orders(frame, 12, 0, 0);
    }
}

/// An IPv4 packet in order is a TCP segment exactly when its protocol is 6 and
/// the segment is in order, a UDP datagram exactly when it is 17 and the
/// datagram is in order, and passed over under any other protocol.
pub proof fn law_ipv4_protocol_decides(ip: Seq<u8>, verify: bool)
    requires
        ipv4_error(ip) is None,
    ensures
        ipv4_class(ip, verify) == Ok::<Class, Error>(Class::Tcp) <==> ip[9] == 6 && (if verify {
            tcp_ipv4_error(ip) is None
        } else {
            tcp_error(ipv4_payload(ip)) is None
        }),
        ipv4_class(ip, verify) == Ok::<Class, Error>(Class::Udp) <==> ip[9] == 17
            && udp_ipv4_error(ip, verify) is None,
        ip[9] != 6 && ip[9] != 17 ==> ipv4_class(ip, verify) == Ok::<Class, Error>(Class::Ignore),
        ip[9] == 6 || ip[9] == 17 ==> ipv4_class(ip, verify) != Ok::<Class, Error>(Class::Ignore),
{
}

/// The same of an IPv6 packet behind its extension headers. An ICMPv6 message is
/// answered exactly when it is a solicitation, number 135, in order and for the
/// gateway.
pub proof fn law_ipv6_protocol_decides(gateway: Option<[u8; 16]>, ip: Seq<u8>, verify: bool)
    requires
        ipv6_error(ip) is None,
    ensures
        ({
            let next = ipv6_transport_at(ip).unwrap().0;
            let class = ipv6_class(gateway, ip, verify);
            &&& class == Ok::<Class, Error>(Class::Tcp) <==> next == 6 && (if verify {
                tcp_ipv6_error(ip) is None
            } else {
                tcp_error(ipv6_payload(ip)) is None
            })
            &&& class == Ok::<Class, Error>(Class::Udp) <==> next == 17 && udp_ipv6_error(
                ip,
                verify,
            ) is None
            &&& class == Ok::<Class, Error>(Class::Neighbor) <==> {
                &&& next == 58
                &&& ipv6_payload(ip).len() > 0
                &&& ipv6_payload(ip)[0] == 135
                &&& gateway is Some
                &&& solicitation_error(ip) is None
                &&& ipv6_payload(ip).subrange(8, 24) == gateway.unwrap()@
            }
            &&& next != 6 && next != 17 && next != 58 ==> class == Ok::<Class, Error>(Class::Ignore)
        }),
{
}

/// An ARP request is answered exactly when it is in order and asks for the
/// gateway.
pub proof fn law_only_the_gateway_answers_arp(gateway: Option<[u8; 4]>, arp: Seq<u8>)
    ensures
        arp_class(gateway, arp) == Ok::<Class, Error>(Class::Arp) <==> gateway is Some && arp_error(
            arp,
        ) is None && arp.subrange(24, 28) == gateway.unwrap()@,
        gateway is None ==> arp_class(gateway, arp) == Ok::<Class, Error>(Class::Ignore),
        gateway is Some && arp_error(arp) is None ==> arp_class(gateway, arp) is Ok,
        gateway is Some && arp_error(arp) is Some ==> arp_class(gateway, arp) == Err::<
            Class,
            Error,
        >(Error::Packet(arp_error(arp).unwrap())),
{
}

/// A flow is named by the addresses and ports that its segments carry: those of
/// the sender are the namespace's, those of the receiver the target's.
pub proof fn law_segment_names_its_flow(
    ip: Seq<u8>,
    sender: Seq<u8>,
    key: FlowKey,
    segment: TcpSegment<'_>,
)
    ensures
        ipv4_content(ip, Ingress::Tcp { key, segment }) ==> {
            &&& key.namespace.ip is V4 && key.target.ip is V4
            &&& key.namespace.ip->V4_0@ == ip.subrange(12, 16)
            &&& key.target.ip->V4_0@ == ip.subrange(16, 20)
            &&& key.namespace.port == 256 * segment@[0] + segment@[1]
            &&& key.target.port == 256 * segment@[2] + segment@[3]
            &&& segment@ == ipv4_payload(ip)
        },
        ipv6_content(sender, ip, Ingress::Tcp { key, segment }) ==> {
            &&& key.namespace.ip is V6 && key.target.ip is V6
            &&& key.namespace.ip->V6_0@ == ip.subrange(8, 24)
            &&& key.target.ip->V6_0@ == ip.subrange(24, 40)
            &&& key.namespace.port == 256 * segment@[0] + segment@[1]
            &&& key.target.port == 256 * segment@[2] + segment@[3]
            &&& segment@ == ipv6_payload(ip)
        },
{
    crate::bytes::law_octet_orders(segment@, 0, 0, 0);
    crate::bytes::law_octet_orders(segment@, 2, 0, 0);
}

/// A datagram is from the address and port that it carries as its source, and
/// for those of its destination, and its message lies behind eight octets.
pub proof fn law_datagram_names_its_client(
    ip: Seq<u8>,
    sender: Seq<u8>,
    client: SocketAddress,
    gateway: SocketAddress,
    message: &[u8],
)
    ensures
        ipv4_content(ip, Ingress::Udp { client, gateway, message }) ==> {
            let datagram = udp_datagram(ipv4_payload(ip));
            &&& client.ip is V4 && gateway.ip is V4
            &&& client.ip->V4_0@ == ip.subrange(12, 16)
            &&& gateway.ip->V4_0@ == ip.subrange(16, 20)
            &&& client.port == 256 * datagram[0] + datagram[1]
            &&& gateway.port == 256 * datagram[2] + datagram[3]
            &&& message@ == datagram.skip(8)
        },
        ipv6_content(sender, ip, Ingress::Udp { client, gateway, message }) ==> {
            let datagram = udp_datagram(ipv6_payload(ip));
            &&& client.ip is V6 && gateway.ip is V6
            &&& client.ip->V6_0@ == ip.subrange(8, 24)
            &&& gateway.ip->V6_0@ == ip.subrange(24, 40)
            &&& client.port == 256 * datagram[0] + datagram[1]
            &&& gateway.port == 256 * datagram[2] + datagram[3]
            &&& message@ == datagram.skip(8)
        },
{
    let narrow = udp_datagram(ipv4_payload(ip));
    let wide = udp_datagram(ipv6_payload(ip));
    crate::bytes::law_octet_orders(narrow, 0, 0, 0);
    crate::bytes::law_octet_orders(narrow, 2, 0, 0);
    crate::bytes::law_octet_orders(wide, 0, 0, 0);
    crate::bytes::law_octet_orders(wide, 2, 0, 0);
}

} // verus!
