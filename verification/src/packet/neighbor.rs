//! Address resolution: ARP for IPv4, neighbor discovery for IPv6.

use super::PacketError;
use super::checksum::{
    complement, ipv6_transport_sum, lemma_complement_verifies, lemma_word_sum_bound,
    lemma_word_sum_splice,
};
use super::ethernet::{ETHERNET_HEADER_LEN, EtherType, MacAddress, header_bytes};
use super::ip::{
    IPPROTO_ICMPV6, Ipv6Packet, ipv6_error, ipv6_header_with, ipv6_payload, ipv6_transport_at,
    law_ipv6_round_trip,
};
use crate::bytes::{be16_bytes, splice, zeros};
use vstd::prelude::*;

verus! {

pub const ARP_PACKET_LEN: usize = 28;

/// The ICMPv6 part of a neighbor advertisement.
pub const ADVERTISEMENT_LEN: usize = 32;

#[derive(Clone, Copy, Debug)]
pub struct ArpRequest {
    pub sender_mac: MacAddress,
    pub sender_ip: [u8; 4],
    pub target_ip: [u8; 4],
}

/// The fixed octets of an Ethernet/IPv4 ARP packet with the given operation.
pub open spec fn arp_prefix(operation: u8) -> Seq<u8> {
    seq![0u8, 1u8, 8u8, 0u8, 6u8, 4u8, 0u8, operation]
}

/// Why `s` does not start with an ARP request, if it does not.
pub open spec fn arp_error(s: Seq<u8>) -> Option<PacketError> {
    if s.len() < 28 {
        Some(PacketError::Truncated)
    } else if s.subrange(0, 8) != arp_prefix(1) {
        Some(PacketError::Unsupported)
    } else {
        None
    }
}

pub fn parse_arp_request(bytes: &[u8]) -> (result: Result<ArpRequest, PacketError>)
    ensures
        match result {
            Ok(request) => {
                &&& arp_error(bytes@) is None
                &&& request.sender_mac.0@ == bytes@.subrange(8, 14)
                &&& request.sender_ip@ == bytes@.subrange(14, 18)
                &&& request.target_ip@ == bytes@.subrange(24, 28)
            },
            Err(error) => arp_error(bytes@) == Some(error),
        },
{
    if bytes.len() < ARP_PACKET_LEN {
        return Err(PacketError::Truncated);
    }
    let prefix = [0, 1, 8, 0, 6, 4, 0, 1];
    assert(prefix@ =~= arp_prefix(1));
    if !crate::bytes::equal(vstd::slice::slice_subrange(bytes, 0, 8), &prefix) {
        return Err(PacketError::Unsupported);
    }
    Ok(
        ArpRequest {
            sender_mac: MacAddress(crate::bytes::take6(bytes, 8)),
            sender_ip: crate::bytes::take4(bytes, 14),
            target_ip: crate::bytes::take4(bytes, 24),
        },
    )
}

/// The frame that answers `request` for the gateway.
pub open spec fn arp_reply(
    gateway_mac: MacAddress,
    gateway_ip: Seq<u8>,
    request: ArpRequest,
) -> Seq<u8> {
    header_bytes(request.sender_mac, gateway_mac, EtherType::Arp) + (arp_prefix(2)
        + gateway_mac.0@ + gateway_ip + request.sender_mac.0@ + request.sender_ip@)
}

pub fn write_arp_reply(
    out: &mut [u8],
    gateway_mac: MacAddress,
    gateway_ip: [u8; 4],
    request: ArpRequest,
) -> (result: Result<usize, PacketError>)
    ensures
        match result {
            Ok(length) => {
                &&& length == 42
                &&& old(out)@.len() >= 42
                &&& final(out)@ == arp_reply(gateway_mac, gateway_ip@, request) + old(out)@.skip(
                    42,
                )
            },
            Err(error) => {
                &&& old(out)@.len() < 42
                &&& error == PacketError::Truncated
                &&& final(out)@ == old(out)@
            },
        },
{
    let length: usize = ETHERNET_HEADER_LEN + ARP_PACKET_LEN;
    if out.len() < length {
        return Err(PacketError::Truncated);
    }
    let ghost before = out@;
    let ghost header = header_bytes(request.sender_mac, gateway_mac, EtherType::Arp);
    match super::ethernet::write_header(out, request.sender_mac, gateway_mac, EtherType::Arp) {
        Ok(()) => {},
        Err(error) => return Err(error),
    }
    let prefix = [0, 1, 8, 0, 6, 4, 0, 2];
    assert(prefix@ =~= arp_prefix(2));
    crate::bytes::put(out, 14, &prefix);
    crate::bytes::put(out, 22, &gateway_mac.0);
    crate::bytes::put(out, 28, &gateway_ip);
    crate::bytes::put(out, 32, &request.sender_mac.0);
    crate::bytes::put(out, 38, &request.sender_ip);
    assert(out@ =~= arp_reply(gateway_mac, gateway_ip@, request) + before.skip(42));
    Ok(length)
}

/// The multicast address on which a station expects solicitations for
/// `target`.
pub open spec fn solicited_node(target: Seq<u8>) -> Seq<u8> {
    seq![0xffu8, 0x02u8] + zeros(9) + seq![0x01u8, 0xffu8] + target.subrange(13, 16)
}

pub fn solicited_node_multicast(target: [u8; 16]) -> (address: [u8; 16])
    ensures
        address@ == solicited_node(target@),
{
    let address = [
        0xff,
        0x02,
        0,
        0,
        0,
        0,
        0,
        0,
        0,
        0,
        0,
        0x01,
        0xff,
        target[13],
        target[14],
        target[15],
    ];
    assert(address@ =~= solicited_node(target@));
    address
}

/// Why the IPv6 packet `ip` is not a neighbor solicitation, if it is not.
pub open spec fn solicitation_error(ip: Seq<u8>) -> Option<PacketError> {
    let payload = ipv6_payload(ip);
    if ipv6_transport_at(ip).unwrap().0 != IPPROTO_ICMPV6 {
        Some(PacketError::ProtocolMismatch)
    } else if payload.len() < 24 || payload[0] != 135 || payload[1] != 0 {
        Some(PacketError::Unsupported)
    } else if complement(
        ipv6_transport_sum(ip.subrange(8, 24), ip.subrange(24, 40), 58, payload),
    ) != 0 {
        Some(PacketError::InvalidChecksum)
    } else {
        None
    }
}

pub fn parse_neighbor_solicitation(ipv6: Ipv6Packet<'_>) -> (result: Result<[u8; 16], PacketError>)
    ensures
        match result {
            Ok(target) => {
                &&& solicitation_error(ipv6@) is None
                &&& target@ == ipv6_payload(ipv6@).subrange(8, 24)
            },
            Err(error) => solicitation_error(ipv6@) == Some(error),
        },
{
    if ipv6.next_header() != IPPROTO_ICMPV6 {
        return Err(PacketError::ProtocolMismatch);
    }
    let payload = ipv6.payload();
    if payload.len() < 24 || payload[0] != 135 || payload[1] != 0 {
        return Err(PacketError::Unsupported);
    }
    let source = ipv6.source();
    let destination = ipv6.destination();
    proof {
        lemma_word_sum_bound(payload@);
        lemma_word_sum_bound(source@);
        lemma_word_sum_bound(destination@);
    }
    if super::checksum::ipv6_transport(source, destination, 58, payload) != 0 {
        return Err(PacketError::InvalidChecksum);
    }
    Ok(crate::bytes::take16(payload, 8))
}

/// A solicited, overriding advertisement of the gateway with `check` in its
/// checksum field.
pub open spec fn advertisement_with(
    gateway_mac: MacAddress,
    gateway_ip: Seq<u8>,
    check: u16,
) -> Seq<u8> {
    seq![136u8, 0u8] + be16_bytes(check) + seq![0x60u8, 0u8, 0u8, 0u8] + gateway_ip + seq![2u8, 1u8]
        + gateway_mac.0@
}

/// The advertisement of the gateway to `target_ip`, checksum included.
pub open spec fn advertisement(
    gateway_mac: MacAddress,
    gateway_ip: Seq<u8>,
    target_ip: Seq<u8>,
) -> Seq<u8> {
    advertisement_with(
        gateway_mac,
        gateway_ip,
        complement(
            ipv6_transport_sum(
                gateway_ip,
                target_ip,
                58,
                advertisement_with(gateway_mac, gateway_ip, 0),
            ),
        ),
    )
}

/// The frame that carries the advertisement. Its hop limit is 255, as neighbor
/// discovery requires.
pub open spec fn advertisement_frame(
    gateway_mac: MacAddress,
    target_mac: MacAddress,
    gateway_ip: Seq<u8>,
    target_ip: Seq<u8>,
) -> Seq<u8> {
    header_bytes(target_mac, gateway_mac, EtherType::Ipv6) + ipv6_header_with(
        gateway_ip,
        target_ip,
        IPPROTO_ICMPV6,
        32,
        255,
    ) + advertisement(gateway_mac, gateway_ip, target_ip)
}

pub fn write_neighbor_advertisement(
    out: &mut [u8],
    gateway_mac: MacAddress,
    target_mac: MacAddress,
    gateway_ip: [u8; 16],
    target_ip: [u8; 16],
) -> (result: Result<usize, PacketError>)
    ensures
        match result {
            Ok(length) => {
                &&& length == 86
                &&& old(out)@.len() >= 86
                &&& final(out)@ == advertisement_frame(
                    gateway_mac,
                    target_mac,
                    gateway_ip@,
                    target_ip@,
                ) + old(out)@.skip(86)
            },
            Err(error) => {
                &&& old(out)@.len() < 86
                &&& error == PacketError::Truncated
                &&& final(out)@ == old(out)@
            },
        },
{
    let length: usize = ETHERNET_HEADER_LEN + 40 + ADVERTISEMENT_LEN;
    if out.len() < length {
        return Err(PacketError::Truncated);
    }
    let ghost before = out@;
    let mut icmp = [0u8; 32];
    crate::bytes::put(&mut icmp, 0, &[136]);
    crate::bytes::put(&mut icmp, 4, &[0x60]);
    crate::bytes::put(&mut icmp, 8, &gateway_ip);
    crate::bytes::put(&mut icmp, 24, &[2, 1]);
    crate::bytes::put(&mut icmp, 26, &gateway_mac.0);
    let ghost plain = advertisement_with(gateway_mac, gateway_ip@, 0);
    assert(icmp@ =~= plain);
    proof {
        lemma_word_sum_bound(plain);
        lemma_word_sum_bound(gateway_ip@);
        lemma_word_sum_bound(target_ip@);
    }
    let value: u16 = super::checksum::ipv6_transport(gateway_ip, target_ip, 58, &icmp);
    crate::bytes::put(&mut icmp, 2, &crate::bytes::be16_octets(value));
    assert(icmp@ =~= advertisement(gateway_mac, gateway_ip@, target_ip@));
    let mut header = [0u8; 40];
    match super::ip::write_ipv6_header(
        &mut header,
        gateway_ip,
        target_ip,
        IPPROTO_ICMPV6,
        ADVERTISEMENT_LEN,
    ) {
        Ok(_) => {},
        Err(error) => return Err(error),
    }
    header[7] = 255;
    proof {
        reveal(ipv6_header_with);
    }
    let ghost ip_header = ipv6_header_with(gateway_ip@, target_ip@, IPPROTO_ICMPV6, 32, 255);
    assert(header@ =~= ip_header);
    match super::ethernet::write_header(out, target_mac, gateway_mac, EtherType::Ipv6) {
        Ok(()) => {},
        Err(error) => return Err(error),
    }
    crate::bytes::put(out, 14, &header);
    crate::bytes::put(out, 54, &icmp);
    assert(out@ =~= header_bytes(target_mac, gateway_mac, EtherType::Ipv6) + header@ + icmp@
        + before.skip(86));
    Ok(length)
}

/// An advertisement parses as an IPv6 packet whose ICMPv6 checksum verifies.
pub proof fn law_advertisement_verifies(
    gateway_mac: MacAddress,
    target_mac: MacAddress,
    gateway_ip: Seq<u8>,
    target_ip: Seq<u8>,
)
    requires
        gateway_ip.len() == 16,
        target_ip.len() == 16,
    ensures
        ({
            let packet = advertisement_frame(gateway_mac, target_mac, gateway_ip, target_ip).skip(
                14,
            );
            &&& packet[7] == 255
            &&& ipv6_error(packet) is None
            &&& packet.subrange(8, 24) == gateway_ip
            &&& packet.subrange(24, 40) == target_ip
            &&& ipv6_transport_at(packet) == Some((IPPROTO_ICMPV6, 40int))
            &&& ipv6_payload(packet) == advertisement(gateway_mac, gateway_ip, target_ip)
            &&& complement(
                ipv6_transport_sum(gateway_ip, target_ip, 58, ipv6_payload(packet)),
            ) == 0
        }),
{
    let icmp = advertisement(gateway_mac, gateway_ip, target_ip);
    let header = ipv6_header_with(gateway_ip, target_ip, IPPROTO_ICMPV6, 32, 255);
    let packet = advertisement_frame(gateway_mac, target_mac, gateway_ip, target_ip).skip(14);
    super::ip::lemma_ipv6_header_len(gateway_ip, target_ip, IPPROTO_ICMPV6, 32, 255);
    assert(packet =~= header + icmp);
    assert(icmp.len() == 32);
    law_ipv6_round_trip(gateway_ip, target_ip, IPPROTO_ICMPV6, 32, 255, icmp);
    assert(icmp.subrange(0, 32) =~= icmp);
    let plain = advertisement_with(gateway_mac, gateway_ip, 0);
    let sum = ipv6_transport_sum(gateway_ip, target_ip, 58, plain);
    assert(icmp =~= splice(plain, 2, be16_bytes(complement(sum))));
    assert(plain[2] == 0 && plain[3] == 0);
    assert(plain.len() == 32);
    lemma_word_sum_splice(plain, 2, complement(sum));
    lemma_complement_verifies(sum);
}

/// A request for an address is an ARP packet for Ethernet and IPv4 with operation 1.
pub proof fn law_arp_request_acceptance(s: Seq<u8>)
    requires
        s.len() >= 28,
    ensures
        arp_error(s) is None <==> {
            &&& s[0] == 0 && s[1] == 1
            &&& s[2] == 8 && s[3] == 0
            &&& s[4] == 6 && s[5] == 4
            &&& s[6] == 0 && s[7] == 1
        },
{
    let prefix = arp_prefix(1);
    if arp_error(s) is None {
        assert forall|i: int| 0 <= i < 8 implies s[i] == #[trigger] prefix[i] by {
            assert(s.subrange(0, 8)[i] == s[i]);
        }
        assert(s[0] == prefix[0] && s[1] == prefix[1] && s[2] == prefix[2] && s[3] == prefix[3]
            && s[4] == prefix[4] && s[5] == prefix[5] && s[6] == prefix[6] && s[7] == prefix[7]);
    } else if s[0] == 0 && s[1] == 1 && s[2] == 8 && s[3] == 0 && s[4] == 6 && s[5] == 4 && s[6]
        == 0 && s[7] == 1 {
        assert(s.subrange(0, 8) =~= prefix);
    }
}

/// The answer goes to who asked, and says that the gateway's address is at the
/// gateway's station.
pub proof fn law_arp_reply_names_the_gateway(
    gateway_mac: MacAddress,
    gateway_ip: Seq<u8>,
    request: ArpRequest,
)
    requires
        gateway_ip.len() == 4,
    ensures
        ({
            let reply = arp_reply(gateway_mac, gateway_ip, request);
            &&& reply.len() == 42
            &&& reply.subrange(0, 6) == request.sender_mac.0@
            &&& reply.subrange(6, 12) == gateway_mac.0@
            &&& reply[12] == 8 && reply[13] == 6
            &&& reply[20] == 0 && reply[21] == 2
            &&& reply.subrange(22, 28) == gateway_mac.0@
            &&& reply.subrange(28, 32) == gateway_ip
            &&& reply.subrange(32, 38) == request.sender_mac.0@
            &&& reply.subrange(38, 42) == request.sender_ip@
        }),
{
    let reply = arp_reply(gateway_mac, gateway_ip, request);
    assert(reply.subrange(0, 6) =~= request.sender_mac.0@);
    assert(reply.subrange(6, 12) =~= gateway_mac.0@);
    assert(reply.subrange(22, 28) =~= gateway_mac.0@);
    assert(reply.subrange(28, 32) =~= gateway_ip);
    assert(reply.subrange(32, 38) =~= request.sender_mac.0@);
    assert(reply.subrange(38, 42) =~= request.sender_ip@);
}

/// A solicitation is ICMPv6 of type 135 and code 0 that verifies.
pub proof fn law_solicitation_acceptance(ip: Seq<u8>)
    ensures
        solicitation_error(ip) is None <==> {
            &&& ipv6_transport_at(ip).unwrap().0 == 58
            &&& ipv6_payload(ip).len() >= 24
            &&& ipv6_payload(ip)[0] == 135 && ipv6_payload(ip)[1] == 0
            &&& complement(
                ipv6_transport_sum(
                    ip.subrange(8, 24),
                    ip.subrange(24, 40),
                    58,
                    ipv6_payload(ip),
                ),
            ) == 0
        },
{
}

/// The advertisement goes to who asked, from the gateway and about it: type 136,
/// solicited and overriding, with the gateway's station.
pub proof fn law_advertisement_names_the_gateway(
    gateway_mac: MacAddress,
    target_mac: MacAddress,
    gateway_ip: Seq<u8>,
    target_ip: Seq<u8>,
)
    requires
        gateway_ip.len() == 16,
        target_ip.len() == 16,
    ensures
        ({
            let frame = advertisement_frame(gateway_mac, target_mac, gateway_ip, target_ip);
            &&& frame.len() == 86
            &&& frame.subrange(0, 6) == target_mac.0@
            &&& frame.subrange(6, 12) == gateway_mac.0@
            &&& frame[20] == 58 && frame[21] == 255
            &&& frame.subrange(22, 38) == gateway_ip
            &&& frame.subrange(38, 54) == target_ip
            &&& frame[54] == 136 && frame[55] == 0
            &&& frame[58] == 0x60
            &&& frame.subrange(62, 78) == gateway_ip
            &&& frame[78] == 2 && frame[79] == 1
            &&& frame.subrange(80, 86) == gateway_mac.0@
        }),
{
    reveal(ipv6_header_with);
    let frame = advertisement_frame(gateway_mac, target_mac, gateway_ip, target_ip);
    assert(frame.subrange(0, 6) =~= target_mac.0@);
    assert(frame.subrange(6, 12) =~= gateway_mac.0@);
    assert(frame.subrange(22, 38) =~= gateway_ip);
    assert(frame.subrange(38, 54) =~= target_ip);
    assert(frame.subrange(62, 78) =~= gateway_ip);
    assert(frame.subrange(80, 86) =~= gateway_mac.0@);
}

/// The multicast address of a station is `ff02::1:ff` and its last three octets.
pub proof fn law_solicited_node_ends_as_its_target(target: Seq<u8>)
    requires
        target.len() == 16,
    ensures
        ({
            let address = solicited_node(target);
            &&& address.len() == 16
            &&& address[0] == 0xff && address[1] == 2
            &&& forall|i: int| 2 <= i < 11 ==> #[trigger] address[i] == 0
            &&& address[11] == 1 && address[12] == 0xff
            &&& address.subrange(13, 16) == target.subrange(13, 16)
        }),
{
    assert(solicited_node(target).subrange(13, 16) =~= target.subrange(13, 16));
}

} // verus!
