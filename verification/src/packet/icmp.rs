//! ICMP errors that answer UDP datagrams.

use super::PacketError;
use super::checksum::{
    checksum_of, complement, ipv6_transport_sum, lemma_complement_verifies, lemma_word_sum_bound,
    lemma_word_sum_splice, word_sum,
};
use super::ip::{
    IPPROTO_ICMP, IPPROTO_ICMPV6, IPPROTO_UDP, ipv4_error, ipv4_header, ipv4_payload, ipv6_error,
    ipv6_header, ipv6_payload, ipv6_transport_at, law_ipv4_round_trip, law_ipv6_round_trip,
};
use super::udp::{UDP_HEADER_LEN, header_bytes};
use crate::bytes::{be16, be16_bytes, be32_bytes, splice, zeros};
use crate::net::{IpAddress, SocketAddress};
use vstd::prelude::*;

verus! {

pub const ICMP_HEADER_LEN: usize = 8;
pub const IPV4_HEADER_LEN: usize = 20;
pub const IPV6_HEADER_LEN: usize = 40;
pub const IPV4_DESTINATION_UNREACHABLE: u8 = 3;
pub const IPV4_FRAGMENTATION_NEEDED: u8 = 4;
pub const IPV6_DESTINATION_UNREACHABLE: u8 = 1;
pub const IPV6_PACKET_TOO_BIG: u8 = 2;

#[derive(Clone, Copy, Debug, PartialEq, Eq, Structural)]
pub enum UdpError {
    DestinationUnreachable { code: u8 },
    PacketTooBig { mtu: u32 },
}

/// The ICMP header of `error`, with `check` in its checksum field. An MTU that
/// does not fit is announced as the largest that does.
pub open spec fn error_v4_head(error: UdpError, check: u16) -> Seq<u8> {
    match error {
        UdpError::DestinationUnreachable { code } => seq![3u8, code] + be16_bytes(check) + zeros(4),
        UdpError::PacketTooBig { mtu } => seq![3u8, 4u8] + be16_bytes(check) + zeros(2)
            + be16_bytes(if mtu <= 0xffff {
            mtu as u16
        } else {
            0xffff
        }),
    }
}

/// The ICMPv6 header of `error`, with `check` in its checksum field.
pub open spec fn error_v6_head(error: UdpError, check: u16) -> Seq<u8> {
    match error {
        UdpError::DestinationUnreachable { code } => seq![1u8, code] + be16_bytes(check) + zeros(4),
        UdpError::PacketTooBig { mtu } => seq![2u8, 0u8] + be16_bytes(check) + be32_bytes(mtu),
    }
}

/// The start of the datagram that an IPv4 error answers: its IP and UDP
/// headers and a prefix of its payload.
pub open spec fn ipv4_quote(
    source: Seq<u8>,
    destination: Seq<u8>,
    source_port: u16,
    destination_port: u16,
    prefix: Seq<u8>,
    payload_len: int,
) -> Seq<u8> {
    ipv4_header(source, destination, IPPROTO_UDP, 8 + payload_len, 0) + header_bytes(
        source_port,
        destination_port,
        payload_len,
    ) + prefix
}

/// The start of the datagram that an IPv6 error answers.
pub open spec fn ipv6_quote(
    source: Seq<u8>,
    destination: Seq<u8>,
    source_port: u16,
    destination_port: u16,
    prefix: Seq<u8>,
    payload_len: int,
) -> Seq<u8> {
    ipv6_header(source, destination, IPPROTO_UDP, 8 + payload_len) + header_bytes(
        source_port,
        destination_port,
        payload_len,
    ) + prefix
}

/// The ICMP message of an IPv4 error, checksum included.
pub open spec fn error_v4_message(error: UdpError, quote: Seq<u8>) -> Seq<u8> {
    error_v4_head(error, checksum_of(error_v4_head(error, 0) + quote)) + quote
}

/// The ICMPv6 message of an IPv6 error from `source` to `destination`,
/// checksum included.
pub open spec fn error_v6_message(
    error: UdpError,
    source: Seq<u8>,
    destination: Seq<u8>,
    quote: Seq<u8>,
) -> Seq<u8> {
    error_v6_head(
        error,
        complement(
            ipv6_transport_sum(
                source,
                destination,
                IPPROTO_ICMPV6,
                error_v6_head(error, 0) + quote,
            ),
        ),
    ) + quote
}

/// The packet that answers an IPv4 datagram with `error`. It comes from the
/// datagram's destination.
pub open spec fn ipv4_udp_error(
    source: Seq<u8>,
    destination: Seq<u8>,
    source_port: u16,
    destination_port: u16,
    prefix: Seq<u8>,
    payload_len: int,
    error: UdpError,
) -> Seq<u8> {
    ipv4_header(destination, source, IPPROTO_ICMP, 36int + prefix.len(), 0) + error_v4_message(
        error,
        ipv4_quote(source, destination, source_port, destination_port, prefix, payload_len),
    )
}

/// The packet that answers an IPv6 datagram with `error`. It comes from the
/// datagram's destination.
pub open spec fn ipv6_udp_error(
    source: Seq<u8>,
    destination: Seq<u8>,
    source_port: u16,
    destination_port: u16,
    prefix: Seq<u8>,
    payload_len: int,
    error: UdpError,
) -> Seq<u8> {
    ipv6_header(destination, source, IPPROTO_ICMPV6, 56int + prefix.len()) + error_v6_message(
        error,
        destination,
        source,
        ipv6_quote(source, destination, source_port, destination_port, prefix, payload_len),
    )
}

/// What an IPv4 error leaves behind when the quoted length does not fit an
/// IPv4 packet: the outer header and the ICMP header, with nothing quoted.
pub open spec fn ipv4_udp_error_unquoted(
    source: Seq<u8>,
    destination: Seq<u8>,
    prefix_len: int,
    error: UdpError,
) -> Seq<u8> {
    ipv4_header(destination, source, IPPROTO_ICMP, 36 + prefix_len, 0) + error_v4_head(error, 0)
        + zeros((28 + prefix_len) as nat)
}

/// The part of a payload that an IPv4 error quotes: the RFC minimum of eight
/// octets, or fewer where there are fewer.
pub open spec fn quoted_prefix(prefix: Seq<u8>) -> Seq<u8> {
    if prefix.len() <= 8 {
        prefix
    } else {
        prefix.subrange(0, 8)
    }
}

/// What an attempt to write an IPv4 error into `before` gives.
pub open spec fn ipv4_udp_error_result(
    before: Seq<u8>,
    source: Seq<u8>,
    destination: Seq<u8>,
    source_port: u16,
    destination_port: u16,
    prefix: Seq<u8>,
    payload_len: int,
    error: UdpError,
) -> (Result<usize, PacketError>, Seq<u8>) {
    let total = 56 + prefix.len();
    if before.len() < total {
        (Err(PacketError::Truncated), before)
    } else if 8 + payload_len > 0xffff {
        (Err(PacketError::InvalidLength), before)
    } else if 28 + payload_len > 0xffff {
        (
            Err(PacketError::InvalidLength),
            ipv4_udp_error_unquoted(source, destination, prefix.len() as int, error)
                + before.skip(total as int),
        )
    } else {
        (
            Ok(total as usize),
            ipv4_udp_error(
                source,
                destination,
                source_port,
                destination_port,
                prefix,
                payload_len,
                error,
            ) + before.skip(total as int),
        )
    }
}

/// What an attempt to write an IPv6 error into `before` gives.
pub open spec fn ipv6_udp_error_result(
    before: Seq<u8>,
    source: Seq<u8>,
    destination: Seq<u8>,
    source_port: u16,
    destination_port: u16,
    prefix: Seq<u8>,
    payload_len: int,
    error: UdpError,
) -> (Result<usize, PacketError>, Seq<u8>) {
    let total = 96 + prefix.len();
    if before.len() < total {
        (Err(PacketError::Truncated), before)
    } else if 8 + payload_len > 0xffff || 56 + prefix.len() > 0xffff {
        (Err(PacketError::InvalidLength), before)
    } else {
        (
            Ok(total as usize),
            ipv6_udp_error(
                source,
                destination,
                source_port,
                destination_port,
                prefix,
                payload_len,
                error,
            ) + before.skip(total as int),
        )
    }
}

/// Writes a complete IPv4 or IPv6 ICMP error packet for a UDP datagram from
/// `source` to `destination`. The quote carries the original IP and UDP headers
/// and the supplied payload prefix; IPv4 quotes are capped at the RFC minimum
/// of eight octets.
pub fn write_udp_error(
    out: &mut [u8],
    source: SocketAddress,
    destination: SocketAddress,
    payload_prefix: &[u8],
    original_payload_len: usize,
    error: UdpError,
) -> (result: Result<usize, PacketError>)
    ensures
        match (source.ip, destination.ip) {
            (IpAddress::V4(from), IpAddress::V4(to)) => (result, final(out)@)
                == ipv4_udp_error_result(
                old(out)@,
                from@,
                to@,
                source.port,
                destination.port,
                quoted_prefix(payload_prefix@),
                original_payload_len as int,
                error,
            ),
            (IpAddress::V6(from), IpAddress::V6(to)) => (result, final(out)@)
                == ipv6_udp_error_result(
                old(out)@,
                from@,
                to@,
                source.port,
                destination.port,
                payload_prefix@,
                original_payload_len as int,
                error,
            ),
            _ => {
                &&& result == Err::<usize, PacketError>(PacketError::ProtocolMismatch)
                &&& final(out)@ == old(out)@
            },
        },
{
    match (source.ip, destination.ip) {
        (IpAddress::V4(from), IpAddress::V4(to)) => {
            let kept: usize = if payload_prefix.len() < 8 {
                payload_prefix.len()
            } else {
                8
            };
            let prefix = vstd::slice::slice_subrange(payload_prefix, 0, kept);
            assert(prefix@ =~= quoted_prefix(payload_prefix@));
            write_ipv4_udp_error(
                out,
                from,
                to,
                source.port,
                destination.port,
                prefix,
                original_payload_len,
                error,
            )
        },
        (IpAddress::V6(from), IpAddress::V6(to)) => write_ipv6_udp_error(
            out,
            from,
            to,
            source.port,
            destination.port,
            payload_prefix,
            original_payload_len,
            error,
        ),
        _ => Err(PacketError::ProtocolMismatch),
    }
}

fn error_v4_head_octets(error: UdpError) -> (head: [u8; 8])
    ensures
        head@ == error_v4_head(error, 0),
{
    let head = match error {
        UdpError::DestinationUnreachable { code } => [
            IPV4_DESTINATION_UNREACHABLE,
            code,
            0,
            0,
            0,
            0,
            0,
            0,
        ],
        UdpError::PacketTooBig { mtu } => {
            let value = crate::bytes::be16_octets(if mtu <= 0xffff {
                mtu as u16
            } else {
                0xffff
            });
            [
                IPV4_DESTINATION_UNREACHABLE,
                IPV4_FRAGMENTATION_NEEDED,
                0,
                0,
                0,
                0,
                value[0],
                value[1],
            ]
        },
    };
    assert(head@ =~= error_v4_head(error, 0));
    head
}

fn error_v6_head_octets(error: UdpError) -> (head: [u8; 8])
    ensures
        head@ == error_v6_head(error, 0),
{
    let head = match error {
        UdpError::DestinationUnreachable { code } => [
            IPV6_DESTINATION_UNREACHABLE,
            code,
            0,
            0,
            0,
            0,
            0,
            0,
        ],
        UdpError::PacketTooBig { mtu } => {
            let value = crate::bytes::be32_octets(mtu);
            [IPV6_PACKET_TOO_BIG, 0, 0, 0, value[0], value[1], value[2], value[3]]
        },
    };
    assert(head@ =~= error_v6_head(error, 0));
    head
}

proof fn lemma_error_head_checksum(error: UdpError, check: u16)
    ensures
        error_v4_head(error, check) == splice(error_v4_head(error, 0), 2, be16_bytes(check)),
        error_v6_head(error, check) == splice(error_v6_head(error, 0), 2, be16_bytes(check)),
        error_v4_head(error, 0).len() == 8,
        error_v6_head(error, 0).len() == 8,
        be16(error_v4_head(error, 0), 2) == 0,
        be16(error_v6_head(error, 0), 2) == 0,
{
    assert(error_v4_head(error, check) =~= splice(error_v4_head(error, 0), 2, be16_bytes(check)));
    assert(error_v6_head(error, check) =~= splice(error_v6_head(error, 0), 2, be16_bytes(check)));
    assert(error_v4_head(error, 0)[2] == 0 && error_v4_head(error, 0)[3] == 0);
    assert(error_v6_head(error, 0)[2] == 0 && error_v6_head(error, 0)[3] == 0);
}

/// Places an outer header, an ICMP header and the three parts of a quote one
/// behind the other.
fn put_message(
    out: &mut [u8],
    outer: &[u8],
    head: &[u8],
    quoted_ip: &[u8],
    quoted_udp: &[u8],
    prefix: &[u8],
)
    requires
        outer@.len() + head@.len() + quoted_ip@.len() + quoted_udp@.len() + prefix@.len()
            <= old(out)@.len(),
    ensures
        final(out)@ == outer@ + (head@ + (quoted_ip@ + quoted_udp@ + prefix@)) + old(out)@.skip(
            (outer@.len() + head@.len() + quoted_ip@.len() + quoted_udp@.len()
                + prefix@.len()) as int,
        ),
{
    let ghost before = out@;
    let size: usize = out.len();
    let mut at: usize = 0;
    crate::bytes::put(out, at, outer);
    at = at + outer.len();
    assert(out@ =~= outer@ + before.skip(at as int));
    crate::bytes::put(out, at, head);
    at = at + head.len();
    assert(out@ =~= outer@ + head@ + before.skip(at as int));
    crate::bytes::put(out, at, quoted_ip);
    at = at + quoted_ip.len();
    assert(out@ =~= outer@ + head@ + quoted_ip@ + before.skip(at as int));
    crate::bytes::put(out, at, quoted_udp);
    at = at + quoted_udp.len();
    assert(out@ =~= outer@ + head@ + quoted_ip@ + quoted_udp@ + before.skip(at as int));
    crate::bytes::put(out, at, prefix);
    at = at + prefix.len();
    assert(out@ =~= outer@ + head@ + quoted_ip@ + quoted_udp@ + prefix@ + before.skip(at as int));
    assert(out@ =~= outer@ + (head@ + (quoted_ip@ + quoted_udp@ + prefix@)) + before.skip(
        at as int,
    ));
}

proof fn lemma_message_parts(
    outer: Seq<u8>,
    head: Seq<u8>,
    quote: Seq<u8>,
    tail: Seq<u8>,
    value: u16,
)
    requires
        head.len() == 8,
    ensures
        ({
            let all = outer + (head + quote) + tail;
            &&& all.subrange(outer.len() as int, (outer.len() + 8 + quote.len()) as int) == head
                + quote
            &&& splice(all, outer.len() + 2int, be16_bytes(value)) == outer + (splice(
                head,
                2,
                be16_bytes(value),
            ) + quote) + tail
        }),
{
    let all = outer + (head + quote) + tail;
    assert(all.subrange(outer.len() as int, (outer.len() + 8 + quote.len()) as int) =~= head
        + quote);
    assert(splice(all, outer.len() + 2int, be16_bytes(value)) =~= outer + (splice(
        head,
        2,
        be16_bytes(value),
    ) + quote) + tail);
}

fn write_ipv4_udp_error(
    out: &mut [u8],
    original_source: [u8; 4],
    original_destination: [u8; 4],
    source_port: u16,
    destination_port: u16,
    payload_prefix: &[u8],
    original_payload_len: usize,
    error: UdpError,
) -> (result: Result<usize, PacketError>)
    requires
        payload_prefix@.len() <= 8,
    ensures
        (result, final(out)@) == ipv4_udp_error_result(
            old(out)@,
            original_source@,
            original_destination@,
            source_port,
            destination_port,
            payload_prefix@,
            original_payload_len as int,
            error,
        ),
{
    let quote_len: usize = IPV4_HEADER_LEN + UDP_HEADER_LEN + payload_prefix.len();
    let message_len: usize = ICMP_HEADER_LEN + quote_len;
    let total_len: usize = IPV4_HEADER_LEN + message_len;
    if out.len() < total_len {
        return Err(PacketError::Truncated);
    }
    if original_payload_len > 0xffff - UDP_HEADER_LEN {
        return Err(PacketError::InvalidLength);
    }
    let udp_len: usize = UDP_HEADER_LEN + original_payload_len;
    let ghost before = out@;
    let ghost tail = before.skip(total_len as int);
    let mut outer = [0u8; 20];
    match super::ip::write_ipv4_header(
        &mut outer,
        original_destination,
        original_source,
        IPPROTO_ICMP,
        message_len,
        0,
    ) {
        Ok(_) => {},
        Err(error) => return Err(error),
    }
    proof {
        super::ip::lemma_ipv4_header_len(
            original_destination@,
            original_source@,
            IPPROTO_ICMP,
            message_len as int,
            0,
        );
    }
    assert(outer@ =~= ipv4_header(
        original_destination@,
        original_source@,
        IPPROTO_ICMP,
        message_len as int,
        0,
    ));
    let head = error_v4_head_octets(error);
    let mut quoted_ip = [0u8; 20];
    if udp_len > 0xffff - IPV4_HEADER_LEN {
        crate::bytes::clear(out, 28, quote_len);
        crate::bytes::put(out, 0, &outer);
        crate::bytes::put(out, 20, &head);
        assert(out@ =~= outer@ + head@ + zeros(quote_len as nat) + tail);
        return Err(PacketError::InvalidLength);
    }
    match super::ip::write_ipv4_header(
        &mut quoted_ip,
        original_source,
        original_destination,
        IPPROTO_UDP,
        udp_len,
        0,
    ) {
        Ok(_) => {},
        Err(error) => return Err(error),
    }
    proof {
        super::ip::lemma_ipv4_header_len(
            original_source@,
            original_destination@,
            IPPROTO_UDP,
            udp_len as int,
            0,
        );
    }
    assert(quoted_ip@ =~= ipv4_header(
        original_source@,
        original_destination@,
        IPPROTO_UDP,
        udp_len as int,
        0,
    ));
    let quoted_udp = quoted_udp_header(source_port, destination_port, udp_len);
    put_message(out, &outer, &head, &quoted_ip, &quoted_udp, payload_prefix);
    let ghost quote = quoted_ip@ + quoted_udp@ + payload_prefix@;
    let ghost plain = head@ + quote;
    proof {
        lemma_message_parts(outer@, head@, quote, tail, 0);
        lemma_word_sum_bound(plain);
    }
    let value: u16 = super::checksum::checksum(
        vstd::slice::slice_subrange(out, IPV4_HEADER_LEN, total_len),
    );
    crate::bytes::put(out, 22, &crate::bytes::be16_octets(value));
    proof {
        lemma_message_parts(outer@, head@, quote, tail, value);
        lemma_error_head_checksum(error, value);
    }
    Ok(total_len)
}

fn write_ipv6_udp_error(
    out: &mut [u8],
    original_source: [u8; 16],
    original_destination: [u8; 16],
    source_port: u16,
    destination_port: u16,
    payload_prefix: &[u8],
    original_payload_len: usize,
    error: UdpError,
) -> (result: Result<usize, PacketError>)
    ensures
        (result, final(out)@) == ipv6_udp_error_result(
            old(out)@,
            original_source@,
            original_destination@,
            source_port,
            destination_port,
            payload_prefix@,
            original_payload_len as int,
            error,
        ),
{
    if out.len() < 96 || out.len() - 96 < payload_prefix.len() {
        return Err(PacketError::Truncated);
    }
    let quote_len: usize = IPV6_HEADER_LEN + UDP_HEADER_LEN + payload_prefix.len();
    let message_len: usize = ICMP_HEADER_LEN + quote_len;
    let total_len: usize = IPV6_HEADER_LEN + message_len;
    if original_payload_len > 0xffff - UDP_HEADER_LEN {
        return Err(PacketError::InvalidLength);
    }
    let udp_len: usize = UDP_HEADER_LEN + original_payload_len;
    let ghost before = out@;
    let ghost tail = before.skip(total_len as int);
    let mut outer = [0u8; 40];
    match super::ip::write_ipv6_header(
        &mut outer,
        original_destination,
        original_source,
        IPPROTO_ICMPV6,
        message_len,
    ) {
        Ok(_) => {},
        Err(error) => return Err(error),
    }
    proof {
        super::ip::lemma_ipv6_header_len(
            original_destination@,
            original_source@,
            IPPROTO_ICMPV6,
            message_len as int,
            64,
        );
    }
    assert(outer@ =~= ipv6_header(
        original_destination@,
        original_source@,
        IPPROTO_ICMPV6,
        message_len as int,
    ));
    let head = error_v6_head_octets(error);
    let mut quoted_ip = [0u8; 40];
    match super::ip::write_ipv6_header(
        &mut quoted_ip,
        original_source,
        original_destination,
        IPPROTO_UDP,
        udp_len,
    ) {
        Ok(_) => {},
        Err(error) => return Err(error),
    }
    proof {
        super::ip::lemma_ipv6_header_len(
            original_source@,
            original_destination@,
            IPPROTO_UDP,
            udp_len as int,
            64,
        );
    }
    assert(quoted_ip@ =~= ipv6_header(
        original_source@,
        original_destination@,
        IPPROTO_UDP,
        udp_len as int,
    ));
    let quoted_udp = quoted_udp_header(source_port, destination_port, udp_len);
    put_message(out, &outer, &head, &quoted_ip, &quoted_udp, payload_prefix);
    let ghost quote = quoted_ip@ + quoted_udp@ + payload_prefix@;
    let ghost plain = head@ + quote;
    proof {
        lemma_message_parts(outer@, head@, quote, tail, 0);
        lemma_word_sum_bound(plain);
        lemma_word_sum_bound(original_source@);
        lemma_word_sum_bound(original_destination@);
    }
    let value: u16 = super::checksum::ipv6_transport(
        original_destination,
        original_source,
        IPPROTO_ICMPV6,
        vstd::slice::slice_subrange(out, IPV6_HEADER_LEN, total_len),
    );
    crate::bytes::put(out, 42, &crate::bytes::be16_octets(value));
    proof {
        lemma_message_parts(outer@, head@, quote, tail, value);
        lemma_error_head_checksum(error, value);
    }
    Ok(total_len)
}

fn quoted_udp_header(source: u16, destination: u16, length: usize) -> (header: [u8; 8])
    requires
        8 <= length <= 0xffff,
    ensures
        header@ == header_bytes(source, destination, length - 8),
{
    let from = crate::bytes::be16_octets(source);
    let to = crate::bytes::be16_octets(destination);
    let size = crate::bytes::be16_octets(length as u16);
    let header = [from[0], from[1], to[0], to[1], size[0], size[1], 0, 0];
    assert(header@ =~= header_bytes(source, destination, length - 8));
    header
}

/// An IPv4 error parses as an ICMP packet back to the sender, its ICMP checksum
/// verifies, and it quotes the datagram that it answers.
pub proof fn law_ipv4_udp_error_verifies(
    source: Seq<u8>,
    destination: Seq<u8>,
    source_port: u16,
    destination_port: u16,
    prefix: Seq<u8>,
    payload_len: int,
    error: UdpError,
)
    requires
        source.len() == 4,
        destination.len() == 4,
        prefix.len() <= 8,
        0 <= payload_len,
        28 + payload_len <= 0xffff,
    ensures
        ({
            let packet = ipv4_udp_error(
                source,
                destination,
                source_port,
                destination_port,
                prefix,
                payload_len,
                error,
            );
            &&& ipv4_error(packet) is None
            &&& packet.subrange(12, 16) == destination
            &&& packet.subrange(16, 20) == source
            &&& packet[9] == IPPROTO_ICMP
            &&& checksum_of(ipv4_payload(packet)) == 0
            &&& ipv4_payload(packet).skip(8) == ipv4_quote(
                source,
                destination,
                source_port,
                destination_port,
                prefix,
                payload_len,
            )
        }),
{
    let quote = ipv4_quote(
        source,
        destination,
        source_port,
        destination_port,
        prefix,
        payload_len,
    );
    super::ip::lemma_ipv4_header_len(source, destination, IPPROTO_UDP, 8 + payload_len, 0);
    assert(quote.len() == 28 + prefix.len());
    let message = error_v4_message(error, quote);
    lemma_v4_message_verifies(error, quote);
    law_ipv4_round_trip(destination, source, IPPROTO_ICMP, 36int + prefix.len(), 0, message);
    assert(message.subrange(0, 36int + prefix.len()) =~= message);
}

proof fn lemma_v4_message_verifies(error: UdpError, quote: Seq<u8>)
    ensures
        ({
            let message = error_v4_message(error, quote);
            &&& message.len() == 8 + quote.len()
            &&& message.skip(8) == quote
            &&& checksum_of(message) == 0
        }),
{
    let plain = error_v4_head(error, 0) + quote;
    let check = checksum_of(plain);
    let message = error_v4_message(error, quote);
    lemma_error_head_checksum(error, check);
    assert(message =~= splice(plain, 2, be16_bytes(check)));
    assert(plain[2] == error_v4_head(error, 0)[2] && plain[3] == error_v4_head(error, 0)[3]);
    lemma_word_sum_splice(plain, 2, check);
    lemma_complement_verifies(word_sum(plain));
    assert(message.skip(8) =~= quote);
}

/// An IPv6 error parses as an ICMPv6 packet back to the sender, its checksum
/// verifies, and it quotes the datagram that it answers.
pub proof fn law_ipv6_udp_error_verifies(
    source: Seq<u8>,
    destination: Seq<u8>,
    source_port: u16,
    destination_port: u16,
    prefix: Seq<u8>,
    payload_len: int,
    error: UdpError,
)
    requires
        source.len() == 16,
        destination.len() == 16,
        56 + prefix.len() <= 0xffff,
        0 <= payload_len,
        8 + payload_len <= 0xffff,
    ensures
        ({
            let packet = ipv6_udp_error(
                source,
                destination,
                source_port,
                destination_port,
                prefix,
                payload_len,
                error,
            );
            &&& ipv6_error(packet) is None
            &&& packet.subrange(8, 24) == destination
            &&& packet.subrange(24, 40) == source
            &&& ipv6_transport_at(packet) == Some((IPPROTO_ICMPV6, 40int))
            &&& complement(
                ipv6_transport_sum(destination, source, IPPROTO_ICMPV6, ipv6_payload(packet)),
            ) == 0
            &&& ipv6_payload(packet).skip(8) == ipv6_quote(
                source,
                destination,
                source_port,
                destination_port,
                prefix,
                payload_len,
            )
        }),
{
    let quote = ipv6_quote(
        source,
        destination,
        source_port,
        destination_port,
        prefix,
        payload_len,
    );
    super::ip::lemma_ipv6_header_len(source, destination, IPPROTO_UDP, 8 + payload_len, 64);
    assert(quote.len() == 48 + prefix.len());
    let message = error_v6_message(error, destination, source, quote);
    lemma_v6_message_verifies(error, destination, source, quote);
    law_ipv6_round_trip(destination, source, IPPROTO_ICMPV6, 56int + prefix.len(), 64, message);
    assert(message.subrange(0, 56int + prefix.len()) =~= message);
}

proof fn lemma_v6_message_verifies(
    error: UdpError,
    source: Seq<u8>,
    destination: Seq<u8>,
    quote: Seq<u8>,
)
    ensures
        ({
            let message = error_v6_message(error, source, destination, quote);
            &&& message.len() == 8 + quote.len()
            &&& message.skip(8) == quote
            &&& complement(ipv6_transport_sum(source, destination, IPPROTO_ICMPV6, message)) == 0
        }),
{
    let plain = error_v6_head(error, 0) + quote;
    let sum = ipv6_transport_sum(source, destination, IPPROTO_ICMPV6, plain);
    let check = complement(sum);
    let message = error_v6_message(error, source, destination, quote);
    lemma_error_head_checksum(error, check);
    assert(message =~= splice(plain, 2, be16_bytes(check)));
    assert(plain[2] == error_v6_head(error, 0)[2] && plain[3] == error_v6_head(error, 0)[3]);
    lemma_word_sum_splice(plain, 2, check);
    lemma_complement_verifies(sum);
    assert(message.skip(8) =~= quote);
}

/// An unreachable destination is type 3 over IPv4 and type 1 over IPv6 with its code, a
/// packet that is too big is type 3 with code 4, and type 2, with the MTU.
pub proof fn law_errors_have_their_types(code: u8, mtu: u32, check: u16)
    ensures
        ({
            let head = error_v4_head(UdpError::DestinationUnreachable { code }, check);
            head.len() == 8 && head[0] == 3 && head[1] == code
        }),
        ({
            let head = error_v6_head(UdpError::DestinationUnreachable { code }, check);
            head.len() == 8 && head[0] == 1 && head[1] == code
        }),
        ({
            let head = error_v4_head(UdpError::PacketTooBig { mtu }, check);
            &&& head.len() == 8 && head[0] == 3 && head[1] == 4
            &&& mtu <= 0xffff ==> 256 * head[6] + head[7] == mtu
            &&& mtu > 0xffff ==> 256 * head[6] + head[7] == 0xffff
        }),
        ({
            let head = error_v6_head(UdpError::PacketTooBig { mtu }, check);
            &&& head.len() == 8 && head[0] == 2 && head[1] == 0
            &&& 0x100_0000 * head[4] + 0x1_0000 * head[5] + 256 * head[6] + head[7] == mtu
        }),
{
    let small = error_v4_head(UdpError::PacketTooBig { mtu }, check);
    let shown = be16_bytes(
        if mtu <= 0xffff {
            mtu as u16
        } else {
            0xffff
        },
    );
    assert(small[6] == shown[0] && small[7] == shown[1]);
    let wide = error_v6_head(UdpError::PacketTooBig { mtu }, check);
    let whole = be32_bytes(mtu);
    assert(wide[4] == whole[0] && wide[5] == whole[1] && wide[6] == whole[2] && wide[7]
        == whole[3]);
    crate::bytes::law_octet_orders(whole, 0, 0, mtu);
}

/// An error quotes no more than the first eight octets of a payload.
pub proof fn law_quotes_are_short(prefix: Seq<u8>)
    ensures
        prefix.len() <= 8 ==> quoted_prefix(prefix) == prefix,
        prefix.len() > 8 ==> quoted_prefix(prefix) == prefix.take(8),
{
    if prefix.len() > 8 {
        assert(quoted_prefix(prefix) =~= prefix.take(8));
    }
}

/// An error is written exactly when there is room for its headers and what it
/// quotes, and the quoted datagram can state its length.
pub proof fn law_error_needs_its_room(
    before: Seq<u8>,
    source4: Seq<u8>,
    destination4: Seq<u8>,
    source6: Seq<u8>,
    destination6: Seq<u8>,
    source_port: u16,
    destination_port: u16,
    prefix: Seq<u8>,
    payload_len: int,
    error: UdpError,
)
    requires
        payload_len >= 0,
        prefix.len() <= 8,
        before.len() <= usize::MAX,
    ensures
        ({
            let written = ipv4_udp_error_result(
                before,
                source4,
                destination4,
                source_port,
                destination_port,
                prefix,
                payload_len,
                error,
            );
            &&& written.0 is Ok <==> before.len() >= 56 + prefix.len() && payload_len <= 65_507
            &&& written.0 is Ok ==> written.0->Ok_0 == 56 + prefix.len()
            &&& before.len() < 56 + prefix.len() ==> written.0 == Err::<usize, PacketError>(
                PacketError::Truncated,
            ) && written.1 == before
        }),
        ({
            let written = ipv6_udp_error_result(
                before,
                source6,
                destination6,
                source_port,
                destination_port,
                prefix,
                payload_len,
                error,
            );
            &&& written.0 is Ok <==> before.len() >= 96 + prefix.len() && payload_len <= 65_527
            &&& written.0 is Ok ==> written.0->Ok_0 == 96 + prefix.len()
            &&& written.0 is Err ==> written.1 == before
        }),
{
}

} // verus!
