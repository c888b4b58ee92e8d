//! IPv4 and IPv6 packets.

use super::PacketError;
use super::checksum::{
    checksum_of, lemma_complement_verifies, lemma_word_sum_bound, lemma_word_sum_splice, word_sum,
};
use crate::bytes::{be16, be16_bytes, splice};
use vstd::prelude::*;

verus! {

pub const IPPROTO_ICMP: u8 = 1;
pub const IPPROTO_TCP: u8 = 6;
pub const IPPROTO_UDP: u8 = 17;
pub const IPPROTO_ICMPV6: u8 = 58;

#[derive(Debug, Clone, Copy)]
pub enum IpPacket<'a> {
    V4(Ipv4Packet<'a>),
    V6(Ipv6Packet<'a>),
}

/// The header length field of an IPv4 packet, in octets.
pub open spec fn ipv4_header_len(s: Seq<u8>) -> int {
    s[0] % 16 * 4
}

/// Why `s` does not start with an accepted IPv4 packet, if it does not.
pub open spec fn ipv4_error(s: Seq<u8>) -> Option<PacketError> {
    if s.len() < 20 {
        Some(PacketError::Truncated)
    } else if s[0] / 16 != 4 {
        Some(PacketError::ProtocolMismatch)
    } else if ipv4_header_len(s) < 20 || ipv4_header_len(s) > s.len() {
        Some(PacketError::InvalidLength)
    } else if be16(s, 2) < ipv4_header_len(s) || be16(s, 2) > s.len() {
        Some(PacketError::InvalidLength)
    } else if be16(s, 6) % 0x4000 != 0 {
        Some(PacketError::Unsupported)
    } else if checksum_of(s.subrange(0, ipv4_header_len(s))) != 0 {
        Some(PacketError::InvalidChecksum)
    } else {
        None
    }
}

/// The octets between the header and the total length of an IPv4 packet.
pub open spec fn ipv4_payload(s: Seq<u8>) -> Seq<u8> {
    s.subrange(ipv4_header_len(s), be16(s, 2) as int)
}

#[derive(Debug, Clone, Copy)]
pub struct Ipv4Packet<'a> {
    bytes: &'a [u8],
    header_len: usize,
    total_len: usize,
}

impl<'a> View for Ipv4Packet<'a> {
    type V = Seq<u8>;

    /// The octets that the packet was parsed from.
    closed spec fn view(&self) -> Seq<u8> {
        self.bytes@
    }
}

impl<'a> Ipv4Packet<'a> {
    #[verifier::type_invariant]
    spec fn accepted(self) -> bool {
        &&& ipv4_error(self.bytes@) is None
        &&& self.header_len == ipv4_header_len(self.bytes@)
        &&& self.total_len == be16(self.bytes@, 2)
    }

    pub fn parse(bytes: &'a [u8]) -> (result: Result<Ipv4Packet<'a>, PacketError>)
        ensures
            match result {
                Ok(packet) => ipv4_error(bytes@) is None && packet@ == bytes@,
                Err(error) => ipv4_error(bytes@) == Some(error),
            },
    {
        if bytes.len() < 20 {
            return Err(PacketError::Truncated);
        }
        if bytes[0] / 16 != 4 {
            return Err(PacketError::ProtocolMismatch);
        }
        let header_len: usize = (bytes[0] % 16) as usize * 4;
        if header_len < 20 || header_len > bytes.len() {
            return Err(PacketError::InvalidLength);
        }
        let total_len: usize = crate::bytes::read_be16(bytes, 2) as usize;
        if total_len < header_len || total_len > bytes.len() {
            return Err(PacketError::InvalidLength);
        }
        if crate::bytes::read_be16(bytes, 6) % 0x4000 != 0 {
            return Err(PacketError::Unsupported);
        }
        proof {
            lemma_word_sum_bound(bytes@.subrange(0, header_len as int));
        }
        if super::checksum::checksum(vstd::slice::slice_subrange(bytes, 0, header_len)) != 0 {
            return Err(PacketError::InvalidChecksum);
        }
        Ok(Ipv4Packet { bytes, header_len, total_len })
    }

    #[must_use]
    pub fn source(self) -> (address: [u8; 4])
        ensures
            address@ == self@.subrange(12, 16),
    {
        proof {
            use_type_invariant(&self);
        }
        crate::bytes::take4(self.bytes, 12)
    }

    #[must_use]
    pub fn destination(self) -> (address: [u8; 4])
        ensures
            address@ == self@.subrange(16, 20),
    {
        proof {
            use_type_invariant(&self);
        }
        crate::bytes::take4(self.bytes, 16)
    }

    #[must_use]
    pub fn protocol(self) -> (protocol: u8)
        ensures
            protocol == self@[9],
    {
        proof {
            use_type_invariant(&self);
        }
        self.bytes[9]
    }

    #[must_use]
    pub fn payload(self) -> (payload: &'a [u8])
        ensures
            payload@ == ipv4_payload(self@),
            ipv4_error(self@) is None,
    {
        proof {
            use_type_invariant(&self);
        }
        vstd::slice::slice_subrange(self.bytes, self.header_len, self.total_len)
    }
}

/// Whether a next-header value names an extension header that is skipped.
pub open spec fn ipv6_skipped(next: u8) -> bool {
    next == 0 || next == 43 || next == 60 || next == 51
}

/// The length of the extension header `kind` whose length field holds `field`.
pub open spec fn ipv6_extension_len(kind: u8, field: u8) -> int {
    if kind == 51 {
        (field + 2) * 4
    } else {
        (field + 1) * 8
    }
}

/// Skips extension headers from `offset` on: the transport protocol and its
/// offset, or `None` where there are more than eight of them, more than 256
/// octets of them, or one that does not end within `total`.
pub open spec fn ipv6_skip(
    s: Seq<u8>,
    total: int,
    next: u8,
    offset: int,
    headers: nat,
    skipped: int,
) -> Option<(u8, int)>
    decreases 8 - headers,
{
    if !ipv6_skipped(next) {
        Some((next, offset))
    } else if headers >= 8 || offset + 2 > total {
        None
    } else {
        let length = ipv6_extension_len(next, s[offset + 1]);
        if skipped + length > 256 || offset + length > total {
            None
        } else {
            ipv6_skip(s, total, s[offset], offset + length, headers + 1, skipped + length)
        }
    }
}

/// The end of the payload of an IPv6 packet.
pub open spec fn ipv6_total_len(s: Seq<u8>) -> int {
    40 + be16(s, 4)
}

/// The transport protocol of an IPv6 packet and where it starts.
pub open spec fn ipv6_transport_at(s: Seq<u8>) -> Option<(u8, int)> {
    ipv6_skip(s, ipv6_total_len(s), s[6], 40, 0, 0)
}

/// Why `s` does not start with an accepted IPv6 packet, if it does not.
pub open spec fn ipv6_error(s: Seq<u8>) -> Option<PacketError> {
    if s.len() < 40 {
        Some(PacketError::Truncated)
    } else if s[0] / 16 != 6 {
        Some(PacketError::ProtocolMismatch)
    } else if ipv6_total_len(s) > s.len() {
        Some(PacketError::Truncated)
    } else {
        match ipv6_transport_at(s) {
            None => Some(PacketError::Unsupported),
            Some((next, _)) => if next == 44 {
                Some(PacketError::Unsupported)
            } else {
                None
            },
        }
    }
}

/// The octets behind the last extension header of an IPv6 packet.
pub open spec fn ipv6_payload(s: Seq<u8>) -> Seq<u8> {
    s.subrange(ipv6_transport_at(s).unwrap().1, ipv6_total_len(s))
}

#[derive(Debug, Clone, Copy)]
pub struct Ipv6Packet<'a> {
    bytes: &'a [u8],
    payload_offset: usize,
    total_len: usize,
    next_header: u8,
}

impl<'a> View for Ipv6Packet<'a> {
    type V = Seq<u8>;

    /// The octets that the packet was parsed from.
    closed spec fn view(&self) -> Seq<u8> {
        self.bytes@
    }
}

impl<'a> Ipv6Packet<'a> {
    #[verifier::type_invariant]
    spec fn accepted(self) -> bool {
        &&& ipv6_error(self.bytes@) is None
        &&& ipv6_transport_at(self.bytes@) == Some((self.next_header, self.payload_offset as int))
        &&& self.total_len == ipv6_total_len(self.bytes@)
        &&& 40 <= self.payload_offset <= self.total_len <= self.bytes@.len()
    }

    pub fn parse(bytes: &'a [u8]) -> (result: Result<Ipv6Packet<'a>, PacketError>)
        ensures
            match result {
                Ok(packet) => ipv6_error(bytes@) is None && packet@ == bytes@,
                Err(error) => ipv6_error(bytes@) == Some(error),
            },
    {
        if bytes.len() < 40 {
            return Err(PacketError::Truncated);
        }
        if bytes[0] / 16 != 6 {
            return Err(PacketError::ProtocolMismatch);
        }
        let payload_len: usize = crate::bytes::read_be16(bytes, 4) as usize;
        let total_len: usize = 40 + payload_len;
        if total_len > bytes.len() {
            return Err(PacketError::Truncated);
        }
        let mut next: u8 = bytes[6];
        let mut offset: usize = 40;
        let mut headers: usize = 0;
        let mut extension_bytes: usize = 0;
        while next == 0 || next == 43 || next == 60 || next == 51
            invariant
                40 <= offset <= total_len <= bytes@.len(),
                total_len <= 40 + 0xffff,
                headers <= 8,
                extension_bytes <= 256,
                bytes@.len() >= 40,
                bytes@[0] / 16 == 6,
                total_len == ipv6_total_len(bytes@),
                ipv6_skip(
                    bytes@,
                    total_len as int,
                    next,
                    offset as int,
                    headers as nat,
                    extension_bytes as int,
                ) == ipv6_transport_at(bytes@),
            decreases 8 - headers,
        {
            if headers == 8 || offset + 2 > total_len {
                return Err(PacketError::Unsupported);
            }
            let current: u8 = next;
            next = bytes[offset];
            let length: usize = if current == 51 {
                (bytes[offset + 1] as usize + 2) * 4
            } else {
                (bytes[offset + 1] as usize + 1) * 8
            };
            offset = offset + length;
            extension_bytes = extension_bytes + length;
            headers = headers + 1;
            if extension_bytes > 256 || offset > total_len {
                return Err(PacketError::Unsupported);
            }
        }
        if next == 44 {
            return Err(PacketError::Unsupported);
        }
        Ok(Ipv6Packet { bytes, payload_offset: offset, total_len, next_header: next })
    }

    #[must_use]
    pub fn source(self) -> (address: [u8; 16])
        ensures
            address@ == self@.subrange(8, 24),
    {
        proof {
            use_type_invariant(&self);
        }
        crate::bytes::take16(self.bytes, 8)
    }

    #[must_use]
    pub fn destination(self) -> (address: [u8; 16])
        ensures
            address@ == self@.subrange(24, 40),
    {
        proof {
            use_type_invariant(&self);
        }
        crate::bytes::take16(self.bytes, 24)
    }

    #[must_use]
    pub fn next_header(self) -> (next: u8)
        ensures
            ipv6_transport_at(self@) is Some,
            next == ipv6_transport_at(self@).unwrap().0,
    {
        proof {
            use_type_invariant(&self);
        }
        self.next_header
    }

    #[must_use]
    pub fn payload(self) -> (payload: &'a [u8])
        ensures
            payload@ == ipv6_payload(self@),
            payload@.len() <= 0xffff,
            ipv6_error(self@) is None,
    {
        proof {
            use_type_invariant(&self);
        }
        vstd::slice::slice_subrange(self.bytes, self.payload_offset, self.total_len)
    }
}

/// An IPv4 header without options whose checksum field holds `check`.
#[verifier::opaque]
pub open spec fn ipv4_header_with(
    source: Seq<u8>,
    destination: Seq<u8>,
    protocol: u8,
    payload_len: int,
    identification: u16,
    check: u16,
) -> Seq<u8> {
    seq![0x45u8, 0u8] + be16_bytes((20 + payload_len) as u16) + be16_bytes(identification) + seq![
        0x40u8,
        0u8,
        64u8,
        protocol,
    ] + be16_bytes(check) + source + destination
}

/// The IPv4 header for `payload_len` octets: no options, not fragmented, and
/// with its checksum filled in.
pub open spec fn ipv4_header(
    source: Seq<u8>,
    destination: Seq<u8>,
    protocol: u8,
    payload_len: int,
    identification: u16,
) -> Seq<u8> {
    ipv4_header_with(
        source,
        destination,
        protocol,
        payload_len,
        identification,
        checksum_of(
            ipv4_header_with(source, destination, protocol, payload_len, identification, 0),
        ),
    )
}

/// The IPv6 header for `payload_len` octets, with the given hop limit.
#[verifier::opaque]
pub open spec fn ipv6_header_with(
    source: Seq<u8>,
    destination: Seq<u8>,
    next_header: u8,
    payload_len: int,
    hop_limit: u8,
) -> Seq<u8> {
    seq![0x60u8, 0u8, 0u8, 0u8] + be16_bytes(payload_len as u16) + seq![next_header, hop_limit]
        + source + destination
}

/// The IPv6 header for `payload_len` octets.
pub open spec fn ipv6_header(
    source: Seq<u8>,
    destination: Seq<u8>,
    next_header: u8,
    payload_len: int,
) -> Seq<u8> {
    ipv6_header_with(source, destination, next_header, payload_len, 64)
}

/// A written IPv4 header has twenty octets.
pub proof fn lemma_ipv4_header_len(
    source: Seq<u8>,
    destination: Seq<u8>,
    protocol: u8,
    payload_len: int,
    identification: u16,
)
    requires
        source.len() == 4,
        destination.len() == 4,
    ensures
        ipv4_header(source, destination, protocol, payload_len, identification).len() == 20,
{
    reveal(ipv4_header_with);
}

/// A written IPv6 header has forty octets.
pub proof fn lemma_ipv6_header_len(
    source: Seq<u8>,
    destination: Seq<u8>,
    next_header: u8,
    payload_len: int,
    hop_limit: u8,
)
    requires
        source.len() == 16,
        destination.len() == 16,
    ensures
        ipv6_header_with(source, destination, next_header, payload_len, hop_limit).len() == 40,
{
    reveal(ipv6_header_with);
}

pub fn write_ipv4_header(
    out: &mut [u8],
    source: [u8; 4],
    destination: [u8; 4],
    protocol: u8,
    payload_len: usize,
    identification: u16,
) -> (result: Result<usize, PacketError>)
    ensures
        match result {
            Ok(length) => {
                &&& length == 20
                &&& old(out)@.len() >= 20
                &&& 20 + payload_len <= 0xffff
                &&& final(out)@ == ipv4_header(
                    source@,
                    destination@,
                    protocol,
                    payload_len as int,
                    identification,
                ) + old(out)@.skip(20)
            },
            Err(error) => {
                &&& old(out)@.len() < 20 || 20 + payload_len > 0xffff
                &&& error == PacketError::InvalidLength
                &&& final(out)@ == old(out)@
            },
        },
{
    if out.len() < 20 || payload_len > 0xffff - 20 {
        return Err(PacketError::InvalidLength);
    }
    let ghost before = out@;
    proof {
        reveal(ipv4_header_with);
    }
    let length = crate::bytes::be16_octets((20 + payload_len) as u16);
    let id = crate::bytes::be16_octets(identification);
    let fixed = [
        0x45,
        0,
        length[0],
        length[1],
        id[0],
        id[1],
        0x40,
        0,
        64,
        protocol,
        0,
        0,
    ];
    crate::bytes::put(out, 0, &fixed);
    crate::bytes::put(out, 12, &source);
    crate::bytes::put(out, 16, &destination);
    let ghost plain = ipv4_header_with(
        source@,
        destination@,
        protocol,
        payload_len as int,
        identification,
        0,
    );
    assert(out@ =~= plain + before.skip(20));
    assert(out@.subrange(0, 20) =~= plain);
    proof {
        lemma_word_sum_bound(plain);
    }
    let value: u16 = super::checksum::checksum(vstd::slice::slice_subrange(out, 0, 20));
    crate::bytes::put(out, 10, &crate::bytes::be16_octets(value));
    assert(out@ =~= ipv4_header(
        source@,
        destination@,
        protocol,
        payload_len as int,
        identification,
    ) + before.skip(20));
    Ok(20)
}

pub fn write_ipv6_header(
    out: &mut [u8],
    source: [u8; 16],
    destination: [u8; 16],
    next_header: u8,
    payload_len: usize,
) -> (result: Result<usize, PacketError>)
    ensures
        match result {
            Ok(length) => {
                &&& length == 40
                &&& old(out)@.len() >= 40
                &&& payload_len <= 0xffff
                &&& final(out)@ == ipv6_header(
                    source@,
                    destination@,
                    next_header,
                    payload_len as int,
                ) + old(out)@.skip(40)
            },
            Err(error) => {
                &&& old(out)@.len() < 40 || payload_len > 0xffff
                &&& error == PacketError::InvalidLength
                &&& final(out)@ == old(out)@
            },
        },
{
    if out.len() < 40 || payload_len > 0xffff {
        return Err(PacketError::InvalidLength);
    }
    let ghost before = out@;
    proof {
        reveal(ipv6_header_with);
    }
    let length = crate::bytes::be16_octets(payload_len as u16);
    let fixed = [0x60, 0, 0, 0, length[0], length[1], next_header, 64];
    crate::bytes::put(out, 0, &fixed);
    crate::bytes::put(out, 8, &source);
    crate::bytes::put(out, 24, &destination);
    assert(out@ =~= ipv6_header(source@, destination@, next_header, payload_len as int)
        + before.skip(40));
    Ok(40)
}

/// A written IPv4 header reads back: in front of at least `payload_len` octets
/// the packet is accepted, and gives the addresses, the protocol and exactly
/// those octets.
pub proof fn law_ipv4_round_trip(
    source: Seq<u8>,
    destination: Seq<u8>,
    protocol: u8,
    payload_len: int,
    identification: u16,
    rest: Seq<u8>,
)
    requires
        source.len() == 4,
        destination.len() == 4,
        0 <= payload_len <= rest.len(),
        20 + payload_len <= 0xffff,
    ensures
        ({
            let s = ipv4_header(source, destination, protocol, payload_len, identification) + rest;
            &&& ipv4_error(s) is None
            &&& s.subrange(12, 16) == source
            &&& s.subrange(16, 20) == destination
            &&& s[9] == protocol
            &&& ipv4_payload(s) == rest.subrange(0, payload_len)
        }),
{
    reveal(ipv4_header_with);
    let header = ipv4_header(source, destination, protocol, payload_len, identification);
    let s = header + rest;
    let plain = ipv4_header_with(source, destination, protocol, payload_len, identification, 0);
    assert(header.len() == 20);
    assert(s[0] == 0x45);
    assert(s[2] == be16_bytes((20 + payload_len) as u16)[0]);
    assert(s[3] == be16_bytes((20 + payload_len) as u16)[1]);
    assert(be16(s, 2) == 20 + payload_len);
    assert(s[6] == 0x40 && s[7] == 0);
    assert(s.subrange(0, 20) =~= header);
    law_ipv4_header_verifies(source, destination, protocol, payload_len, identification);
    assert(s.subrange(12, 16) =~= source);
    assert(s.subrange(16, 20) =~= destination);
    assert(ipv4_payload(s) =~= rest.subrange(0, payload_len));
}

/// The checksum over a written IPv4 header is zero.
pub proof fn law_ipv4_header_verifies(
    source: Seq<u8>,
    destination: Seq<u8>,
    protocol: u8,
    payload_len: int,
    identification: u16,
)
    requires
        source.len() == 4,
        destination.len() == 4,
    ensures
        checksum_of(ipv4_header(source, destination, protocol, payload_len, identification)) == 0,
{
    reveal(ipv4_header_with);
    let plain = ipv4_header_with(source, destination, protocol, payload_len, identification, 0);
    let check = checksum_of(plain);
    let header = ipv4_header(source, destination, protocol, payload_len, identification);
    assert(header =~= splice(plain, 10, be16_bytes(check)));
    assert(plain[10] == 0 && plain[11] == 0);
    lemma_word_sum_splice(plain, 10, check);
    lemma_complement_verifies(word_sum(plain));
}

/// A written IPv6 header reads back: in front of at least `payload_len` octets
/// of a transport that is neither an extension header nor a fragment, the
/// packet is accepted, and gives the addresses, the protocol and exactly those
/// octets.
pub proof fn law_ipv6_round_trip(
    source: Seq<u8>,
    destination: Seq<u8>,
    next_header: u8,
    payload_len: int,
    hop_limit: u8,
    rest: Seq<u8>,
)
    requires
        source.len() == 16,
        destination.len() == 16,
        0 <= payload_len <= rest.len(),
        payload_len <= 0xffff,
        !ipv6_skipped(next_header),
        next_header != 44,
    ensures
        ({
            let s = ipv6_header_with(source, destination, next_header, payload_len, hop_limit)
                + rest;
            &&& ipv6_error(s) is None
            &&& s[7] == hop_limit
            &&& s.subrange(8, 24) == source
            &&& s.subrange(24, 40) == destination
            &&& ipv6_transport_at(s) == Some((next_header, 40int))
            &&& ipv6_payload(s) == rest.subrange(0, payload_len)
        }),
{
    reveal(ipv6_header_with);
    let header = ipv6_header_with(source, destination, next_header, payload_len, hop_limit);
    let s = header + rest;
    assert(header.len() == 40);
    assert(s[0] == 0x60);
    assert(s[4] == be16_bytes(payload_len as u16)[0]);
    assert(s[5] == be16_bytes(payload_len as u16)[1]);
    assert(be16(s, 4) == payload_len);
    assert(s[6] == next_header);
    assert(s.subrange(8, 24) =~= source);
    assert(s.subrange(24, 40) =~= destination);
    assert(ipv6_payload(s) =~= rest.subrange(0, payload_len));
}

/// An IPv4 packet is accepted exactly where its version is 4, its header has at least
/// twenty octets and lies within its total length, that lies within the octets, it is
/// no fragment, and its header verifies. Nothing else of it matters.
pub proof fn law_ipv4_acceptance(s: Seq<u8>)
    ensures
        s.len() < 20 ==> ipv4_error(s) is Some,
        s.len() >= 20 ==> {
            let header = s[0] % 16 * 4;
            let total = 256 * s[2] + s[3];
            ipv4_error(s) is None <==> {
                &&& s[0] / 16 == 4
                &&& 20 <= header <= total
                &&& total <= s.len()
                &&& (s[6] == 0 || s[6] == 0x40 || s[6] == 0x80 || s[6] == 0xc0) && s[7] == 0
                &&& checksum_of(s.subrange(0, header)) == 0
            }
        },
        ipv4_error(s) is None ==> ipv4_payload(s) == s.subrange(
            s[0] % 16 * 4,
            256 * s[2] + s[3],
        ),
{
}

/// An IPv6 packet whose first header is no extension and no fragment is accepted
/// exactly where its version is 6 and its payload lies within the octets, and its
/// transport follows its header.
pub proof fn law_ipv6_acceptance(s: Seq<u8>)
    requires
        s.len() >= 40,
        s[6] != 0 && s[6] != 43 && s[6] != 44 && s[6] != 51 && s[6] != 60,
    ensures
        ({
            let total = 40 + 256 * s[4] + s[5];
            &&& ipv6_error(s) is None <==> s[0] / 16 == 6 && total <= s.len()
            &&& ipv6_transport_at(s) == Some((s[6], 40int))
            &&& ipv6_error(s) is None ==> ipv6_payload(s) == s.subrange(40, total)
        }),
{
}

/// A hop-by-hop, routing or destination header is passed over by its length in units
/// of eight octets, an authentication header in units of four, and a fragment is not
/// taken.
pub proof fn law_ipv6_extensions_are_passed_over(
    s: Seq<u8>,
    total: int,
    next: u8,
    offset: int,
    headers: nat,
    skipped: int,
)
    requires
        0 <= offset,
        offset + 2 <= total <= s.len(),
    ensures
        next != 0 && next != 43 && next != 51 && next != 60 ==> ipv6_skip(
            s,
            total,
            next,
            offset,
            headers,
            skipped,
        ) == Some((next, offset)),
        next == 0 || next == 43 || next == 51 || next == 60 ==> {
            let length = if next == 51 {
                4 * (s[offset + 1] + 2)
            } else {
                8 * (s[offset + 1] + 1)
            };
            &&& headers >= 8 || skipped + length > 256 || offset + length > total ==> ipv6_skip(
                s,
                total,
                next,
                offset,
                headers,
                skipped,
            ) is None
            &&& headers < 8 && skipped + length <= 256 && offset + length <= total ==> ipv6_skip(
                s,
                total,
                next,
                offset,
                headers,
                skipped,
            ) == ipv6_skip(s, total, s[offset], offset + length, headers + 1, skipped + length)
        },
        s.len() >= 40 && s[6] == 44 ==> ipv6_error(s) is Some,
{
}

/// A written header says what it is: the version, the length, that it must not be cut,
/// the protocol, and both addresses in their places.
pub proof fn law_headers_have_their_form(
    source4: Seq<u8>,
    destination4: Seq<u8>,
    source6: Seq<u8>,
    destination6: Seq<u8>,
    protocol: u8,
    payload_len: int,
    identification: u16,
)
    requires
        source4.len() == 4 && destination4.len() == 4,
        source6.len() == 16 && destination6.len() == 16,
        0 <= payload_len <= 0xffff - 20,
    ensures
        ({
            let header = ipv4_header(source4, destination4, protocol, payload_len, identification);
            &&& header.len() == 20
            &&& header[0] == 0x45
            &&& 256 * header[2] + header[3] == 20 + payload_len
            &&& header[6] == 0x40 && header[7] == 0
            &&& header[8] == 64
            &&& header[9] == protocol
            &&& header.subrange(12, 16) == source4
            &&& header.subrange(16, 20) == destination4
        }),
        ({
            let header = ipv6_header(source6, destination6, protocol, payload_len);
            &&& header.len() == 40
            &&& header[0] == 0x60
            &&& 256 * header[4] + header[5] == payload_len
            &&& header[6] == protocol
            &&& header[7] == 64
            &&& header.subrange(8, 24) == source6
            &&& header.subrange(24, 40) == destination6
        }),
{
    reveal(ipv4_header_with);
    reveal(ipv6_header_with);
    let header = ipv4_header(source4, destination4, protocol, payload_len, identification);
    let length = be16_bytes((20 + payload_len) as u16);
    assert(header[2] == length[0] && header[3] == length[1]);
    assert(header.subrange(12, 16) =~= source4);
    assert(header.subrange(16, 20) =~= destination4);
    let wide = ipv6_header(source6, destination6, protocol, payload_len);
    let size = be16_bytes(payload_len as u16);
    assert(wide[4] == size[0] && wide[5] == size[1]);
    assert(wide.subrange(8, 24) =~= source6);
    assert(wide.subrange(24, 40) =~= destination6);
}

} // verus!
