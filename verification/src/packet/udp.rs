//! UDP datagrams.

use super::PacketError;
use super::checksum::{
    complement, ipv4_transport_sum, ipv6_transport_sum, lemma_complement_period,
    lemma_complement_verifies, lemma_word_sum_bound, lemma_word_sum_splice,
};
use super::ip::{IPPROTO_UDP, Ipv4Packet, Ipv6Packet, ipv4_payload, ipv6_payload};
use crate::bytes::{be16, be16_bytes, splice};
use vstd::prelude::*;

verus! {

pub const UDP_HEADER_LEN: usize = 8;

/// Why `s` does not start with a UDP datagram, if it does not.
pub open spec fn udp_error(s: Seq<u8>) -> Option<PacketError> {
    if s.len() < 8 {
        Some(PacketError::Truncated)
    } else if be16(s, 4) < 8 || be16(s, 4) > s.len() {
        Some(PacketError::InvalidLength)
    } else {
        None
    }
}

/// The datagram at the start of `s`. Its length field is authoritative; padding
/// behind it is dropped.
pub open spec fn udp_datagram(s: Seq<u8>) -> Seq<u8> {
    s.subrange(0, be16(s, 4) as int)
}

/// Why the IPv4 packet `ip` does not carry an accepted datagram, if it does
/// not. A zero checksum means that the sender skipped it.
pub open spec fn udp_ipv4_error(ip: Seq<u8>, verify_checksum: bool) -> Option<PacketError> {
    let datagram = udp_datagram(ipv4_payload(ip));
    if udp_error(ipv4_payload(ip)) is Some {
        udp_error(ipv4_payload(ip))
    } else if verify_checksum && be16(datagram, 6) != 0 && complement(
        ipv4_transport_sum(ip.subrange(12, 16), ip.subrange(16, 20), IPPROTO_UDP, datagram),
    ) != 0 {
        Some(PacketError::InvalidChecksum)
    } else {
        None
    }
}

/// Why the IPv6 packet `ip` does not carry an accepted datagram, if it does
/// not. A zero checksum is invalid over IPv6 (RFC 8200).
pub open spec fn udp_ipv6_error(ip: Seq<u8>, verify_checksum: bool) -> Option<PacketError> {
    let datagram = udp_datagram(ipv6_payload(ip));
    if udp_error(ipv6_payload(ip)) is Some {
        udp_error(ipv6_payload(ip))
    } else if verify_checksum && (be16(datagram, 6) == 0 || complement(
        ipv6_transport_sum(ip.subrange(8, 24), ip.subrange(24, 40), IPPROTO_UDP, datagram),
    ) != 0) {
        Some(PacketError::InvalidChecksum)
    } else {
        None
    }
}

#[derive(Debug, Clone, Copy)]
pub struct UdpDatagram<'a> {
    bytes: &'a [u8],
}

impl<'a> View for UdpDatagram<'a> {
    type V = Seq<u8>;

    /// The octets of the datagram, header included.
    closed spec fn view(&self) -> Seq<u8> {
        self.bytes@
    }
}

impl<'a> UdpDatagram<'a> {
    #[verifier::type_invariant]
    spec fn holds_header(self) -> bool {
        self.bytes@.len() >= UDP_HEADER_LEN
    }

    pub fn parse_ipv4(ip: Ipv4Packet<'a>, verify_checksum: bool) -> (result: Result<
        UdpDatagram<'a>,
        PacketError,
    >)
        ensures
            match result {
                Ok(datagram) => udp_ipv4_error(ip@, verify_checksum) is None && datagram@
                    == udp_datagram(ipv4_payload(ip@)),
                Err(error) => udp_ipv4_error(ip@, verify_checksum) == Some(error),
            },
    {
        let datagram = match UdpDatagram::parse(ip.payload()) {
            Ok(datagram) => datagram,
            Err(error) => return Err(error),
        };
        if verify_checksum && datagram.checksum_field() != 0 {
            let source = ip.source();
            let destination = ip.destination();
            proof {
                lemma_word_sum_bound(datagram@);
                lemma_word_sum_bound(source@);
                lemma_word_sum_bound(destination@);
            }
            if super::checksum::ipv4_transport(source, destination, IPPROTO_UDP, datagram.bytes)
                != 0 {
                return Err(PacketError::InvalidChecksum);
            }
        }
        Ok(datagram)
    }

    pub fn parse_ipv6(ip: Ipv6Packet<'a>, verify_checksum: bool) -> (result: Result<
        UdpDatagram<'a>,
        PacketError,
    >)
        ensures
            match result {
                Ok(datagram) => udp_ipv6_error(ip@, verify_checksum) is None && datagram@
                    == udp_datagram(ipv6_payload(ip@)),
                Err(error) => udp_ipv6_error(ip@, verify_checksum) == Some(error),
            },
    {
        let datagram = match UdpDatagram::parse(ip.payload()) {
            Ok(datagram) => datagram,
            Err(error) => return Err(error),
        };
        if verify_checksum {
            if datagram.checksum_field() == 0 {
                return Err(PacketError::InvalidChecksum);
            }
            let source = ip.source();
            let destination = ip.destination();
            proof {
                lemma_word_sum_bound(datagram@);
                lemma_word_sum_bound(source@);
                lemma_word_sum_bound(destination@);
            }
            if super::checksum::ipv6_transport(source, destination, IPPROTO_UDP, datagram.bytes)
                != 0 {
                return Err(PacketError::InvalidChecksum);
            }
        }
        Ok(datagram)
    }

    fn parse(bytes: &'a [u8]) -> (result: Result<UdpDatagram<'a>, PacketError>)
        ensures
            match result {
                Ok(datagram) => {
                    &&& udp_error(bytes@) is None
                    &&& datagram@ == udp_datagram(bytes@)
                    &&& datagram@.len() >= 8
                },
                Err(error) => udp_error(bytes@) == Some(error),
            },
    {
        if bytes.len() < UDP_HEADER_LEN {
            return Err(PacketError::Truncated);
        }
        let length: usize = crate::bytes::read_be16(bytes, 4) as usize;
        if length < UDP_HEADER_LEN || length > bytes.len() {
            return Err(PacketError::InvalidLength);
        }
        Ok(UdpDatagram { bytes: vstd::slice::slice_subrange(bytes, 0, length) })
    }

    #[must_use]
    pub fn source_port(self) -> (port: u16)
        ensures
            port == be16(self@, 0),
    {
        proof {
            use_type_invariant(&self);
        }
        crate::bytes::read_be16(self.bytes, 0)
    }

    #[must_use]
    pub fn destination_port(self) -> (port: u16)
        ensures
            port == be16(self@, 2),
    {
        proof {
            use_type_invariant(&self);
        }
        crate::bytes::read_be16(self.bytes, 2)
    }

    #[must_use]
    pub fn payload(self) -> (payload: &'a [u8])
        ensures
            payload@ == self@.skip(8),
    {
        proof {
            use_type_invariant(&self);
        }
        let payload = vstd::slice::slice_subrange(self.bytes, UDP_HEADER_LEN, self.bytes.len());
        assert(payload@ =~= self@.skip(8));
        payload
    }

    fn checksum_field(self) -> (value: u16)
        ensures
            value == be16(self@, 6),
    {
        proof {
            use_type_invariant(&self);
        }
        crate::bytes::read_be16(self.bytes, 6)
    }
}

/// The header of a datagram of `payload_len` octets, with its checksum zero.
pub open spec fn header_bytes(source_port: u16, destination_port: u16, payload_len: int) -> Seq<
    u8,
> {
    be16_bytes(source_port) + be16_bytes(destination_port) + be16_bytes((8 + payload_len) as u16)
        + be16_bytes(0)
}

/// Writes a UDP header in front of `payload_len` octets already placed behind
/// it. The checksum field is left zero; one of the `set_*_checksum` functions
/// fills it in.
pub fn write_header(
    out: &mut [u8],
    source_port: u16,
    destination_port: u16,
    payload_len: usize,
) -> (result: Result<usize, PacketError>)
    ensures
        match result {
            Ok(length) => {
                &&& length == 8
                &&& old(out)@.len() >= 8 + payload_len
                &&& 8 + payload_len <= 0xffff
                &&& final(out)@ == header_bytes(source_port, destination_port, payload_len as int)
                    + old(out)@.skip(8)
            },
            Err(error) => {
                &&& old(out)@.len() < 8 + payload_len || 8 + payload_len > 0xffff
                &&& error == PacketError::InvalidLength
                &&& final(out)@ == old(out)@
            },
        },
{
    if payload_len > 0xffff - UDP_HEADER_LEN || out.len() < UDP_HEADER_LEN + payload_len {
        return Err(PacketError::InvalidLength);
    }
    let ghost before = out@;
    let length: u16 = (UDP_HEADER_LEN + payload_len) as u16;
    crate::bytes::put(out, 0, &crate::bytes::be16_octets(source_port));
    crate::bytes::put(out, 2, &crate::bytes::be16_octets(destination_port));
    crate::bytes::put(out, 4, &crate::bytes::be16_octets(length));
    crate::bytes::put(out, 6, &crate::bytes::be16_octets(0));
    assert(out@ =~= header_bytes(source_port, destination_port, payload_len as int)
        + before.skip(8));
    Ok(UDP_HEADER_LEN)
}

/// A computed zero transmits as `0xffff` so that it is not read as absent.
pub open spec fn transmitted(value: u16) -> u16 {
    if value == 0 {
        0xffff
    } else {
        value
    }
}

/// `datagram` with its checksum field zero.
pub open spec fn without_checksum(datagram: Seq<u8>) -> Seq<u8> {
    splice(datagram, 6, be16_bytes(0))
}

/// `datagram` with its checksum field filled in for IPv4.
pub open spec fn with_ipv4_checksum(
    datagram: Seq<u8>,
    source: Seq<u8>,
    destination: Seq<u8>,
) -> Seq<u8> {
    splice(
        datagram,
        6,
        be16_bytes(
            transmitted(
                complement(
                    ipv4_transport_sum(
                        source,
                        destination,
                        IPPROTO_UDP,
                        without_checksum(datagram),
                    ),
                ),
            ),
        ),
    )
}

/// `datagram` with its checksum field filled in for IPv6.
pub open spec fn with_ipv6_checksum(
    datagram: Seq<u8>,
    source: Seq<u8>,
    destination: Seq<u8>,
) -> Seq<u8> {
    splice(
        datagram,
        6,
        be16_bytes(
            transmitted(
                complement(
                    ipv6_transport_sum(
                        source,
                        destination,
                        IPPROTO_UDP,
                        without_checksum(datagram),
                    ),
                ),
            ),
        ),
    )
}

pub fn set_ipv4_checksum(
    datagram: &mut [u8],
    source: [u8; 4],
    destination: [u8; 4],
) -> (result: Result<(), PacketError>)
    requires
        old(datagram)@.len() >= 8 ==> ipv4_transport_sum(
            source@,
            destination@,
            IPPROTO_UDP,
            without_checksum(old(datagram)@),
        ) <= u32::MAX,
    ensures
        match result {
            Ok(()) => {
                &&& old(datagram)@.len() >= 8
                &&& final(datagram)@ == with_ipv4_checksum(
                    old(datagram)@,
                    source@,
                    destination@,
                )
            },
            Err(error) => {
                &&& old(datagram)@.len() < 8
                &&& error == PacketError::Truncated
                &&& final(datagram)@ == old(datagram)@
            },
        },
{
    if datagram.len() < UDP_HEADER_LEN {
        return Err(PacketError::Truncated);
    }
    let ghost before = datagram@;
    crate::bytes::put(datagram, 6, &crate::bytes::be16_octets(0));
    let computed: u16 = super::checksum::ipv4_transport(
        source,
        destination,
        IPPROTO_UDP,
        datagram,
    );
    let value: u16 = if computed == 0 {
        0xffff
    } else {
        computed
    };
    crate::bytes::put(datagram, 6, &crate::bytes::be16_octets(value));
    assert(datagram@ =~= with_ipv4_checksum(before, source@, destination@));
    Ok(())
}

pub fn set_ipv6_checksum(
    datagram: &mut [u8],
    source: [u8; 16],
    destination: [u8; 16],
) -> (result: Result<(), PacketError>)
    requires
        old(datagram)@.len() >= 8 ==> ipv6_transport_sum(
            source@,
            destination@,
            IPPROTO_UDP,
            without_checksum(old(datagram)@),
        ) <= u32::MAX,
    ensures
        match result {
            Ok(()) => {
                &&& old(datagram)@.len() >= 8
                &&& final(datagram)@ == with_ipv6_checksum(
                    old(datagram)@,
                    source@,
                    destination@,
                )
            },
            Err(error) => {
                &&& old(datagram)@.len() < 8
                &&& error == PacketError::Truncated
                &&& final(datagram)@ == old(datagram)@
            },
        },
{
    if datagram.len() < UDP_HEADER_LEN {
        return Err(PacketError::Truncated);
    }
    let ghost before = datagram@;
    crate::bytes::put(datagram, 6, &crate::bytes::be16_octets(0));
    let computed: u16 = super::checksum::ipv6_transport(
        source,
        destination,
        IPPROTO_UDP,
        datagram,
    );
    let value: u16 = if computed == 0 {
        0xffff
    } else {
        computed
    };
    crate::bytes::put(datagram, 6, &crate::bytes::be16_octets(value));
    assert(datagram@ =~= with_ipv6_checksum(before, source@, destination@));
    Ok(())
}

/// A written header reads back: the datagram is accepted up to its length
/// field, and gives the ports and the payload.
pub proof fn law_header_round_trip(
    source_port: u16,
    destination_port: u16,
    payload: Seq<u8>,
    padding: Seq<u8>,
)
    requires
        8 + payload.len() <= 0xffff,
    ensures
        ({
            let s = header_bytes(source_port, destination_port, payload.len() as int) + payload
                + padding;
            &&& udp_error(s) is None
            &&& be16(udp_datagram(s), 0) == source_port
            &&& be16(udp_datagram(s), 2) == destination_port
            &&& udp_datagram(s).skip(8) == payload
        }),
{
    let header = header_bytes(source_port, destination_port, payload.len() as int);
    let s = header + payload + padding;
    let source = be16_bytes(source_port);
    let destination = be16_bytes(destination_port);
    let length = be16_bytes((8 + payload.len()) as u16);
    assert(s[0] == source[0] && s[1] == source[1]);
    assert(s[2] == destination[0] && s[3] == destination[1]);
    assert(s[4] == length[0] && s[5] == length[1]);
    assert(udp_datagram(s).skip(8) =~= payload);
}

/// A datagram whose IPv4 checksum was filled in carries a checksum, and it
/// verifies.
pub proof fn law_ipv4_checksum_verifies(datagram: Seq<u8>, source: Seq<u8>, destination: Seq<u8>)
    requires
        datagram.len() >= 8,
    ensures
        ({
            let done = with_ipv4_checksum(datagram, source, destination);
            &&& be16(done, 6) != 0
            &&& complement(ipv4_transport_sum(source, destination, IPPROTO_UDP, done)) == 0
        }),
{
    let plain = without_checksum(datagram);
    let sum = ipv4_transport_sum(source, destination, IPPROTO_UDP, plain);
    let value = transmitted(complement(sum));
    let done = with_ipv4_checksum(datagram, source, destination);
    assert(done =~= splice(plain, 6, be16_bytes(value)));
    assert(plain[6] == 0 && plain[7] == 0);
    assert(done[6] == be16_bytes(value)[0] && done[7] == be16_bytes(value)[1]);
    lemma_word_sum_splice(plain, 6, value);
    lemma_transmitted_verifies(sum);
}

/// A datagram whose IPv6 checksum was filled in carries a checksum, and it
/// verifies.
pub proof fn law_ipv6_checksum_verifies(datagram: Seq<u8>, source: Seq<u8>, destination: Seq<u8>)
    requires
        datagram.len() >= 8,
    ensures
        ({
            let done = with_ipv6_checksum(datagram, source, destination);
            &&& be16(done, 6) != 0
            &&& complement(ipv6_transport_sum(source, destination, IPPROTO_UDP, done)) == 0
        }),
{
    let plain = without_checksum(datagram);
    let sum = ipv6_transport_sum(source, destination, IPPROTO_UDP, plain);
    let value = transmitted(complement(sum));
    let done = with_ipv6_checksum(datagram, source, destination);
    assert(done =~= splice(plain, 6, be16_bytes(value)));
    assert(plain[6] == 0 && plain[7] == 0);
    assert(done[6] == be16_bytes(value)[0] && done[7] == be16_bytes(value)[1]);
    lemma_word_sum_splice(plain, 6, value);
    lemma_transmitted_verifies(sum);
}

proof fn lemma_transmitted_verifies(sum: nat)
    ensures
        complement(sum + transmitted(complement(sum)) as nat) == 0,
{
    lemma_complement_verifies(sum);
    if complement(sum) == 0 {
        lemma_complement_period(sum);
    }
}

/// A datagram is accepted exactly where its length field covers at least its header
/// and lies within the octets; what lies behind it is padding.
pub proof fn law_datagram_acceptance(s: Seq<u8>)
    requires
        s.len() >= 8,
    ensures
        ({
            let length = 256 * s[4] + s[5];
            &&& udp_error(s) is None <==> 8 <= length <= s.len()
            &&& udp_error(s) is None ==> udp_datagram(s) == s.take(length)
        }),
{
    if udp_error(s) is None {
        assert(udp_datagram(s) =~= s.take(256 * s[4] + s[5]));
    }
}

/// A checksum is checked where that is asked for. Over IPv4 a zero one was left out,
/// and over IPv6 it must not be.
pub proof fn law_checksums_are_checked(ip: Seq<u8>)
    ensures
        udp_error(ipv4_payload(ip)) is None ==> {
            let datagram = udp_datagram(ipv4_payload(ip));
            let zero = datagram[6] == 0 && datagram[7] == 0;
            &&& udp_ipv4_error(ip, false) is None
            &&& udp_ipv4_error(ip, true) is None <==> zero || complement(
                ipv4_transport_sum(ip.subrange(12, 16), ip.subrange(16, 20), 17, datagram),
            ) == 0
        },
        udp_error(ipv6_payload(ip)) is None ==> {
            let datagram = udp_datagram(ipv6_payload(ip));
            let zero = datagram[6] == 0 && datagram[7] == 0;
            &&& udp_ipv6_error(ip, false) is None
            &&& udp_ipv6_error(ip, true) is None <==> !zero && complement(
                ipv6_transport_sum(ip.subrange(8, 24), ip.subrange(24, 40), 17, datagram),
            ) == 0
        },
{
}

/// A written header has its fields where UDP has them, and a checksum that comes out
/// as zero is sent as all ones.
pub proof fn law_header_has_its_form(source_port: u16, destination_port: u16, payload_len: int)
    requires
        0 <= payload_len <= 0xffff - 8,
    ensures
        ({
            let header = header_bytes(source_port, destination_port, payload_len);
            &&& header.len() == 8
            &&& 256 * header[0] + header[1] == source_port
            &&& 256 * header[2] + header[3] == destination_port
            &&& 256 * header[4] + header[5] == 8 + payload_len
            &&& header[6] == 0 && header[7] == 0
        }),
        transmitted(0) == 0xffff,
        forall|value: u16| value != 0 ==> #[trigger] transmitted(value) == value,
{
    let header = header_bytes(source_port, destination_port, payload_len);
    let source = be16_bytes(source_port);
    let destination = be16_bytes(destination_port);
    let length = be16_bytes((8 + payload_len) as u16);
    assert(header[0] == source[0] && header[1] == source[1]);
    assert(header[2] == destination[0] && header[3] == destination[1]);
    assert(header[4] == length[0] && header[5] == length[1]);
}

} // verus!
