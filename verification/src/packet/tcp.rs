//! TCP segments.

use super::PacketError;
use super::checksum::{
    complement, ipv4_pseudo_sum, ipv4_transport_sum, ipv6_pseudo_sum, ipv6_transport_sum,
    lemma_complement_verifies, lemma_ones_sum_absorbs, lemma_word_sum_bound, lemma_word_sum_splice,
    ones_sum, word_sum,
};
use super::ip::{IPPROTO_TCP, Ipv4Packet, Ipv6Packet, ipv4_payload, ipv6_payload, ipv6_transport_at};
use crate::bytes::{be16, be16_bytes, be32, be32_bytes, splice};
use vstd::prelude::*;

verus! {

pub const TCP_MIN_HEADER_LEN: usize = 20;

#[derive(Clone, Copy, Debug, PartialEq, Eq, Structural)]
pub struct TcpFlags {
    pub fin: bool,
    pub syn: bool,
    pub rst: bool,
    pub psh: bool,
    pub ack: bool,
}

impl Default for TcpFlags {
    fn default() -> (flags: TcpFlags)
        ensures
            flags == (TcpFlags { fin: false, syn: false, rst: false, psh: false, ack: false }),
    {
        TcpFlags { fin: false, syn: false, rst: false, psh: false, ack: false }
    }
}

/// The flags that the flag octet `value` holds.
pub open spec fn flags_of(value: u8) -> TcpFlags {
    TcpFlags {
        fin: value % 2 != 0,
        syn: value / 2 % 2 != 0,
        rst: value / 4 % 2 != 0,
        psh: value / 8 % 2 != 0,
        ack: value / 16 % 2 != 0,
    }
}

/// The flag octet of `flags`.
pub open spec fn flags_octet(flags: TcpFlags) -> u8 {
    ((if flags.fin { 1int } else { 0 }) + (if flags.syn { 2int } else { 0 }) + (if flags.rst {
        4int
    } else {
        0
    }) + (if flags.psh { 8int } else { 0 }) + (if flags.ack { 16int } else { 0 })) as u8
}

/// The data offset of a segment, in octets.
pub open spec fn tcp_header_len(s: Seq<u8>) -> int {
    s[12] / 16 * 4
}

/// Why `s` is not a TCP segment, if it is not.
pub open spec fn tcp_error(s: Seq<u8>) -> Option<PacketError> {
    if s.len() < 20 {
        Some(PacketError::Truncated)
    } else if tcp_header_len(s) < 20 || tcp_header_len(s) > s.len() {
        Some(PacketError::InvalidLength)
    } else {
        None
    }
}

/// Why the IPv4 packet `ip` does not carry a TCP segment, if it does not.
pub open spec fn tcp_ipv4_error(ip: Seq<u8>) -> Option<PacketError> {
    if ip[9] != IPPROTO_TCP {
        Some(PacketError::ProtocolMismatch)
    } else if complement(
        ipv4_transport_sum(ip.subrange(12, 16), ip.subrange(16, 20), 6, ipv4_payload(ip)),
    ) != 0 {
        Some(PacketError::InvalidChecksum)
    } else {
        tcp_error(ipv4_payload(ip))
    }
}

/// Why the IPv6 packet `ip` does not carry a TCP segment, if it does not.
pub open spec fn tcp_ipv6_error(ip: Seq<u8>) -> Option<PacketError> {
    if ipv6_transport_at(ip).unwrap().0 != IPPROTO_TCP {
        Some(PacketError::ProtocolMismatch)
    } else if complement(
        ipv6_transport_sum(ip.subrange(8, 24), ip.subrange(24, 40), 6, ipv6_payload(ip)),
    ) != 0 {
        Some(PacketError::InvalidChecksum)
    } else {
        tcp_error(ipv6_payload(ip))
    }
}

/// The value of the first option of the given kind and length, by a walk over
/// the option octets that stops at an end-of-list or a malformed option.
pub open spec fn option_value(options: Seq<u8>, kind: u8, length: int) -> Option<Seq<u8>>
    decreases options.len(),
{
    if options.len() == 0 || options[0] == 0 {
        None
    } else if options[0] == 1 {
        option_value(options.skip(1), kind, length)
    } else if options.len() < 2 || options[1] < 2 || options[1] > options.len() {
        None
    } else if options[0] == kind && options[1] == length {
        Some(options.subrange(2, length))
    } else {
        option_value(options.skip(options[1] as int), kind, length)
    }
}

/// The option octets of a segment.
pub open spec fn tcp_options(s: Seq<u8>) -> Seq<u8> {
    s.subrange(20, tcp_header_len(s))
}

/// The maximum segment size that a segment announces.
pub open spec fn tcp_mss(s: Seq<u8>) -> Option<u16> {
    match option_value(tcp_options(s), 2, 4) {
        Some(value) => Some(be16(value, 0)),
        None => None,
    }
}

/// The window scale that a segment announces.
pub open spec fn tcp_window_scale(s: Seq<u8>) -> Option<u8> {
    match option_value(tcp_options(s), 3, 3) {
        Some(value) => Some(value[0]),
        None => None,
    }
}

#[derive(Debug, Clone, Copy)]
pub struct TcpSegment<'a> {
    bytes: &'a [u8],
    header_len: usize,
}

impl<'a> View for TcpSegment<'a> {
    type V = Seq<u8>;

    /// The octets of the segment.
    closed spec fn view(&self) -> Seq<u8> {
        self.bytes@
    }
}

impl<'a> TcpSegment<'a> {
    #[verifier::type_invariant]
    spec fn accepted(self) -> bool {
        &&& tcp_error(self.bytes@) is None
        &&& self.header_len == tcp_header_len(self.bytes@)
    }

    pub fn parse_ipv4(ip: Ipv4Packet<'a>) -> (result: Result<TcpSegment<'a>, PacketError>)
        ensures
            match result {
                Ok(segment) => tcp_ipv4_error(ip@) is None && segment@ == ipv4_payload(ip@),
                Err(error) => tcp_ipv4_error(ip@) == Some(error),
            },
    {
        if ip.protocol() != IPPROTO_TCP {
            return Err(PacketError::ProtocolMismatch);
        }
        let payload = ip.payload();
        let source = ip.source();
        let destination = ip.destination();
        proof {
            lemma_word_sum_bound(payload@);
            lemma_word_sum_bound(source@);
            lemma_word_sum_bound(destination@);
        }
        if super::checksum::ipv4_transport(source, destination, 6, payload) != 0 {
            return Err(PacketError::InvalidChecksum);
        }
        TcpSegment::parse(payload)
    }

    pub fn parse_ipv6(ip: Ipv6Packet<'a>) -> (result: Result<TcpSegment<'a>, PacketError>)
        ensures
            match result {
                Ok(segment) => tcp_ipv6_error(ip@) is None && segment@ == ipv6_payload(ip@),
                Err(error) => tcp_ipv6_error(ip@) == Some(error),
            },
    {
        if ip.next_header() != IPPROTO_TCP {
            return Err(PacketError::ProtocolMismatch);
        }
        let payload = ip.payload();
        let source = ip.source();
        let destination = ip.destination();
        proof {
            lemma_word_sum_bound(payload@);
            lemma_word_sum_bound(source@);
            lemma_word_sum_bound(destination@);
        }
        if super::checksum::ipv6_transport(source, destination, 6, payload) != 0 {
            return Err(PacketError::InvalidChecksum);
        }
        TcpSegment::parse(payload)
    }

    pub fn parse(bytes: &'a [u8]) -> (result: Result<TcpSegment<'a>, PacketError>)
        ensures
            match result {
                Ok(segment) => tcp_error(bytes@) is None && segment@ == bytes@,
                Err(error) => tcp_error(bytes@) == Some(error),
            },
    {
        if bytes.len() < TCP_MIN_HEADER_LEN {
            return Err(PacketError::Truncated);
        }
        let header_len: usize = (bytes[12] / 16) as usize * 4;
        if header_len < TCP_MIN_HEADER_LEN || header_len > bytes.len() {
            return Err(PacketError::InvalidLength);
        }
        Ok(TcpSegment { bytes, header_len })
    }

    #[must_use]
    pub fn source_port(self) -> (port: u16)
        ensures
            port == be16(self@, 0),
    {
        proof {
            use_type_invariant(&self);
        }
        crate::bytes::read_be16(self.bytes, 0)
    }

    #[must_use]
    pub fn destination_port(self) -> (port: u16)
        ensures
            port == be16(self@, 2),
    {
        proof {
            use_type_invariant(&self);
        }
        crate::bytes::read_be16(self.bytes, 2)
    }

    #[must_use]
    pub fn sequence(self) -> (sequence: u32)
        ensures
            sequence == be32(self@, 4),
    {
        proof {
            use_type_invariant(&self);
        }
        crate::bytes::read_be32(self.bytes, 4)
    }

    #[must_use]
    pub fn acknowledgment(self) -> (acknowledgment: u32)
        ensures
            acknowledgment == be32(self@, 8),
    {
        proof {
            use_type_invariant(&self);
        }
        crate::bytes::read_be32(self.bytes, 8)
    }

    #[must_use]
    pub fn flags(self) -> (flags: TcpFlags)
        ensures
            flags == flags_of(self@[13]),
    {
        proof {
            use_type_invariant(&self);
        }
        let value: u8 = self.bytes[13];
        TcpFlags {
            fin: value % 2 != 0,
            syn: value / 2 % 2 != 0,
            rst: value / 4 % 2 != 0,
            psh: value / 8 % 2 != 0,
            ack: value / 16 % 2 != 0,
        }
    }

    #[must_use]
    pub fn window(self) -> (window: u16)
        ensures
            window == be16(self@, 14),
    {
        proof {
            use_type_invariant(&self);
        }
        crate::bytes::read_be16(self.bytes, 14)
    }

    #[must_use]
    pub fn payload(self) -> (payload: &'a [u8])
        ensures
            payload@ == self@.skip(tcp_header_len(self@)),
            tcp_error(self@) is None,
    {
        proof {
            use_type_invariant(&self);
        }
        let payload = vstd::slice::slice_subrange(self.bytes, self.header_len, self.bytes.len());
        assert(payload@ =~= self@.skip(tcp_header_len(self@)));
        payload
    }

    #[must_use]
    pub fn mss(self) -> (mss: Option<u16>)
        ensures
            mss == tcp_mss(self@),
    {
        match self.find_option(2, 4) {
            Some(value) => {
                Some(crate::bytes::read_be16(value, 0))
            },
            None => None,
        }
    }

    #[must_use]
    pub fn window_scale(self) -> (shift: Option<u8>)
        ensures
            shift == tcp_window_scale(self@),
    {
        match self.find_option(3, 3) {
            Some(value) => Some(value[0]),
            None => None,
        }
    }

    fn find_option(self, wanted_kind: u8, wanted_len: usize) -> (value: Option<&'a [u8]>)
        requires
            wanted_kind > 1,
            wanted_len >= 2,
        ensures
            match value {
                Some(octets) => {
                    &&& option_value(tcp_options(self@), wanted_kind, wanted_len as int) == Some(
                        octets@,
                    )
                    &&& octets@.len() == wanted_len - 2
                },
                None => option_value(tcp_options(self@), wanted_kind, wanted_len as int) is None,
            },
    {
        proof {
            use_type_invariant(&self);
        }
        let options = vstd::slice::slice_subrange(self.bytes, TCP_MIN_HEADER_LEN, self.header_len);
        let size: usize = options.len();
        let ghost wanted = option_value(options@, wanted_kind, wanted_len as int);
        let mut at: usize = 0;
        assert(options@.skip(0) =~= options@);
        while at < size
            invariant
                at <= size,
                size == options@.len(),
                wanted_kind > 1,
                wanted_len >= 2,
                options@ == tcp_options(self@),
                wanted == option_value(tcp_options(self@), wanted_kind, wanted_len as int),
                wanted == option_value(options@.skip(at as int), wanted_kind, wanted_len as int),
            decreases size - at,
        {
            let ghost rest = options@.skip(at as int);
            assert(rest[0] == options@[at as int]);
            let kind: u8 = options[at];
            if kind == 0 {
                return None;
            }
            if kind == 1 {
                assert(rest.skip(1) =~= options@.skip(at + 1));
                at = at + 1;
            } else {
                if size - at < 2 {
                    return None;
                }
                assert(rest[1] == options@[at + 1]);
                let length: usize = options[at + 1] as usize;
                if length < 2 || length > size - at {
                    return None;
                }
                if kind == wanted_kind && length == wanted_len {
                    let value = vstd::slice::slice_subrange(options, at + 2, at + length);
                    assert(value@ =~= rest.subrange(2, length as int));
                    return Some(value);
                }
                assert(rest.skip(length as int) =~= options@.skip(at + length));
                at = at + length;
            }
        }
        None
    }
}

#[derive(Clone, Copy, Debug)]
pub struct TcpHeaderSpec {
    pub source_port: u16,
    pub destination_port: u16,
    pub sequence: u32,
    pub acknowledgment: u32,
    pub flags: TcpFlags,
    pub window: u16,
    pub mss: Option<u16>,
    pub window_scale: Option<u8>,
}

/// The option octets that announce `mss`.
pub open spec fn mss_option(mss: Option<u16>) -> Seq<u8> {
    match mss {
        Some(value) => seq![2u8, 4u8] + be16_bytes(value),
        None => Seq::empty(),
    }
}

/// The option octets that announce a window scale, padded to four.
pub open spec fn window_scale_option(shift: Option<u8>) -> Seq<u8> {
    match shift {
        Some(value) => seq![1u8, 3u8, 3u8, value],
        None => Seq::empty(),
    }
}

/// The length of the header that `spec` describes.
pub open spec fn header_len(spec: TcpHeaderSpec) -> int {
    20 + (if spec.mss is Some { 4int } else { 0 }) + (if spec.window_scale is Some {
        4int
    } else {
        0
    })
}

/// The twenty fixed octets of the header that `spec` describes, with its
/// checksum field zero.
pub open spec fn fixed_header(spec: TcpHeaderSpec) -> Seq<u8> {
    be16_bytes(spec.source_port) + be16_bytes(spec.destination_port) + be32_bytes(spec.sequence)
        + be32_bytes(spec.acknowledgment) + seq![
        (header_len(spec) / 4 * 16) as u8,
        flags_octet(spec.flags),
    ] + be16_bytes(spec.window) + seq![0u8, 0u8, 0u8, 0u8]
}

/// The header that `spec` describes, with its checksum field zero.
pub open spec fn header_bytes(spec: TcpHeaderSpec) -> Seq<u8> {
    fixed_header(spec) + (mss_option(spec.mss) + window_scale_option(spec.window_scale))
}

fn fixed_octets(spec: TcpHeaderSpec, length: usize) -> (octets: [u8; 20])
    requires
        length == header_len(spec),
    ensures
        octets@ == fixed_header(spec),
{
    let flags: u8 = (if spec.flags.fin { 1u8 } else { 0 }) + (if spec.flags.syn {
        2u8
    } else {
        0
    }) + (if spec.flags.rst { 4u8 } else { 0 }) + (if spec.flags.psh { 8u8 } else { 0 }) + (
    if spec.flags.ack { 16u8 } else { 0 });
    let source = crate::bytes::be16_octets(spec.source_port);
    let destination = crate::bytes::be16_octets(spec.destination_port);
    let sequence = crate::bytes::be32_octets(spec.sequence);
    let acknowledgment = crate::bytes::be32_octets(spec.acknowledgment);
    let window = crate::bytes::be16_octets(spec.window);
    let octets = [
        source[0],
        source[1],
        destination[0],
        destination[1],
        sequence[0],
        sequence[1],
        sequence[2],
        sequence[3],
        acknowledgment[0],
        acknowledgment[1],
        acknowledgment[2],
        acknowledgment[3],
        (length / 4 * 16) as u8,
        flags,
        window[0],
        window[1],
        0,
        0,
        0,
        0,
    ];
    assert(octets@ =~= fixed_header(spec));
    octets
}

pub fn write_header(out: &mut [u8], spec: TcpHeaderSpec) -> (result: Result<usize, PacketError>)
    ensures
        match result {
            Ok(length) => {
                &&& length == header_len(spec)
                &&& old(out)@.len() >= length
                &&& final(out)@ == header_bytes(spec) + old(out)@.skip(length as int)
            },
            Err(error) => {
                &&& old(out)@.len() < header_len(spec)
                &&& error == PacketError::Truncated
                &&& final(out)@ == old(out)@
            },
        },
{
    let length: usize = TCP_MIN_HEADER_LEN + (if spec.mss.is_some() {
        4
    } else {
        0
    }) + (if spec.window_scale.is_some() {
        4
    } else {
        0
    });
    if out.len() < length {
        return Err(PacketError::Truncated);
    }
    let ghost before = out@;
    let fixed = fixed_octets(spec, length);
    crate::bytes::put(out, 0, &fixed);
    assert(out@ =~= fixed@ + before.skip(20));
    let mut cursor: usize = TCP_MIN_HEADER_LEN;
    if let Some(mss) = spec.mss {
        let value = crate::bytes::be16_octets(mss);
        let octets = [2, 4, value[0], value[1]];
        assert(octets@ =~= mss_option(spec.mss));
        crate::bytes::put(out, cursor, &octets);
        cursor = cursor + 4;
    }
    assert(out@ =~= fixed@ + mss_option(spec.mss) + before.skip(cursor as int));
    if let Some(shift) = spec.window_scale {
        let octets = [1, 3, 3, shift];
        assert(octets@ =~= window_scale_option(spec.window_scale));
        crate::bytes::put(out, cursor, &octets);
    }
    assert(out@ =~= fixed@ + (mss_option(spec.mss) + window_scale_option(spec.window_scale))
        + before.skip(length as int));
    Ok(length)
}

/// `tcp` with its checksum field zero.
pub open spec fn without_checksum(tcp: Seq<u8>) -> Seq<u8> {
    splice(tcp, 16, be16_bytes(0))
}

/// `tcp` with its checksum field filled in for IPv4.
pub open spec fn with_ipv4_checksum(tcp: Seq<u8>, source: Seq<u8>, destination: Seq<u8>) -> Seq<
    u8,
> {
    splice(
        tcp,
        16,
        be16_bytes(
            complement(ipv4_transport_sum(source, destination, 6, without_checksum(tcp))),
        ),
    )
}

/// `tcp` with its checksum field filled in for IPv6.
pub open spec fn with_ipv6_checksum(tcp: Seq<u8>, source: Seq<u8>, destination: Seq<u8>) -> Seq<
    u8,
> {
    splice(
        tcp,
        16,
        be16_bytes(
            complement(ipv6_transport_sum(source, destination, 6, without_checksum(tcp))),
        ),
    )
}

pub fn set_ipv4_checksum(tcp: &mut [u8], source: [u8; 4], destination: [u8; 4]) -> (result: Result<
    (),
    PacketError,
>)
    requires
        old(tcp)@.len() >= 20 ==> ipv4_transport_sum(
            source@,
            destination@,
            6,
            without_checksum(old(tcp)@),
        ) <= u32::MAX,
    ensures
        match result {
            Ok(()) => {
                &&& old(tcp)@.len() >= 20
                &&& final(tcp)@ == with_ipv4_checksum(old(tcp)@, source@, destination@)
            },
            Err(error) => {
                &&& old(tcp)@.len() < 20
                &&& error == PacketError::Truncated
                &&& final(tcp)@ == old(tcp)@
            },
        },
{
    if tcp.len() < TCP_MIN_HEADER_LEN {
        return Err(PacketError::Truncated);
    }
    let ghost before = tcp@;
    crate::bytes::put(tcp, 16, &crate::bytes::be16_octets(0));
    let value: u16 = super::checksum::ipv4_transport(source, destination, 6, tcp);
    crate::bytes::put(tcp, 16, &crate::bytes::be16_octets(value));
    assert(tcp@ =~= with_ipv4_checksum(before, source@, destination@));
    Ok(())
}

pub fn set_ipv6_checksum(
    tcp: &mut [u8],
    source: [u8; 16],
    destination: [u8; 16],
) -> (result: Result<(), PacketError>)
    requires
        old(tcp)@.len() >= 20 ==> ipv6_transport_sum(
            source@,
            destination@,
            6,
            without_checksum(old(tcp)@),
        ) <= u32::MAX,
    ensures
        match result {
            Ok(()) => {
                &&& old(tcp)@.len() >= 20
                &&& final(tcp)@ == with_ipv6_checksum(old(tcp)@, source@, destination@)
            },
            Err(error) => {
                &&& old(tcp)@.len() < 20
                &&& error == PacketError::Truncated
                &&& final(tcp)@ == old(tcp)@
            },
        },
{
    if tcp.len() < TCP_MIN_HEADER_LEN {
        return Err(PacketError::Truncated);
    }
    let ghost before = tcp@;
    crate::bytes::put(tcp, 16, &crate::bytes::be16_octets(0));
    let value: u16 = super::checksum::ipv6_transport(source, destination, 6, tcp);
    crate::bytes::put(tcp, 16, &crate::bytes::be16_octets(value));
    assert(tcp@ =~= with_ipv6_checksum(before, source@, destination@));
    Ok(())
}

/// `tcp` with its checksum field holding only the sum of a pseudo header, for
/// a device that completes it.
pub open spec fn with_partial_checksum(tcp: Seq<u8>, pseudo_sum: nat) -> Seq<u8> {
    splice(tcp, 16, be16_bytes(ones_sum(pseudo_sum)))
}

pub fn set_ipv4_partial_checksum(
    tcp: &mut [u8],
    source: [u8; 4],
    destination: [u8; 4],
) -> (result: Result<(), PacketError>)
    requires
        old(tcp)@.len() <= 0xffff,
    ensures
        match result {
            Ok(()) => {
                &&& old(tcp)@.len() >= 20
                &&& final(tcp)@ == with_partial_checksum(
                    old(tcp)@,
                    ipv4_pseudo_sum(source@, destination@, 6, old(tcp)@.len() as u32),
                )
            },
            Err(error) => {
                &&& old(tcp)@.len() < 20
                &&& error == PacketError::Truncated
                &&& final(tcp)@ == old(tcp)@
            },
        },
{
    if tcp.len() < TCP_MIN_HEADER_LEN {
        return Err(PacketError::Truncated);
    }
    proof {
        lemma_word_sum_bound(source@);
        lemma_word_sum_bound(destination@);
    }
    let mut sum: u32 = super::checksum::sum_words(0, &source);
    sum = super::checksum::sum_words(sum, &destination);
    sum = sum + 6 + tcp.len() as u32;
    let value: u16 = 0xffff - super::checksum::fold(sum);
    crate::bytes::put(tcp, 16, &crate::bytes::be16_octets(value));
    Ok(())
}

pub fn set_ipv6_partial_checksum(
    tcp: &mut [u8],
    source: [u8; 16],
    destination: [u8; 16],
) -> (result: Result<(), PacketError>)
    requires
        old(tcp)@.len() <= 0xffff,
    ensures
        match result {
            Ok(()) => {
                &&& old(tcp)@.len() >= 20
                &&& final(tcp)@ == with_partial_checksum(
                    old(tcp)@,
                    ipv6_pseudo_sum(source@, destination@, 6, old(tcp)@.len() as u32),
                )
            },
            Err(error) => {
                &&& old(tcp)@.len() < 20
                &&& error == PacketError::Truncated
                &&& final(tcp)@ == old(tcp)@
            },
        },
{
    if tcp.len() < TCP_MIN_HEADER_LEN {
        return Err(PacketError::Truncated);
    }
    proof {
        lemma_word_sum_bound(source@);
        lemma_word_sum_bound(destination@);
    }
    let mut sum: u32 = super::checksum::sum_words(0, &source);
    sum = super::checksum::sum_words(sum, &destination);
    sum = sum + 6 + tcp.len() as u32;
    let value: u16 = 0xffff - super::checksum::fold(sum);
    crate::bytes::put(tcp, 16, &crate::bytes::be16_octets(value));
    Ok(())
}

/// Completing a partial checksum gives the whole one: the checksum over the
/// segment alone, with the pseudo-header sum in its checksum field, is the
/// checksum over pseudo header and segment with that field zero.
pub proof fn law_partial_checksum_completes(tcp: Seq<u8>, pseudo_sum: nat)
    requires
        tcp.len() >= 20,
    ensures
        complement(word_sum(with_partial_checksum(tcp, pseudo_sum))) == complement(
            pseudo_sum + word_sum(without_checksum(tcp)),
        ),
{
    let plain = without_checksum(tcp);
    let value = ones_sum(pseudo_sum);
    assert(with_partial_checksum(tcp, pseudo_sum) =~= splice(plain, 16, be16_bytes(value)));
    assert(plain[16] == 0 && plain[17] == 0);
    lemma_word_sum_splice(plain, 16, value);
    lemma_ones_sum_absorbs(word_sum(plain), pseudo_sum);
}

/// A segment whose IPv4 checksum was filled in verifies.
pub proof fn law_ipv4_checksum_verifies(tcp: Seq<u8>, source: Seq<u8>, destination: Seq<u8>)
    requires
        tcp.len() >= 20,
    ensures
        complement(
            ipv4_transport_sum(
                source,
                destination,
                6,
                with_ipv4_checksum(tcp, source, destination),
            ),
        ) == 0,
{
    let plain = without_checksum(tcp);
    let sum = ipv4_transport_sum(source, destination, 6, plain);
    let done = with_ipv4_checksum(tcp, source, destination);
    assert(done =~= splice(plain, 16, be16_bytes(complement(sum))));
    assert(plain[16] == 0 && plain[17] == 0);
    lemma_word_sum_splice(plain, 16, complement(sum));
    lemma_complement_verifies(sum);
}

/// A segment whose IPv6 checksum was filled in verifies.
pub proof fn law_ipv6_checksum_verifies(tcp: Seq<u8>, source: Seq<u8>, destination: Seq<u8>)
    requires
        tcp.len() >= 20,
    ensures
        complement(
            ipv6_transport_sum(
                source,
                destination,
                6,
                with_ipv6_checksum(tcp, source, destination),
            ),
        ) == 0,
{
    let plain = without_checksum(tcp);
    let sum = ipv6_transport_sum(source, destination, 6, plain);
    let done = with_ipv6_checksum(tcp, source, destination);
    assert(done =~= splice(plain, 16, be16_bytes(complement(sum))));
    assert(plain[16] == 0 && plain[17] == 0);
    lemma_word_sum_splice(plain, 16, complement(sum));
    lemma_complement_verifies(sum);
}

/// A written header reads back: the segment is accepted, every field has the
/// value it was written with, and the octets behind the header are the payload.
pub proof fn law_header_round_trip(spec: TcpHeaderSpec, payload: Seq<u8>)
    ensures
        ({
            let s = header_bytes(spec) + payload;
            &&& tcp_error(s) is None
            &&& tcp_header_len(s) == header_len(spec)
            &&& be16(s, 0) == spec.source_port
            &&& be16(s, 2) == spec.destination_port
            &&& be32(s, 4) == spec.sequence
            &&& be32(s, 8) == spec.acknowledgment
            &&& flags_of(s[13]) == spec.flags
            &&& be16(s, 14) == spec.window
            &&& tcp_mss(s) == spec.mss
            &&& tcp_window_scale(s) == spec.window_scale
            &&& s.skip(tcp_header_len(s)) == payload
        }),
{
    let s = header_bytes(spec) + payload;
    let fixed = fixed_header(spec);
    let options = mss_option(spec.mss) + window_scale_option(spec.window_scale);
    lemma_fixed_header(spec);
    assert(fixed.len() == 20);
    assert(s =~= fixed + (options + payload));
    assert(forall|i: int| 0 <= i < 20 ==> s[i] == fixed[i]);
    assert(tcp_header_len(s) == header_len(spec));
    assert(options.len() == header_len(spec) - 20);
    assert(tcp_options(s) =~= options);
    assert(s.skip(tcp_header_len(s)) =~= payload);
    lemma_options_round_trip(spec.mss, spec.window_scale);
}

/// A flag octet holds the flags it was made from.
pub proof fn law_flags_round_trip(flags: TcpFlags)
    ensures
        flags_of(flags_octet(flags)) == flags,
{
}

proof fn lemma_fixed_header(spec: TcpHeaderSpec)
    ensures
        ({
            let s = fixed_header(spec);
            &&& s.len() == 20
            &&& be16(s, 0) == spec.source_port
            &&& be16(s, 2) == spec.destination_port
            &&& be32(s, 4) == spec.sequence
            &&& be32(s, 8) == spec.acknowledgment
            &&& s[12] == header_len(spec) / 4 * 16
            &&& flags_of(s[13]) == spec.flags
            &&& be16(s, 14) == spec.window
        }),
{
    let s = fixed_header(spec);
    let source = be16_bytes(spec.source_port);
    let destination = be16_bytes(spec.destination_port);
    let sequence = be32_bytes(spec.sequence);
    let acknowledgment = be32_bytes(spec.acknowledgment);
    let control = seq![(header_len(spec) / 4 * 16) as u8, flags_octet(spec.flags)];
    let window = be16_bytes(spec.window);
    lemma_fixed_layout(source, destination, sequence, acknowledgment, control, window);
    law_flags_round_trip(spec.flags);
    crate::bytes::lemma_be16_round_trip(spec.source_port);
    crate::bytes::lemma_be16_round_trip(spec.destination_port);
    crate::bytes::lemma_be32_round_trip(spec.sequence);
    crate::bytes::lemma_be32_round_trip(spec.acknowledgment);
    crate::bytes::lemma_be16_round_trip(spec.window);
}

proof fn lemma_fixed_layout(
    source: Seq<u8>,
    destination: Seq<u8>,
    sequence: Seq<u8>,
    acknowledgment: Seq<u8>,
    control: Seq<u8>,
    window: Seq<u8>,
)
    requires
        source.len() == 2,
        destination.len() == 2,
        sequence.len() == 4,
        acknowledgment.len() == 4,
        control.len() == 2,
        window.len() == 2,
    ensures
        ({
            let s = source + destination + sequence + acknowledgment + control + window + seq![
                0u8,
                0u8,
                0u8,
                0u8,
            ];
            &&& s.len() == 20
            &&& be16(s, 0) == be16(source, 0)
            &&& be16(s, 2) == be16(destination, 0)
            &&& be32(s, 4) == be32(sequence, 0)
            &&& be32(s, 8) == be32(acknowledgment, 0)
            &&& s[12] == control[0]
            &&& s[13] == control[1]
            &&& be16(s, 14) == be16(window, 0)
        }),
{
}

proof fn lemma_options_round_trip(mss: Option<u16>, window_scale: Option<u8>)
    ensures
        ({
            let options = mss_option(mss) + window_scale_option(window_scale);
            &&& (match mss {
                Some(value) => option_value(options, 2, 4) == Some(be16_bytes(value)),
                None => option_value(options, 2, 4) is None,
            })
            &&& (match window_scale {
                Some(value) => option_value(options, 3, 3) == Some(seq![value]),
                None => option_value(options, 3, 3) is None,
            })
        }),
{
    let options = mss_option(mss) + window_scale_option(window_scale);
    let scale = window_scale_option(window_scale);
    reveal_with_fuel(option_value, 3);
    if let Some(value) = mss {
        assert(options.subrange(2, 4) =~= be16_bytes(value));
        assert(options.skip(4) =~= scale);
    } else {
        assert(options =~= scale);
    }
    if let Some(value) = window_scale {
        assert(scale.skip(1).subrange(2, 3) =~= seq![value]);
        assert(scale.skip(1).skip(3).len() == 0);
    }
}

/// The flags are the five low bits of their octet, FIN the lowest.
pub proof fn law_flags_are_bits(value: u8)
    ensures
        flags_of(value).fin <==> value & 1 != 0,
        flags_of(value).syn <==> value & 2 != 0,
        flags_of(value).rst <==> value & 4 != 0,
        flags_of(value).psh <==> value & 8 != 0,
        flags_of(value).ack <==> value & 16 != 0,
{
    assert((value % 2 != 0 <==> value & 1 != 0) && (value / 2 % 2 != 0 <==> value & 2 != 0) && (
    value / 4 % 2 != 0 <==> value & 4 != 0) && (value / 8 % 2 != 0 <==> value & 8 != 0) && (value
        / 16 % 2 != 0 <==> value & 16 != 0)) by (bit_vector);
}

/// A segment is accepted exactly where its header has at least twenty octets and lies
/// within it; over IP it must be marked as TCP and its checksum must verify.
pub proof fn law_segment_acceptance(s: Seq<u8>, ip: Seq<u8>)
    ensures
        tcp_error(s) is None <==> s.len() >= 20 && 20 <= s[12] / 16 * 4 <= s.len(),
        tcp_ipv4_error(ip) is None <==> {
            &&& ip[9] == 6
            &&& complement(
                ipv4_transport_sum(ip.subrange(12, 16), ip.subrange(16, 20), 6, ipv4_payload(ip)),
            ) == 0
            &&& tcp_error(ipv4_payload(ip)) is None
        },
        tcp_ipv6_error(ip) is None <==> {
            &&& ipv6_transport_at(ip).unwrap().0 == 6
            &&& complement(
                ipv6_transport_sum(ip.subrange(8, 24), ip.subrange(24, 40), 6, ipv6_payload(ip)),
            ) == 0
            &&& tcp_error(ipv6_payload(ip)) is None
        },
{
}

/// Options are read one behind the other: padding is passed over, an option of another
/// kind by its length, and the end of the list ends the search.
pub proof fn law_options_are_read_in_turn(options: Seq<u8>, kind: u8, length: int)
    requires
        kind > 1,
        length >= 2,
    ensures
        options.len() == 0 || options[0] == 0 ==> option_value(options, kind, length) is None,
        options.len() > 0 && options[0] == 1 ==> option_value(options, kind, length)
            == option_value(options.skip(1), kind, length),
        options.len() >= 2 && options[0] == kind && options[1] == length && length <= options.len()
            ==> option_value(options, kind, length) == Some(options.subrange(2, length)),
        options.len() >= 2 && options[0] > 1 && 2 <= options[1] <= options.len() && !(options[0]
            == kind && options[1] == length) ==> option_value(options, kind, length)
            == option_value(options.skip(options[1] as int), kind, length),
{
}

/// A SYN announces its segment size as option 2 and its window scale as option 3.
pub proof fn law_announced_values_are_read(s: Seq<u8>, header: int)
    requires
        20 <= header <= s.len(),
        s[12] / 16 * 4 == header,
        header >= 24,
        s[20] == 2 && s[21] == 4,
    ensures
        tcp_mss(s) == Some((256 * s[22] + s[23]) as u16),
        header >= 28 && s[24] == 1 && s[25] == 3 && s[26] == 3 ==> tcp_window_scale(s) == Some(
            s[27],
        ),
{
    let options = tcp_options(s);
    assert(options[0] == 2 && options[1] == 4);
    assert(options.subrange(2, 4)[0] == s[22] && options.subrange(2, 4)[1] == s[23]);
    if header >= 28 && s[24] == 1 && s[25] == 3 && s[26] == 3 {
        let rest = options.skip(4);
        let last = rest.skip(1);
        assert(rest[0] == 1);
        assert(last[0] == 3 && last[1] == 3);
        assert(last.subrange(2, 3)[0] == s[27]);
        assert(option_value(options, 3, 3) == option_value(rest, 3, 3));
        assert(option_value(rest, 3, 3) == option_value(last, 3, 3));
    }
}

/// A written header has its fields where TCP has them.
pub proof fn law_header_has_its_form(spec: TcpHeaderSpec)
    ensures
        ({
            let header = header_bytes(spec);
            &&& 256 * header[0] + header[1] == spec.source_port
            &&& 256 * header[2] + header[3] == spec.destination_port
            &&& 0x100_0000 * header[4] + 0x1_0000 * header[5] + 256 * header[6] + header[7]
                == spec.sequence
            &&& 0x100_0000 * header[8] + 0x1_0000 * header[9] + 256 * header[10] + header[11]
                == spec.acknowledgment
            &&& header[12] / 16 * 4 == header.len()
            &&& 256 * header[14] + header[15] == spec.window
            &&& header[16] == 0 && header[17] == 0 && header[18] == 0 && header[19] == 0
            &&& header.len() == 20 + (if spec.mss is Some {
                4int
            } else {
                0
            }) + (if spec.window_scale is Some {
                4int
            } else {
                0
            })
        }),
{
    let header = header_bytes(spec);
    let source = be16_bytes(spec.source_port);
    let destination = be16_bytes(spec.destination_port);
    let sequence = be32_bytes(spec.sequence);
    let acknowledgment = be32_bytes(spec.acknowledgment);
    let window = be16_bytes(spec.window);
    assert(header[0] == source[0] && header[1] == source[1]);
    assert(header[2] == destination[0] && header[3] == destination[1]);
    assert(header[4] == sequence[0] && header[5] == sequence[1] && header[6] == sequence[2]
        && header[7] == sequence[3]);
    assert(header[8] == acknowledgment[0] && header[9] == acknowledgment[1] && header[10]
        == acknowledgment[2] && header[11] == acknowledgment[3]);
    assert(header[14] == window[0] && header[15] == window[1]);
    crate::bytes::law_octet_orders(header, 0, spec.source_port, spec.sequence);
    crate::bytes::law_octet_orders(header, 0, spec.destination_port, spec.acknowledgment);
    crate::bytes::law_octet_orders(header, 0, spec.window, spec.sequence);
}

} // verus!
