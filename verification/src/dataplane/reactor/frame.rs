//! The frames that are sent to the namespace.

use crate::net::{IpAddress, SocketAddress};
use crate::packet::PacketError;
use crate::packet::checksum::{ipv4_pseudo_sum, ipv6_pseudo_sum, lemma_word_sum_bound};
use crate::packet::ethernet::{ETHERNET_HEADER_LEN, EtherType, MacAddress};
use crate::packet::ip::{
    IPPROTO_TCP, ipv4_header, ipv6_header, lemma_ipv4_header_len, lemma_ipv6_header_len,
};
use crate::packet::tcp::{TCP_MIN_HEADER_LEN, TcpFlags, TcpHeaderSpec};
use crate::packet::vnet;
use crate::packet::vnet::{VNET_HEADER_LEN, VnetHeader};
use crate::packet::{ethernet, tcp, udp};
use crate::tcp_adapter::flow::{FlowKey, SendPlan};
use vstd::prelude::*;

verus! {

/// The largest packet that a length field of 16 bits can announce.
pub const GSO_MAX_L3_BYTES: usize = 65_535;

#[derive(Clone, Copy, Debug, PartialEq, Eq)]
pub enum Error {
    /// A packet could not be written.
    Packet(PacketError),
    /// Something holds that the data plane rules out.
    Invariant(&'static str),
}

/// The addresses on the link, and whether frames carry offload state.
#[derive(Clone, Copy, Debug)]
pub struct Link {
    pub target_mac: MacAddress,
    pub gateway_mac: MacAddress,
    pub offload: bool,
}

#[derive(Clone, Copy, Debug)]
pub struct TcpFrameSpec {
    pub key: FlowKey,
    pub plan: SendPlan,
    pub flags: TcpFlags,
    pub mss: Option<u16>,
    pub window_scale: Option<u8>,
    pub window: u16,
    pub payload_len: usize,
    /// Segment size the kernel splits the frame into when the payload
    /// exceeds it; `None` on frames that must never carry offload segmentation.
    pub gso_size: Option<u16>,
}

/// The length of the prefix that carries offload state.
pub open spec fn prefix_len(offload: bool) -> int {
    if offload {
        VNET_HEADER_LEN as int
    } else {
        0
    }
}

pub open spec fn ip_len(address: SocketAddress) -> int {
    if address.ip is V4 {
        20
    } else {
        40
    }
}

/// Where the payload of a TCP frame begins: behind the prefix and the Ethernet,
/// IP and TCP headers.
pub open spec fn payload_start(
    offload: bool,
    key: FlowKey,
    mss: Option<u16>,
    window_scale: Option<u8>,
) -> int {
    prefix_len(offload) + ETHERNET_HEADER_LEN + ip_len(key.target) + 20 + (if mss is Some {
        4int
    } else {
        0
    }) + (if window_scale is Some {
        4int
    } else {
        0
    })
}

#[must_use]
pub fn vnet_len(offload: bool) -> (length: usize)
    ensures
        length == prefix_len(offload),
{
    if offload {
        VNET_HEADER_LEN
    } else {
        0
    }
}

#[must_use]
pub fn tcp_payload_offset(
    offload: bool,
    key: FlowKey,
    mss: Option<u16>,
    window_scale: Option<u8>,
) -> (offset: usize)
    ensures
        offset == payload_start(offload, key, mss, window_scale),
{
    let ip_header_len: usize = if key.target.is_ipv4() {
        20
    } else {
        40
    };
    let tcp_header_len: usize = TCP_MIN_HEADER_LEN + (if mss.is_some() {
        4
    } else {
        0
    }) + (if window_scale.is_some() {
        4
    } else {
        0
    });
    vnet_len(offload) + ETHERNET_HEADER_LEN + ip_header_len + tcp_header_len
}

/// The Ethernet header of a frame for the namespace.
pub open spec fn link_header(link: Link, v4: bool) -> Seq<u8> {
    ethernet::header_bytes(
        link.target_mac,
        link.gateway_mac,
        if v4 {
            EtherType::Ipv4
        } else {
            EtherType::Ipv6
        },
    )
}

impl TcpFrameSpec {
    /// The TCP header of the frame.
    pub open spec fn header(self) -> TcpHeaderSpec {
        TcpHeaderSpec {
            source_port: self.key.target.port,
            destination_port: self.key.namespace.port,
            sequence: self.plan.sequence,
            acknowledgment: self.plan.acknowledgment,
            flags: self.flags,
            window: self.window,
            mss: self.mss,
            window_scale: self.window_scale,
        }
    }

    /// The segment before its checksum is filled in.
    pub open spec fn bare_segment(self, payload: Seq<u8>) -> Seq<u8> {
        tcp::header_bytes(self.header()) + payload
    }

    /// Whether the kernel is to cut the frame into segments.
    pub open spec fn segmented(self, offload: bool) -> bool {
        offload && self.gso_size is Some && self.payload_len > self.gso_size.unwrap()
    }

    /// The offload state of the frame.
    #[verifier::opaque]
    pub open spec fn offload_state(self) -> VnetHeader {
        let cut = self.segmented(true);
        VnetHeader {
            flags: vnet::FLAG_NEEDS_CSUM,
            gso_type: if !cut {
                vnet::GSO_NONE
            } else if self.key.target.ip is V4 {
                vnet::GSO_TCPV4
            } else {
                vnet::GSO_TCPV6
            },
            hdr_len: (payload_start(true, self.key, self.mss, self.window_scale)
                - VNET_HEADER_LEN) as u16,
            gso_size: if cut {
                self.gso_size.unwrap()
            } else {
                0
            },
            csum_start: (ETHERNET_HEADER_LEN + ip_len(self.key.target)) as u16,
            csum_offset: 16,
        }
    }

    pub open spec fn start(self, offload: bool) -> int {
        payload_start(offload, self.key, self.mss, self.window_scale)
    }

    /// The IP header and the segment behind it: with its checksum complete, or
    /// with the part that the kernel completes when the frame carries offload
    /// state.
    #[verifier::opaque]
    pub open spec fn packet(self, offload: bool, payload: Seq<u8>) -> Seq<u8> {
        let bare = self.bare_segment(payload);
        match (self.key.target.ip, self.key.namespace.ip) {
            (IpAddress::V4(source), IpAddress::V4(destination)) => ipv4_header(
                source@,
                destination@,
                IPPROTO_TCP,
                bare.len() as int,
                0,
            ) + if offload {
                tcp::with_partial_checksum(
                    bare,
                    ipv4_pseudo_sum(source@, destination@, 6, bare.len() as u32),
                )
            } else {
                tcp::with_ipv4_checksum(bare, source@, destination@)
            },
            (IpAddress::V6(source), IpAddress::V6(destination)) => ipv6_header(
                source@,
                destination@,
                IPPROTO_TCP,
                bare.len() as int,
            ) + if offload {
                tcp::with_partial_checksum(
                    bare,
                    ipv6_pseudo_sum(source@, destination@, 6, bare.len() as u32),
                )
            } else {
                tcp::with_ipv6_checksum(bare, source@, destination@)
            },
            _ => Seq::empty(),
        }
    }

    /// The octets of the frame.
    pub open spec fn frame(self, link: Link, payload: Seq<u8>) -> Seq<u8> {
        (if link.offload {
            self.offload_state().octets()
        } else {
            Seq::empty()
        }) + link_header(link, self.key.target.ip is V4) + self.packet(link.offload, payload)
    }

    /// Why the frame cannot be sent, if it cannot.
    pub open spec fn refusal(self, offload: bool) -> Option<Error> {
        let length = self.start(offload) - prefix_len(offload) - ETHERNET_HEADER_LEN
            + self.payload_len;
        if (self.key.target.ip is V4) != (self.key.namespace.ip is V4) {
            Some(Error::Invariant("mixed address families in flow"))
        } else if (if self.key.target.ip is V4 {
            length
        } else {
            length - 40
        }) > 0xffff {
            Some(Error::Packet(PacketError::InvalidLength))
        } else {
            None
        }
    }
}

/// A finished frame: its length and whether the kernel cuts it into segments.
#[derive(Clone, Copy, Debug, PartialEq, Eq, Structural)]
pub struct FinishedFrame {
    pub length: usize,
    pub segmented: bool,
}

/// Writes the TCP header in front of the payload behind it.
fn write_bare_segment(segment: &mut [u8], spec: &TcpFrameSpec) -> (written: usize)
    requires
        old(segment)@.len() == tcp::header_len(spec.header()) + spec.payload_len,
    ensures
        written == tcp::header_len(spec.header()),
        final(segment)@ == spec.bare_segment(
            old(segment)@.skip(tcp::header_len(spec.header())),
        ),
        final(segment)@.len() == old(segment)@.len(),
{
    let header = TcpHeaderSpec {
        source_port: spec.key.target.port,
        destination_port: spec.key.namespace.port,
        sequence: spec.plan.sequence,
        acknowledgment: spec.plan.acknowledgment,
        flags: spec.flags,
        window: spec.window,
        mss: spec.mss,
        window_scale: spec.window_scale,
    };
    match tcp::write_header(segment, header) {
        Ok(written) => written,
        Err(_) => 0,
    }
}

/// What precedes the payload in a packet.
pub open spec fn packet_headers(spec: TcpFrameSpec) -> int {
    ip_len(spec.key.target) + tcp::header_len(spec.header())
}

fn write_ipv4_packet(
    packet: &mut [u8],
    spec: &TcpFrameSpec,
    offload: bool,
    source: [u8; 4],
    destination: [u8; 4],
) -> (result: Result<(), PacketError>)
    requires
        spec.key.target.ip == IpAddress::V4(source),
        spec.key.namespace.ip == IpAddress::V4(destination),
        old(packet)@.len() == packet_headers(*spec) + spec.payload_len,
    ensures
        final(packet)@.len() == old(packet)@.len(),
        match result {
            Ok(()) => {
                &&& old(packet)@.len() <= 0xffff
                &&& final(packet)@ == spec.packet(
                    offload,
                    old(packet)@.skip(packet_headers(*spec)),
                )
            },
            Err(error) => old(packet)@.len() > 0xffff && error == PacketError::InvalidLength,
        },
{
    reveal(TcpFrameSpec::packet);
    let ghost payload = packet@.skip(packet_headers(*spec));
    let ghost bare = spec.bare_segment(payload);
    let (head, segment) = packet.split_at_mut(20);
    let length: usize = segment.len();
    assert(segment@.skip(tcp::header_len(spec.header())) =~= payload);
    let _ = write_bare_segment(segment, spec);
    match crate::packet::ip::write_ipv4_header(
        head,
        source,
        destination,
        IPPROTO_TCP,
        length,
        0,
    ) {
        Ok(_) => {},
        Err(error) => return Err(error),
    }
    proof {
        lemma_ipv4_header_len(source@, destination@, IPPROTO_TCP, length as int, 0);
        lemma_word_sum_bound(source@);
        lemma_word_sum_bound(destination@);
        lemma_word_sum_bound(tcp::without_checksum(bare));
    }
    assert(head@ =~= ipv4_header(source@, destination@, IPPROTO_TCP, length as int, 0));
    if offload {
        tcp::set_ipv4_partial_checksum(segment, source, destination)
    } else {
        tcp::set_ipv4_checksum(segment, source, destination)
    }
}

fn write_ipv6_packet(
    packet: &mut [u8],
    spec: &TcpFrameSpec,
    offload: bool,
    source: [u8; 16],
    destination: [u8; 16],
) -> (result: Result<(), PacketError>)
    requires
        spec.key.target.ip == IpAddress::V6(source),
        spec.key.namespace.ip == IpAddress::V6(destination),
        old(packet)@.len() == packet_headers(*spec) + spec.payload_len,
    ensures
        final(packet)@.len() == old(packet)@.len(),
        match result {
            Ok(()) => {
                &&& old(packet)@.len() <= 0xffff + 40
                &&& final(packet)@ == spec.packet(
                    offload,
                    old(packet)@.skip(packet_headers(*spec)),
                )
            },
            Err(error) => old(packet)@.len() > 0xffff + 40 && error == PacketError::InvalidLength,
        },
{
    reveal(TcpFrameSpec::packet);
    let ghost payload = packet@.skip(packet_headers(*spec));
    let ghost bare = spec.bare_segment(payload);
    let (head, segment) = packet.split_at_mut(40);
    let length: usize = segment.len();
    assert(segment@.skip(tcp::header_len(spec.header())) =~= payload);
    let _ = write_bare_segment(segment, spec);
    match crate::packet::ip::write_ipv6_header(head, source, destination, IPPROTO_TCP, length) {
        Ok(_) => {},
        Err(error) => return Err(error),
    }
    proof {
        lemma_ipv6_header_len(source@, destination@, IPPROTO_TCP, length as int, 64);
        lemma_word_sum_bound(source@);
        lemma_word_sum_bound(destination@);
        lemma_word_sum_bound(tcp::without_checksum(bare));
    }
    assert(head@ =~= ipv6_header(source@, destination@, IPPROTO_TCP, length as int));
    if offload {
        tcp::set_ipv6_partial_checksum(segment, source, destination)
    } else {
        tcp::set_ipv6_checksum(segment, source, destination)
    }
}

/// Writes the offload state of the frame and tells whether it is segmented.
fn write_offload_state(front: &mut [u8], spec: &TcpFrameSpec) -> (segmented: bool)
    requires
        old(front)@.len() == VNET_HEADER_LEN,
    ensures
        segmented == spec.segmented(true),
        final(front)@ == spec.offload_state().octets(),
        final(front)@.len() == VNET_HEADER_LEN,
{
    reveal(TcpFrameSpec::offload_state);
    let v4 = spec.key.target.is_ipv4();
    let ip_header_len: usize = if v4 {
        20
    } else {
        40
    };
    let start: usize = tcp_payload_offset(true, spec.key, spec.mss, spec.window_scale);
    let size: u16 = match spec.gso_size {
        Some(size) => if spec.payload_len > size as usize {
            size
        } else {
            0
        },
        None => 0,
    };
    let segmented = match spec.gso_size {
        Some(size) => spec.payload_len > size as usize,
        None => false,
    };
    let state = VnetHeader {
        flags: vnet::FLAG_NEEDS_CSUM,
        gso_type: if !segmented {
            vnet::GSO_NONE
        } else if v4 {
            vnet::GSO_TCPV4
        } else {
            vnet::GSO_TCPV6
        },
        hdr_len: (start - VNET_HEADER_LEN) as u16,
        gso_size: size,
        csum_start: (ETHERNET_HEADER_LEN + ip_header_len) as u16,
        csum_offset: 16,
    };
    assert(state == spec.offload_state());
    let _ = state.write(front);
    assert(front@ =~= spec.offload_state().octets());
    segmented
}

/// Writes the headers of a TCP frame around its payload, which already lies in
/// its place.
pub fn finalize_tcp_frame(bytes: &mut [u8], link: &Link, spec: TcpFrameSpec) -> (result: Result<
    FinishedFrame,
    Error,
>)
    requires
        spec.start(link.offload) + spec.payload_len <= old(bytes)@.len(),
    ensures
        final(bytes)@.len() == old(bytes)@.len(),
        match result {
            Ok(finished) => {
                let start = spec.start(link.offload);
                &&& spec.refusal(link.offload) is None
                &&& finished.length == start + spec.payload_len
                &&& finished.segmented == spec.segmented(link.offload)
                &&& final(bytes)@ == spec.frame(
                    *link,
                    old(bytes)@.subrange(start, finished.length as int),
                ) + old(bytes)@.skip(finished.length as int)
            },
            Err(error) => spec.refusal(link.offload) == Some(error),
        },
{
    let v4 = spec.key.target.is_ipv4();
    let room: usize = bytes.len();
    let prefix: usize = vnet_len(link.offload);
    let start: usize = tcp_payload_offset(link.offload, spec.key, spec.mss, spec.window_scale);
    let length: usize = start + spec.payload_len;
    let ghost before = bytes@;
    let ghost payload = bytes@.subrange(start as int, length as int);
    let (front, body) = bytes.split_at_mut(prefix);
    let (link_part, behind) = body.split_at_mut(ETHERNET_HEADER_LEN);
    let (packet, rest) = behind.split_at_mut(length - prefix - ETHERNET_HEADER_LEN);
    assert(rest@ =~= before.skip(length as int));
    assert(packet@.skip(packet_headers(spec)) =~= payload);
    let segmented = if link.offload {
        write_offload_state(front, &spec)
    } else {
        assert(front@ =~= Seq::<u8>::empty());
        false
    };
    let ether_type = if v4 {
        EtherType::Ipv4
    } else {
        EtherType::Ipv6
    };
    let _ = ethernet::write_header(link_part, link.target_mac, link.gateway_mac, ether_type);
    assert(link_part@ =~= link_header(*link, v4));
    let done = match (spec.key.target.ip, spec.key.namespace.ip) {
        (IpAddress::V4(source), IpAddress::V4(destination)) => {
            write_ipv4_packet(packet, &spec, link.offload, source, destination)
        },
        (IpAddress::V6(source), IpAddress::V6(destination)) => {
            write_ipv6_packet(packet, &spec, link.offload, source, destination)
        },
        _ => return Err(Error::Invariant("mixed address families in flow")),
    };
    match done {
        Ok(()) => {
            assert(front@ + (link_part@ + (packet@ + rest@)) =~= spec.frame(*link, payload)
                + rest@);
            Ok(FinishedFrame { length, segmented })
        },
        Err(error) => Err(Error::Packet(error)),
    }
}

/// The payload of a frame lies behind ten octets of offload state, if frames
/// carry it, fourteen of the Ethernet header, twenty or forty of the IP header,
/// twenty of the TCP header and four for each option.
pub proof fn law_payload_lies_behind_the_headers(
    offload: bool,
    key: FlowKey,
    mss: Option<u16>,
    window_scale: Option<u8>,
)
    ensures
        prefix_len(true) == 10,
        prefix_len(false) == 0,
        key.target.ip is V4 ==> payload_start(offload, key, None, None) == prefix_len(offload) + 54,
        key.target.ip is V6 ==> payload_start(offload, key, None, None) == prefix_len(offload) + 74,
        payload_start(offload, key, mss, window_scale) - payload_start(offload, key, None, None)
            == if mss is Some && window_scale is Some {
            8int
        } else if mss is Some || window_scale is Some {
            4
        } else {
            0
        },
{
}

/// A frame goes to the hardware address of the namespace and comes from that of
/// the gateway, and its type tells the address family.
pub proof fn law_frame_goes_to_the_namespace(link: Link, v4: bool)
    ensures
        link_header(link, v4).len() == 14,
        link_header(link, v4).subrange(0, 6) == link.target_mac.0@,
        link_header(link, v4).subrange(6, 12) == link.gateway_mac.0@,
        256 * link_header(link, v4)[12] + link_header(link, v4)[13] == if v4 {
            0x0800int
        } else {
            0x86dd
        },
{
    ethernet::law_header_has_its_form(
        link.target_mac,
        link.gateway_mac,
        if v4 {
            EtherType::Ipv4
        } else {
            EtherType::Ipv6
        },
    );
}

/// A segment comes from the port of the target, goes to that of the namespace,
/// and holds the numbers of its plan, its flags, its window and its options.
pub proof fn law_segment_comes_from_the_target(spec: TcpFrameSpec)
    ensures
        spec.header().source_port == spec.key.target.port,
        spec.header().destination_port == spec.key.namespace.port,
        spec.header().sequence == spec.plan.sequence,
        spec.header().acknowledgment == spec.plan.acknowledgment,
        spec.header().flags == spec.flags,
        spec.header().window == spec.window,
        spec.header().mss == spec.mss,
        spec.header().window_scale == spec.window_scale,
        spec.bare_segment(Seq::empty()).len() == 20 + (if spec.mss is Some {
            4int
        } else {
            0
        }) + (if spec.window_scale is Some {
            4int
        } else {
            0
        }),
{
    tcp::law_header_has_its_form(spec.header());
}

/// A frame leaves its checksum to the kernel, which finds it sixteen octets into
/// the TCP header. It is cut into segments exactly when its payload is longer
/// than the size that it may be cut to, and then says the family and the size.
pub proof fn law_kernel_cuts_long_frames(spec: TcpFrameSpec)
    ensures
        !spec.segmented(false),
        spec.gso_size is None ==> !spec.segmented(true),
        spec.gso_size is Some ==> spec.segmented(true) == (spec.payload_len
            > spec.gso_size.unwrap()),
        spec.offload_state().flags == 1,
        spec.offload_state().csum_start == if spec.key.target.ip is V4 {
            34int
        } else {
            54
        },
        spec.offload_state().csum_offset == 16,
        spec.offload_state().hdr_len == (if spec.key.target.ip is V4 {
            54int
        } else {
            74
        }) + (if spec.mss is Some {
            4int
        } else {
            0
        }) + (if spec.window_scale is Some {
            4int
        } else {
            0
        }),
        spec.segmented(true) ==> {
            &&& Some(spec.offload_state().gso_size) == spec.gso_size
            &&& spec.offload_state().gso_type == if spec.key.target.ip is V4 {
                1int
            } else {
                4
            }
        },
        !spec.segmented(true) ==> spec.offload_state().gso_size == 0
            && spec.offload_state().gso_type == 0,
{
    reveal(TcpFrameSpec::offload_state);
}

/// A frame is refused exactly when its addresses are of two families, or when a
/// length field of 16 bits cannot announce it.
pub proof fn law_only_overlong_frames_are_refused(spec: TcpFrameSpec, offload: bool)
    ensures
        spec.key.target.ip is V4 && spec.key.namespace.ip is V4 ==> {
            &&& spec.refusal(offload) is None <==> spec.bare_segment(Seq::empty()).len()
                + spec.payload_len <= 65_515
            &&& spec.refusal(offload) is Some ==> spec.refusal(offload) == Some(
                Error::Packet(PacketError::InvalidLength),
            )
        },
        spec.key.target.ip is V6 && spec.key.namespace.ip is V6 ==> {
            &&& spec.refusal(offload) is None <==> spec.bare_segment(Seq::empty()).len()
                + spec.payload_len <= 65_535
            &&& spec.refusal(offload) is Some ==> spec.refusal(offload) == Some(
                Error::Packet(PacketError::InvalidLength),
            )
        },
        (spec.key.target.ip is V4 && spec.key.namespace.ip is V6) || (spec.key.target.ip is V6
            && spec.key.namespace.ip is V4) ==> spec.refusal(offload) is Some
            && spec.refusal(offload).unwrap() is Invariant,
{
    law_segment_comes_from_the_target(spec);
}

/// The packet of a frame comes from the target and goes to the namespace, and
/// says that it carries TCP. Its payload is what was handed over, at its end.
pub proof fn law_packet_comes_from_the_target(
    spec: TcpFrameSpec,
    offload: bool,
    payload: Seq<u8>,
    source4: [u8; 4],
    destination4: [u8; 4],
    source6: [u8; 16],
    destination6: [u8; 16],
)
    requires
        spec.bare_segment(payload).len() <= 65_515,
    ensures
        spec.key.target.ip == IpAddress::V4(source4) && spec.key.namespace.ip == IpAddress::V4(
            destination4,
        ) ==> {
            let packet = spec.packet(offload, payload);
            &&& packet.len() == 20 + spec.bare_segment(payload).len()
            &&& packet.subrange(12, 16) == source4@
            &&& packet.subrange(16, 20) == destination4@
            &&& packet[9] == 6
            &&& 256 * packet[2] + packet[3] == packet.len()
            &&& packet.skip(packet.len() - payload.len()) == payload
        },
        spec.key.target.ip == IpAddress::V6(source6) && spec.key.namespace.ip == IpAddress::V6(
            destination6,
        ) ==> {
            let packet = spec.packet(offload, payload);
            &&& packet.len() == 40 + spec.bare_segment(payload).len()
            &&& packet.subrange(8, 24) == source6@
            &&& packet.subrange(24, 40) == destination6@
            &&& packet[6] == 6
            &&& 256 * packet[4] + packet[5] == packet.len() - 40
            &&& packet.skip(packet.len() - payload.len()) == payload
        },
{
    reveal(TcpFrameSpec::packet);
    let bare = spec.bare_segment(payload);
    tcp::law_header_has_its_form(spec.header());
    assert(bare.skip(bare.len() - payload.len()) =~= payload);
    crate::packet::ip::law_headers_have_their_form(
        source4@,
        destination4@,
        source6@,
        destination6@,
        6,
        bare.len() as int,
        0,
    );
    if spec.key.target.ip == IpAddress::V4(source4) && spec.key.namespace.ip == IpAddress::V4(
        destination4,
    ) {
        let packet = spec.packet(offload, payload);
        let header = ipv4_header(source4@, destination4@, 6, bare.len() as int, 0);
        assert(packet.subrange(12, 16) =~= header.subrange(12, 16));
        assert(packet.subrange(16, 20) =~= header.subrange(16, 20));
        assert(packet[9] == header[9] && packet[2] == header[2] && packet[3] == header[3]);
        assert(packet.skip(packet.len() - payload.len()) =~= payload);
    }
    if spec.key.target.ip == IpAddress::V6(source6) && spec.key.namespace.ip == IpAddress::V6(
        destination6,
    ) {
        let packet = spec.packet(offload, payload);
        let header = ipv6_header(source6@, destination6@, 6, bare.len() as int);
        assert(packet.subrange(8, 24) =~= header.subrange(8, 24));
        assert(packet.subrange(24, 40) =~= header.subrange(24, 40));
        assert(packet[6] == header[6] && packet[4] == header[4] && packet[5] == header[5]);
        assert(packet.skip(packet.len() - payload.len()) =~= payload);
    }
}

} // verus!
