use yayatht::net::{IpAddress, SocketAddress};
use yayatht::packet::PacketError;
use yayatht::packet::checksum;
use yayatht::packet::ethernet::{
    ETHERNET_HEADER_LEN, EtherType, EthernetFrame, MacAddress, write_header as write_ethernet,
};
use yayatht::packet::icmp::{UdpError, write_udp_error};
use yayatht::packet::ip::{
    IPPROTO_ICMP, IPPROTO_ICMPV6, IPPROTO_TCP, IPPROTO_UDP, Ipv4Packet, Ipv6Packet,
    write_ipv4_header, write_ipv6_header,
};
use yayatht::packet::neighbor::{
    ARP_PACKET_LEN, parse_arp_request, parse_neighbor_solicitation, solicited_node_multicast,
    write_arp_reply, write_neighbor_advertisement,
};
use yayatht::packet::tcp::{self, TcpFlags, TcpHeaderSpec, TcpSegment};
use yayatht::packet::udp::{self, UDP_HEADER_LEN, UdpDatagram};
use yayatht::packet::vnet::{
    FLAG_DATA_VALID, FLAG_NEEDS_CSUM, GSO_TCPV4, GSO_TCPV6, VNET_HEADER_LEN, VnetHeader,
};

fn v4(octets: [u8; 4], port: u16) -> SocketAddress {
    SocketAddress::new(IpAddress::V4(octets), port)
}

fn v6(octets: [u8; 16], port: u16) -> SocketAddress {
    SocketAddress::new(IpAddress::V6(octets), port)
}

/// `fd79:6179:6174:6874::` and the last octet.
fn synthetic(last: u8) -> [u8; 16] {
    [
        0xfd, 0x79, 0x61, 0x79, 0x61, 0x74, 0x68, 0x74, 0, 0, 0, 0, 0, 0, 0, last,
    ]
}

/// `2001:db8::` and the last octet.
fn documentation(last: u8) -> [u8; 16] {
    [0x20, 0x01, 0x0d, 0xb8, 0, 0, 0, 0, 0, 0, 0, 0, 0, 0, 0, last]
}

#[test]
fn known_ipv4_header() {
    let header = [
        0x45, 0x00, 0x00, 0x54, 0x00, 0x00, 0x40, 0x00, 0x40, 0x01, 0, 0, 0xc0, 0xa8, 0x00, 0x01,
        0xc0, 0xa8, 0x00, 0xc7,
    ];
    assert_eq!(checksum::checksum(&header), 0xb890);
}

#[test]
fn checksum_of_odd_and_empty_input() {
    assert_eq!(checksum::checksum(&[]), 0xffff);
    assert_eq!(checksum::checksum(&[0x12]), !0x1200);
    assert_eq!(checksum::checksum(&[0xff, 0xff, 0x00, 0x01]), 0xfffe);
    assert_eq!(
        checksum::ipv4_transport([192, 0, 2, 1], [192, 0, 2, 2], 17, &[]),
        0x7bea
    );
}

#[test]
fn rejects_truncated_header() {
    assert_eq!(
        EthernetFrame::parse(&[0; ETHERNET_HEADER_LEN - 1]).unwrap_err(),
        PacketError::Truncated
    );
}

#[test]
fn ethernet_header_reads_back() {
    let mut frame = [0u8; 20];
    frame[14..].copy_from_slice(b"abcdef");
    write_ethernet(
        &mut frame,
        MacAddress([2, 0, 0, 0, 0, 1]),
        MacAddress([2, 0, 0, 0, 0, 2]),
        EtherType::Ipv6,
    )
    .unwrap();
    let parsed = EthernetFrame::parse(&frame).unwrap();
    assert_eq!(parsed.destination().octets(), [2, 0, 0, 0, 0, 1]);
    assert_eq!(parsed.source().octets(), [2, 0, 0, 0, 0, 2]);
    assert_eq!(parsed.ether_type(), EtherType::Ipv6);
    assert_eq!(parsed.payload(), b"abcdef");
    assert_eq!(EtherType::from_raw(0x0806), EtherType::Arp);
    assert_eq!(EtherType::Ipv4.raw(), 0x0800);
    assert_eq!(MacAddress::broadcast().octets(), [0xff; 6]);
    assert_eq!(
        write_ethernet(
            &mut frame[..13],
            MacAddress([0; 6]),
            MacAddress([0; 6]),
            EtherType::Arp
        ),
        Err(PacketError::Truncated)
    );
}

#[test]
fn writes_ipv4_port_unreachable_with_udp_quote() {
    let source = v4([192, 0, 2, 2], 40000);
    let destination = v4([198, 51, 100, 7], 9);
    let mut bytes = [0u8; 128];
    let length = write_udp_error(
        &mut bytes,
        source,
        destination,
        b"abcdefghijk",
        11,
        UdpError::DestinationUnreachable { code: 3 },
    )
    .unwrap();
    let packet = Ipv4Packet::parse(&bytes[..length]).unwrap();
    assert_eq!(packet.source(), [198, 51, 100, 7]);
    assert_eq!(packet.destination(), [192, 0, 2, 2]);
    assert_eq!(packet.protocol(), IPPROTO_ICMP);
    let icmp = packet.payload();
    assert_eq!(&icmp[..2], &[3, 3]);
    assert_eq!(checksum::checksum(icmp), 0);
    let quote = &icmp[8..];
    assert_eq!(&quote[12..16], &[192, 0, 2, 2]);
    assert_eq!(&quote[20..22], &40000u16.to_be_bytes());
    assert_eq!(&quote[22..24], &9u16.to_be_bytes());
    assert_eq!(&quote[28..], b"abcdefgh");
}

#[test]
fn writes_ipv6_packet_too_big_with_valid_checksum() {
    let source = v6(synthetic(2), 50000);
    let destination = v6(documentation(7), 443);
    let mut bytes = [0u8; 256];
    let length = write_udp_error(
        &mut bytes,
        source,
        destination,
        b"payload-prefix",
        1400,
        UdpError::PacketTooBig { mtu: 1280 },
    )
    .unwrap();
    let packet = Ipv6Packet::parse(&bytes[..length]).unwrap();
    assert_eq!(packet.next_header(), IPPROTO_ICMPV6);
    let icmp = packet.payload();
    assert_eq!(icmp[0], 2);
    assert_eq!(&icmp[4..8], &1280u32.to_be_bytes());
    assert_eq!(
        checksum::ipv6_transport(packet.source(), packet.destination(), IPPROTO_ICMPV6, icmp),
        0
    );
    let quote = &icmp[8..];
    assert_eq!(&quote[8..24], &synthetic(2));
    assert_eq!(&quote[40..42], &50000u16.to_be_bytes());
    assert_eq!(&quote[48..], b"payload-prefix");
}

#[test]
fn rejects_mixed_address_families() {
    let mut bytes = [0u8; 128];
    assert_eq!(
        write_udp_error(
            &mut bytes,
            v4([192, 0, 2, 2], 1),
            v6(documentation(1), 2),
            &[],
            0,
            UdpError::DestinationUnreachable { code: 3 },
        ),
        Err(PacketError::ProtocolMismatch)
    );
}

#[test]
fn ipv4_packet_too_big_caps_the_mtu() {
    let mut bytes = [0u8; 128];
    let length = write_udp_error(
        &mut bytes,
        v4([192, 0, 2, 2], 40000),
        v4([198, 51, 100, 7], 9),
        b"",
        0,
        UdpError::PacketTooBig { mtu: 70000 },
    )
    .unwrap();
    let packet = Ipv4Packet::parse(&bytes[..length]).unwrap();
    assert_eq!(&packet.payload()[..2], &[3, 4]);
    assert_eq!(&packet.payload()[6..8], &[0xff, 0xff]);
}

#[test]
fn rejects_ipv4_bad_checksum() {
    let mut packet = [0u8; 20];
    write_ipv4_header(&mut packet, [192, 0, 2, 1], [192, 0, 2, 2], 6, 0, 1).unwrap();
    packet[8] ^= 1;
    assert_eq!(
        Ipv4Packet::parse(&packet).unwrap_err(),
        PacketError::InvalidChecksum
    );
}

#[test]
fn rejects_ipv6_fragment_header() {
    let mut packet = [0u8; 48];
    write_ipv6_header(&mut packet, [0; 16], [1; 16], 44, 8).unwrap();
    assert_eq!(
        Ipv6Packet::parse(&packet).unwrap_err(),
        PacketError::Unsupported
    );
}

#[test]
fn ip_headers_read_back() {
    let mut packet = [0u8; 25];
    packet[20..].copy_from_slice(b"hello");
    assert_eq!(
        write_ipv4_header(&mut packet, [192, 0, 2, 1], [192, 0, 2, 2], IPPROTO_TCP, 5, 9),
        Ok(20)
    );
    let parsed = Ipv4Packet::parse(&packet).unwrap();
    assert_eq!(parsed.source(), [192, 0, 2, 1]);
    assert_eq!(parsed.destination(), [192, 0, 2, 2]);
    assert_eq!(parsed.protocol(), IPPROTO_TCP);
    assert_eq!(parsed.payload(), b"hello");
    assert_eq!(
        Ipv4Packet::parse(&packet[..19]).unwrap_err(),
        PacketError::Truncated
    );

    let mut packet = [0u8; 45];
    packet[40..].copy_from_slice(b"world");
    assert_eq!(
        write_ipv6_header(&mut packet, synthetic(1), synthetic(2), IPPROTO_UDP, 5),
        Ok(40)
    );
    let parsed = Ipv6Packet::parse(&packet).unwrap();
    assert_eq!(parsed.source(), synthetic(1));
    assert_eq!(parsed.destination(), synthetic(2));
    assert_eq!(parsed.next_header(), IPPROTO_UDP);
    assert_eq!(parsed.payload(), b"world");
    assert_eq!(
        write_ipv6_header(&mut packet[..39], synthetic(1), synthetic(2), IPPROTO_UDP, 0),
        Err(PacketError::InvalidLength)
    );
}

#[test]
fn advertisement_uses_required_hop_limit_and_checksum() {
    let gateway_ip = synthetic(1);
    let target_ip = synthetic(2);
    let mut frame = [0u8; 128];
    let length = write_neighbor_advertisement(
        &mut frame,
        MacAddress([2, 1, 2, 3, 4, 1]),
        MacAddress([2, 1, 2, 3, 4, 2]),
        gateway_ip,
        target_ip,
    )
    .unwrap();
    let ethernet = EthernetFrame::parse(&frame[..length]).unwrap();
    assert_eq!(ethernet.payload()[7], 255);
    let ipv6 = Ipv6Packet::parse(ethernet.payload()).unwrap();
    assert_eq!(
        checksum::ipv6_transport(gateway_ip, target_ip, 58, ipv6.payload()),
        0
    );
}

#[test]
fn arp_requests_are_answered() {
    let mut request = [0u8; ARP_PACKET_LEN];
    request[..8].copy_from_slice(&[0, 1, 8, 0, 6, 4, 0, 1]);
    request[8..14].copy_from_slice(&[2, 0, 0, 0, 0, 9]);
    request[14..18].copy_from_slice(&[10, 0, 0, 2]);
    request[24..28].copy_from_slice(&[10, 0, 0, 1]);
    let parsed = parse_arp_request(&request).unwrap();
    let mut out = [0u8; 64];
    let length =
        write_arp_reply(&mut out, MacAddress([2, 0, 0, 0, 0, 1]), [10, 0, 0, 1], parsed).unwrap();
    assert_eq!(length, 14 + ARP_PACKET_LEN);
    let ethernet = EthernetFrame::parse(&out[..length]).unwrap();
    assert_eq!(ethernet.destination().octets(), [2, 0, 0, 0, 0, 9]);
    assert_eq!(&ethernet.payload()[6..8], &[0, 2]);
    assert_eq!(&ethernet.payload()[14..18], &[10, 0, 0, 1]);
    assert_eq!(&ethernet.payload()[24..28], &[10, 0, 0, 2]);
    request[7] = 2;
    assert!(parse_arp_request(&request).is_err());
    assert_eq!(
        parse_arp_request(&request[..27]).unwrap_err(),
        PacketError::Truncated
    );
}

#[test]
fn solicitations_name_their_target() {
    assert_eq!(
        solicited_node_multicast(synthetic(1)),
        [0xff, 2, 0, 0, 0, 0, 0, 0, 0, 0, 0, 1, 0xff, 0, 0, 1]
    );
    let mut packet = [0u8; 64];
    packet[40] = 135;
    packet[48..64].copy_from_slice(&synthetic(1));
    write_ipv6_header(&mut packet, synthetic(2), synthetic(1), IPPROTO_ICMPV6, 24).unwrap();
    packet[7] = 255;
    let check = checksum::ipv6_transport(synthetic(2), synthetic(1), IPPROTO_ICMPV6, &packet[40..]);
    packet[42..44].copy_from_slice(&check.to_be_bytes());
    let parsed = Ipv6Packet::parse(&packet).unwrap();
    assert_eq!(parse_neighbor_solicitation(parsed), Ok(synthetic(1)));
    packet[42] ^= 1;
    let parsed = Ipv6Packet::parse(&packet).unwrap();
    assert!(parse_neighbor_solicitation(parsed).is_err());
}

fn spec(mss: Option<u16>, window_scale: Option<u8>) -> TcpHeaderSpec {
    TcpHeaderSpec {
        source_port: 1000,
        destination_port: 2000,
        sequence: 7,
        acknowledgment: 9,
        flags: TcpFlags {
            syn: true,
            ack: true,
            ..TcpFlags::default()
        },
        window: 4096,
        mss,
        window_scale,
    }
}

#[test]
fn header_roundtrip_parses_mss_and_window_scale() {
    let mut bytes = [0u8; 64];
    let length = tcp::write_header(&mut bytes, spec(Some(1460), Some(7))).expect("write");
    assert_eq!(length, 28);
    let segment = TcpSegment::parse(&bytes[..length]).expect("parse");
    assert_eq!(segment.mss(), Some(1460));
    assert_eq!(segment.window_scale(), Some(7));
    assert_eq!(segment.window(), 4096);
}

#[test]
fn header_without_window_scale_omits_option() {
    let mut bytes = [0u8; 64];
    let length = tcp::write_header(&mut bytes, spec(Some(1460), None)).expect("write");
    assert_eq!(length, 24);
    let segment = TcpSegment::parse(&bytes[..length]).expect("parse");
    assert_eq!(segment.mss(), Some(1460));
    assert_eq!(segment.window_scale(), None);
}

#[test]
fn window_scale_without_mss_parses() {
    let mut bytes = [0u8; 64];
    let length = tcp::write_header(&mut bytes, spec(None, Some(2))).expect("write");
    assert_eq!(length, 24);
    let segment = TcpSegment::parse(&bytes[..length]).expect("parse");
    assert_eq!(segment.mss(), None);
    assert_eq!(segment.window_scale(), Some(2));
}

#[test]
fn malformed_option_length_is_rejected() {
    let mut bytes = [0u8; 24];
    tcp::write_header(&mut bytes, spec(None, None)).expect("write");
    bytes[12] = (24u8 / 4) << 4;
    bytes[20] = 3;
    bytes[21] = 1;
    let segment = TcpSegment::parse(&bytes[..24]).expect("parse");
    assert_eq!(segment.window_scale(), None);
}

#[test]
fn tcp_segment_reads_back_with_its_checksum() {
    let mut packet = [0u8; 64];
    let length = tcp::write_header(&mut packet[20..], spec(None, None)).unwrap();
    assert_eq!(length, 20);
    packet[40..45].copy_from_slice(b"bytes");
    tcp::set_ipv4_checksum(&mut packet[20..45], [192, 0, 2, 1], [192, 0, 2, 2]).unwrap();
    write_ipv4_header(&mut packet, [192, 0, 2, 1], [192, 0, 2, 2], IPPROTO_TCP, 25, 0).unwrap();
    let segment = TcpSegment::parse_ipv4(Ipv4Packet::parse(&packet[..45]).unwrap()).unwrap();
    assert_eq!(segment.source_port(), 1000);
    assert_eq!(segment.destination_port(), 2000);
    assert_eq!(segment.sequence(), 7);
    assert_eq!(segment.acknowledgment(), 9);
    assert!(segment.flags().syn && segment.flags().ack && !segment.flags().fin);
    assert_eq!(segment.payload(), b"bytes");
    packet[41] ^= 1;
    assert_eq!(
        TcpSegment::parse_ipv4(Ipv4Packet::parse(&packet[..45]).unwrap()).unwrap_err(),
        PacketError::InvalidChecksum
    );
    assert_eq!(TcpSegment::parse(&packet[20..39]).unwrap_err(), PacketError::Truncated);
}

fn ipv4_packet(buffer: &mut [u8], payload_len: usize) -> Ipv4Packet<'_> {
    write_ipv4_header(
        buffer,
        [192, 0, 2, 2],
        [192, 0, 2, 1],
        IPPROTO_UDP,
        payload_len,
        0,
    )
    .unwrap();
    Ipv4Packet::parse(&buffer[..20 + payload_len]).unwrap()
}

#[test]
fn round_trips_an_ipv4_datagram_with_checksum() {
    let mut buffer = [0u8; 64];
    buffer[20 + UDP_HEADER_LEN..20 + UDP_HEADER_LEN + 5].copy_from_slice(b"query");
    udp::write_header(&mut buffer[20..], 4321, 53, 5).unwrap();
    let end = 20 + UDP_HEADER_LEN + 5;
    udp::set_ipv4_checksum(&mut buffer[20..end], [192, 0, 2, 2], [192, 0, 2, 1]).unwrap();
    let packet = ipv4_packet(&mut buffer, UDP_HEADER_LEN + 5);
    let datagram = UdpDatagram::parse_ipv4(packet, true).unwrap();
    assert_eq!(datagram.source_port(), 4321);
    assert_eq!(datagram.destination_port(), 53);
    assert_eq!(datagram.payload(), b"query");
}

#[test]
fn rejects_a_corrupted_ipv4_checksum() {
    let mut buffer = [0u8; 64];
    buffer[20 + UDP_HEADER_LEN..20 + UDP_HEADER_LEN + 5].copy_from_slice(b"query");
    udp::write_header(&mut buffer[20..], 4321, 53, 5).unwrap();
    let end = 20 + UDP_HEADER_LEN + 5;
    udp::set_ipv4_checksum(&mut buffer[20..end], [192, 0, 2, 2], [192, 0, 2, 1]).unwrap();
    buffer[20 + UDP_HEADER_LEN] ^= 0x01;
    let packet = ipv4_packet(&mut buffer, UDP_HEADER_LEN + 5);
    assert_eq!(
        UdpDatagram::parse_ipv4(packet, true).unwrap_err(),
        PacketError::InvalidChecksum
    );
}

#[test]
fn accepts_an_absent_ipv4_checksum_but_not_ipv6() {
    let mut buffer = [0u8; 64];
    udp::write_header(&mut buffer[20..], 4321, 53, 0).unwrap();
    let packet = ipv4_packet(&mut buffer, UDP_HEADER_LEN);
    assert!(UdpDatagram::parse_ipv4(packet, true).is_ok());

    let mut v6 = [0u8; 64];
    write_ipv6_header(
        &mut v6,
        documentation(2),
        documentation(1),
        IPPROTO_UDP,
        UDP_HEADER_LEN,
    )
    .unwrap();
    udp::write_header(&mut v6[40..], 4321, 53, 0).unwrap();
    let packet = Ipv6Packet::parse(&v6[..40 + UDP_HEADER_LEN]).unwrap();
    assert_eq!(
        UdpDatagram::parse_ipv6(packet, true).unwrap_err(),
        PacketError::InvalidChecksum
    );
}

#[test]
fn truncated_length_field_is_rejected() {
    let mut buffer = [0u8; 64];
    udp::write_header(&mut buffer[20..], 4321, 53, 5).unwrap();
    buffer[20 + 4..20 + 6].copy_from_slice(&100u16.to_be_bytes());
    let packet = ipv4_packet(&mut buffer, UDP_HEADER_LEN + 5);
    assert_eq!(
        UdpDatagram::parse_ipv4(packet, false).unwrap_err(),
        PacketError::InvalidLength
    );
}

#[test]
fn header_survives_a_write_parse_round_trip() {
    let header = VnetHeader {
        flags: FLAG_NEEDS_CSUM,
        gso_type: GSO_TCPV4,
        hdr_len: 54,
        gso_size: 1460,
        csum_start: 34,
        csum_offset: 16,
    };
    let mut bytes = [0u8; VNET_HEADER_LEN];
    header.write(&mut bytes).unwrap();
    assert_eq!(VnetHeader::parse(&bytes).unwrap(), header);
    assert_eq!(&bytes[2..4], &54u16.to_ne_bytes());
}

#[test]
fn short_buffers_are_rejected() {
    let bytes = [0u8; VNET_HEADER_LEN - 1];
    assert_eq!(VnetHeader::parse(&bytes), Err(PacketError::Truncated));
    let mut out = [0u8; VNET_HEADER_LEN - 1];
    assert_eq!(
        VnetHeader::default().write(&mut out),
        Err(PacketError::Truncated)
    );
}

#[test]
fn plain_frames_allow_only_verified_checksums() {
    assert!(VnetHeader::default().is_plain());
    assert!(
        VnetHeader {
            flags: FLAG_DATA_VALID,
            ..VnetHeader::default()
        }
        .is_plain()
    );
    assert!(
        !VnetHeader {
            flags: FLAG_NEEDS_CSUM,
            ..VnetHeader::default()
        }
        .is_plain()
    );
    assert!(
        !VnetHeader {
            gso_type: GSO_TCPV6,
            ..VnetHeader::default()
        }
        .is_plain()
    );
}
