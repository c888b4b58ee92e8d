use yayatht::dataplane::dns::{Engine, QUERY_TIMEOUT};
use yayatht::dataplane::flow_table::{EpollToken, FlowId, Resource};
use yayatht::dataplane::reactor::admission::{
    Admission, choose_sequence, decide_admission, dns_intercepts, initial_sequence, negotiate,
    proxy_handshake, route_target,
};
use yayatht::dataplane::reactor::answer::{
    DnsReplyOutcome, queue_dns_reply, refuse_dns, send_arp_reply, send_neighbor_advertisement,
    send_reset,
};
use yayatht::dataplane::reactor::config::{Config, Upstream};
use yayatht::dataplane::reactor::dns_link::{
    DNS_IDLE_TIMEOUT, DNS_WRITE_BUFFER_LIMIT, DnsAction, DnsAnswer, DnsExchange,
    DnsHandshakeStep, DnsLink, DnsStage, DnsState, DnsStep, Forwarded, dns_frame_limit, dns_route,
    drive_dns_handshake, forward_dns_query, handle_dns_stage, handle_udp, settle_dns_output,
    settle_dns_write, take_dns_answer, take_dns_response,
};
use yayatht::dataplane::reactor::entry::{
    Arrival, FlowEntry, FlushStep, Reaction, SegmentFields, SynAction, accept_segment, reaction,
    receive_segment, settle_acknowledgment, settle_flush, submit_namespace_payload, syn_action,
    take_namespace_fin, take_pending_shutdown,
};
use yayatht::dataplane::reactor::events::{
    Dispatch, SocketAction, SocketFacts, Stage, dispatch, handle_socket_stage, keeps_running,
};
use yayatht::dataplane::reactor::flows::Flows;
use yayatht::dataplane::reactor::forward::{
    PeekedFrame, Resend, Resent, begin_retransmit, forward_peeked, prepare_peek,
    retransmit_peeked, settle_peek,
};
use yayatht::dataplane::reactor::frame::{Error, Link};
use yayatht::dataplane::reactor::ingress::{Gateways, Ingress, handle_frame};
use yayatht::dataplane::reactor::interest::tap_interest;
use yayatht::dataplane::reactor::ledger::Ledger;
use yayatht::dataplane::reactor::metrics::Metrics;
use yayatht::dataplane::reactor::opening::{Candidate, Opening, open_flow};
use yayatht::dataplane::reactor::pools::Pools;
use yayatht::dataplane::reactor::proxy::{
    InputStep, OutputStep, SendOutcome, advance_proxy_output, finish_transport_connect,
    receive_proxy_input, settle_proxy_input,
};
use yayatht::dataplane::reactor::recovery::{
    RetransmitRequest, TimerAction, plan_probe, probe_due, record_probe, record_retransmit,
    retransmit_payload, retransmit_request, tick_visits, timer_action, timer_round,
    watchdog_after_refresh, watchdog_after_second_look, watchdog_looks,
};
use yayatht::dataplane::reactor::segment::retained_payload;
use yayatht::dataplane::reactor::send::{
    Peeked, ReadDecision, classify_peek, peek_room, plan_data, plan_fin, plan_peek,
    plan_socket_read,
};
use yayatht::dataplane::reactor::sending::{
    payload_flags, send_ack, send_fin, send_payload_frame, send_probe, send_reset_for_flow,
    send_syn_ack,
};
use yayatht::dataplane::reactor::setup::plan_sizes;
use yayatht::dataplane::reactor::tap::{
    InjectedDrops, Offer, QueuedFrame, Settled, TapOutput, WriteOutcome, commit_tap_send,
};
use yayatht::dataplane::reactor::window::{
    PressureStep, apply_pressure, refresh_upstream_ack, take_pressure_change,
    update_namespace_window,
};
use yayatht::net::{IpAddress, SocketAddress};
use yayatht::packet::PacketError;
use yayatht::packet::ethernet::{self, EtherType, EthernetFrame, MacAddress};
use yayatht::packet::ip::{self, Ipv4Packet};
use yayatht::packet::neighbor::ArpRequest;
use yayatht::packet::tcp::{self, TcpFlags, TcpHeaderSpec, TcpSegment};
use yayatht::proxy_proto::{Credentials, Protocol};
use yayatht::sys::reactor::{ERROR, READABLE, WRITABLE};
use yayatht::sys::socket::TxTimestampDrain;
use yayatht::tcp_adapter::flow::{FlowInterface, FlowKey, ReceiveDisposition, State};
use yayatht::time::SECOND;

const NOW: u64 = 5_000 * SECOND;
const TARGET_MAC: MacAddress = MacAddress([2, 0, 0, 0, 0, 2]);
const GATEWAY_MAC: MacAddress = MacAddress([2, 0, 0, 0, 0, 1]);
const NAMESPACE_IP: [u8; 4] = [192, 0, 2, 2];
const GATEWAY_IP: [u8; 4] = [192, 0, 2, 1];

fn v4(octets: [u8; 4], port: u16) -> SocketAddress {
    SocketAddress::new(IpAddress::V4(octets), port)
}

fn config() -> Config {
    Config {
        target_mac: TARGET_MAC,
        gateway_mac: GATEWAY_MAC,
        target_ipv4: Some(NAMESPACE_IP),
        gateway_ipv4: Some(GATEWAY_IP),
        target_ipv6: None,
        gateway_ipv6: None,
        tap_mtu: 1500,
        tap_offload: false,
        upstream: Upstream::Direct {
            host_loopback: false,
        },
        dns_proxy_tcp: true,
        dns_upstream: None,
        max_tcp_flows: 2,
        max_pending_tcp_bytes: 65_536,
        max_retained_tcp_bytes: 65_536,
        tcp_receive_buffer_bytes: 65_536,
        tcp_send_buffer_bytes: 65_536,
    }
}

fn socks_config() -> Config {
    Config {
        upstream: Upstream::Proxy {
            protocol: Protocol::Socks5,
            address: v4([127, 0, 0, 1], 1080),
            credentials: None,
        },
        ..config()
    }
}

fn link() -> Link {
    Link {
        target_mac: TARGET_MAC,
        gateway_mac: GATEWAY_MAC,
        offload: false,
    }
}

fn no_drops() -> InjectedDrops {
    InjectedDrops {
        syn_ack: 0,
        fin: 0,
        data: 0,
        ack: 0,
    }
}

fn key() -> FlowKey {
    FlowKey {
        namespace: v4(NAMESPACE_IP, 40_000),
        target: v4([198, 51, 100, 7], 80),
    }
}

fn tcp_frame(flags: TcpFlags, sequence: u32, acknowledgment: u32, payload: &[u8]) -> Vec<u8> {
    let mut frame = vec![0u8; 14 + 20 + 20 + payload.len()];
    ethernet::write_header(&mut frame, GATEWAY_MAC, TARGET_MAC, EtherType::Ipv4).unwrap();
    ip::write_ipv4_header(
        &mut frame[14..],
        NAMESPACE_IP,
        [198, 51, 100, 7],
        ip::IPPROTO_TCP,
        20 + payload.len(),
        0,
    )
    .unwrap();
    frame[54..].copy_from_slice(payload);
    tcp::write_header(
        &mut frame[34..],
        TcpHeaderSpec {
            source_port: 40_000,
            destination_port: 80,
            sequence,
            acknowledgment,
            flags,
            window: 4_096,
            mss: None,
            window_scale: None,
        },
    )
    .unwrap();
    tcp::set_ipv4_checksum(&mut frame[34..], NAMESPACE_IP, [198, 51, 100, 7]).unwrap();
    frame
}

fn flags(syn: bool, ack: bool) -> TcpFlags {
    TcpFlags {
        fin: false,
        syn,
        rst: false,
        psh: false,
        ack,
    }
}

struct Plane {
    config: Config,
    flows: Flows,
    output: TapOutput,
    ledger: Ledger,
}

fn plane_with(config: Config, frames: usize) -> Plane {
    let metrics = Metrics::default();
    Plane {
        flows: Flows::new(config.max_tcp_flows),
        output: TapOutput::new(Pools::new(frames, 1514, 0, 1514), no_drops()),
        ledger: Ledger::new(
            config.max_pending_tcp_bytes,
            config.max_retained_tcp_bytes,
            metrics,
        ),
        config,
    }
}

fn candidate() -> Candidate {
    Candidate {
        key: key(),
        sequence: 1_000,
        mss: Some(1_200),
        window_scale: None,
        logical_target: key().target,
        interface: FlowInterface::HostSocket,
        transport_peer: key().target,
        local_endpoint: v4([10, 0, 0, 1], 50_000),
        receive_buffer_bytes: 65_536,
        send_buffer_bytes: 65_536,
        local_initial: 7_000,
    }
}

fn open(plane: &mut Plane) -> FlowId {
    let opening = open_flow(
        &mut plane.flows,
        &mut plane.ledger,
        &mut plane.output,
        &plane.config,
        &link(),
        candidate(),
    )
    .unwrap();
    match opening {
        Opening::Opened { id, .. } => {
            plane
                .flows
                .activate(id, &mut plane.ledger.metrics)
                .unwrap();
            id
        }
        Opening::Refused(_) => panic!("flow was refused"),
    }
}

fn written(plane: &mut Plane, offer: Offer) -> Vec<u8> {
    let queued: QueuedFrame = match offer {
        Offer::Write(queued) => queued,
        _ => panic!("frame was not to be written"),
    };
    let bytes = queued.frame.buffer.bytes().to_vec();
    let settled =
        plane
            .output
            .settle_write(&mut plane.ledger, queued, WriteOutcome::Complete, false);
    match settled {
        Settled::Sent(queued) => {
            if let (Some(id), Some(plan)) = (queued.flow, queued.plan) {
                commit_tap_send(plane.flows.get_mut(id).unwrap(), plan, NOW).unwrap();
            }
            plane.output.release(queued.frame);
        }
        _ => panic!("frame was not sent"),
    }
    bytes
}

fn sent_segment(bytes: &[u8]) -> TcpSegment<'_> {
    let frame = EthernetFrame::parse(bytes).unwrap();
    assert_eq!(frame.source(), GATEWAY_MAC);
    assert_eq!(frame.destination(), TARGET_MAC);
    TcpSegment::parse_ipv4(Ipv4Packet::parse(frame.payload()).unwrap()).unwrap()
}

fn establish(plane: &mut Plane) -> FlowId {
    let id = open(plane);
    finish_transport_connect(plane.flows.get_mut(id).unwrap());
    let offer = send_syn_ack(
        &mut plane.output,
        &mut plane.ledger,
        &link(),
        plane.flows.get_mut(id).unwrap(),
        id,
        0,
    )
    .unwrap();
    written(plane, offer);
    let entry = plane.flows.get_mut(id).unwrap();
    let plan = receive_segment(
        entry,
        &mut plane.ledger.metrics,
        fields(1_001, Some(7_001), 4_096, 0, false),
        NOW,
    );
    settle_acknowledgment(entry, &mut plane.ledger, plan, 0).unwrap();
    assert_eq!(entry.flow.state(), State::Established);
    id
}

fn fields(
    sequence: u32,
    acknowledgment: Option<u32>,
    window: u16,
    payload_len: usize,
    fin: bool,
) -> SegmentFields {
    SegmentFields {
        sequence,
        acknowledgment,
        window,
        payload_len,
        fin,
        rst: false,
    }
}

fn send_payload(plane: &mut Plane, id: FlowId, payload: &[u8]) -> Vec<u8> {
    let mut frame = plane.output.acquire(0, &mut plane.ledger.metrics).unwrap();
    frame.buffer.writable()[54..54 + payload.len()].copy_from_slice(payload);
    let entry = plane.flows.get_mut(id).unwrap();
    let plan = plan_data(entry, false, payload.len(), payload[payload.len() - 1]).unwrap();
    let offer = send_payload_frame(
        &mut plane.output,
        &mut plane.ledger,
        &link(),
        plane.flows.get(id).unwrap(),
        id,
        frame,
        plan,
        payload_flags(),
        Some(plan),
    )
    .unwrap();
    written(plane, offer)
}

#[test]
fn namespace_syn_is_read_and_admitted() {
    let mut metrics = Metrics::default();
    let frame = tcp_frame(flags(true, false), 1_000, 0, &[]);
    let gateways = Gateways {
        ipv4: Some(GATEWAY_IP),
        ipv6: None,
    };
    match handle_frame(&gateways, false, &frame, &mut metrics).unwrap() {
        Ingress::Tcp { key: read, segment } => {
            assert!(read == key());
            assert_eq!(segment.sequence(), 1_000);
            match decide_admission(&config(), read, segment.flags()) {
                Admission::Connect {
                    logical_target,
                    interface,
                    transport_peer,
                } => {
                    assert!(logical_target == key().target);
                    assert!(transport_peer == key().target);
                    assert_eq!(interface, FlowInterface::HostSocket);
                }
                _ => panic!("SYN was not admitted"),
            }
        }
        _ => panic!("frame is no TCP segment"),
    }
    let acknowledgment = decide_admission(&config(), key(), flags(false, true));
    assert!(matches!(acknowledgment, Admission::Ignore));
}

#[test]
fn damaged_segment_is_dropped() {
    let mut metrics = Metrics::default();
    let mut frame = tcp_frame(flags(true, false), 1_000, 0, &[]);
    frame[40] ^= 1;
    let gateways = Gateways {
        ipv4: Some(GATEWAY_IP),
        ipv6: None,
    };
    let result = handle_frame(&gateways, false, &frame, &mut metrics);
    assert!(matches!(
        result,
        Err(Error::Packet(PacketError::InvalidChecksum))
    ));
}

#[test]
fn gateway_dns_goes_to_the_resolver_or_nowhere() {
    let dns = FlowKey {
        namespace: v4(NAMESPACE_IP, 40_000),
        target: v4(GATEWAY_IP, 53),
    };
    assert!(dns_intercepts(&config(), dns.target));
    assert!(!dns_intercepts(&config(), v4(GATEWAY_IP, 54)));
    let syn = flags(true, false);
    assert!(matches!(
        decide_admission(&config(), dns, syn),
        Admission::RefuseDns
    ));
    let resolver = v4([9, 9, 9, 9], 53);
    let mut with_resolver = config();
    with_resolver.dns_upstream = Some(resolver);
    match decide_admission(&with_resolver, dns, syn) {
        Admission::Connect {
            logical_target,
            transport_peer,
            ..
        } => {
            assert!(logical_target == resolver);
            assert!(transport_peer == resolver);
        }
        _ => panic!("DNS was not admitted"),
    }
}

#[test]
fn routes_follow_the_upstream() {
    let mut loopback = config();
    loopback.upstream = Upstream::Direct {
        host_loopback: true,
    };
    let (interface, peer) = route_target(&loopback, v4(GATEWAY_IP, 8_080));
    assert_eq!(interface, FlowInterface::HostSocket);
    assert!(peer == v4([127, 0, 0, 1], 8_080));
    let (interface, peer) = route_target(&socks_config(), key().target);
    assert_eq!(interface, FlowInterface::ProxyTunnel);
    assert!(peer == v4([127, 0, 0, 1], 1080));
    assert!(proxy_handshake(&config(), key().target).is_none());
    assert!(proxy_handshake(&socks_config(), key().target).is_some());
}

#[test]
fn syn_options_are_negotiated() {
    let small = negotiate(1500, true, Some(500), Some(20));
    assert_eq!(small.mss, 1460);
    assert_eq!(small.peer_window_shift, 14);
    assert_eq!(small.local_window_shift, 7);
    let plain = negotiate(1500, false, Some(1_200), None);
    assert_eq!(plain.mss, 1_200);
    assert_eq!(plain.peer_window_shift, 0);
    assert_eq!(plain.local_window_shift, 0);
    assert_eq!(negotiate(1500, false, Some(9_000), None).mss, 1440);
}

#[test]
fn initial_sequence_is_fixed_or_random() {
    assert_eq!(initial_sequence(Some(42)), Some(42));
    let drawn: Vec<u32> = (0..8).map(|_| initial_sequence(None).unwrap()).collect();
    assert!(drawn.iter().any(|value| *value != drawn[0]));
}

#[test]
fn sequence_is_chosen_from_what_was_drawn() {
    let octets = [1, 2, 3, 4];
    let drawn = u32::from_ne_bytes(octets);
    assert_eq!(choose_sequence(None, Some(octets)), Some(drawn));
    assert_eq!(choose_sequence(Some(42), Some(octets)), Some(42));
    assert_eq!(choose_sequence(None, None), None);
    assert_eq!(choose_sequence(Some(42), None), None);
}

#[test]
fn full_table_refuses_with_a_reset() {
    let mut plane = plane_with(config(), 4);
    plane.config.max_tcp_flows = 0;
    plane.flows = Flows::new(0);
    let opening = open_flow(
        &mut plane.flows,
        &mut plane.ledger,
        &mut plane.output,
        &plane.config,
        &link(),
        candidate(),
    )
    .unwrap();
    match opening {
        Opening::Refused(offer) => {
            let bytes = written(&mut plane, offer);
            let segment = sent_segment(&bytes);
            assert!(segment.flags().rst);
            assert_eq!(segment.acknowledgment(), 1_001);
        }
        Opening::Opened { .. } => panic!("flow was opened"),
    }
    assert_eq!(plane.ledger.metrics.tcp_resets, 1);
}

#[test]
fn opened_flow_is_known_and_counted() {
    let mut plane = plane_with(config(), 4);
    let id = open(&mut plane);
    assert!(plane.flows.find(key()) == Some(id));
    assert_eq!(plane.ledger.metrics.active_tcp_flows, 1);
    assert_eq!(plane.ledger.metrics.tcp_created, 1);
    assert_eq!(plane.ledger.metrics.socket_send_buffer_bytes, 65_536);
    let entry = plane.flows.get(id).unwrap();
    assert_eq!(entry.flow.state(), State::Connecting);
    assert_eq!(entry.flow.mss(), 1_200);
    assert_eq!(entry.armed_socket_interest & WRITABLE, WRITABLE);
}

#[test]
fn syn_ack_answers_and_waits_for_its_acknowledgment() {
    let mut plane = plane_with(config(), 4);
    let id = open(&mut plane);
    let offer = send_syn_ack(
        &mut plane.output,
        &mut plane.ledger,
        &link(),
        plane.flows.get_mut(id).unwrap(),
        id,
        0,
    )
    .unwrap();
    let bytes = written(&mut plane, offer);
    let segment = sent_segment(&bytes);
    assert!(segment.flags().syn && segment.flags().ack);
    assert_eq!(segment.sequence(), 7_000);
    assert_eq!(segment.acknowledgment(), 1_001);
    assert_eq!(segment.mss(), Some(1_200));
    assert_eq!(segment.window(), 32_768);
    assert_eq!(plane.ledger.metrics.tap_tx_packets, 1);
    let entry = plane.flows.get(id).unwrap();
    assert_eq!(entry.sent_segments.len(), 1);
    assert_eq!(
        syn_action(entry.flow.state(), true, false),
        SynAction::RetransmitOldest
    );
    assert_eq!(syn_action(State::Connecting, true, false), SynAction::Wait);
    assert_eq!(syn_action(State::Established, true, false), SynAction::Receive);
}

#[test]
fn namespace_payload_waits_for_the_socket_in_order() {
    let mut plane = plane_with(config(), 4);
    let id = establish(&mut plane);
    let entry = plane.flows.get_mut(id).unwrap();
    let plan = receive_segment(
        entry,
        &mut plane.ledger.metrics,
        fields(1_001, Some(7_001), 4_096, 6, false),
        NOW,
    );
    assert_eq!(
        reaction(plan.disposition),
        Reaction::Deliver {
            payload: true,
            fin: false
        }
    );
    assert!(submit_namespace_payload(
        entry,
        &mut plane.ledger,
        b"abcdef",
        Some(2)
    ));
    assert_eq!(entry.pending_socket.front(), Some(&b"cdef"[..]));
    assert_eq!(plane.ledger.pending, 4);
    assert_eq!(entry.flow.upstream_unacked(), 2);
    assert!(submit_namespace_payload(entry, &mut plane.ledger, b"gh", None));
    assert_eq!(plane.ledger.pending, 6);
    let step = settle_flush(entry, &mut plane.ledger, SendOutcome::Sent(3));
    assert_eq!(step, FlushStep::Stop);
    assert_eq!(entry.pending_socket.front(), Some(&b"f"[..]));
    assert_eq!(plane.ledger.pending, 3);
    assert_eq!(entry.flow.upstream_unacked(), 5);
    assert_eq!(
        settle_flush(entry, &mut plane.ledger, SendOutcome::Sent(0)),
        FlushStep::Broken
    );
    assert_eq!(
        settle_flush(entry, &mut plane.ledger, SendOutcome::Failed),
        FlushStep::Failed
    );
    assert_eq!(plane.ledger.pending, 3);
}

#[test]
fn pending_limit_refuses_payload() {
    let mut small = config();
    small.max_pending_tcp_bytes = 4;
    let mut plane = plane_with(small, 4);
    let id = open(&mut plane);
    let entry = plane.flows.get_mut(id).unwrap();
    assert!(!submit_namespace_payload(
        entry,
        &mut plane.ledger,
        b"abcde",
        None
    ));
    assert_eq!(plane.ledger.metrics.pending_limit_hits, 1);
    assert_eq!(plane.ledger.pending, 0);
}

#[test]
fn what_the_socket_takes_does_not_wait() {
    let mut plane = plane_with(config(), 4);
    let id = establish(&mut plane);
    let entry = plane.flows.get_mut(id).unwrap();
    assert!(submit_namespace_payload(entry, &mut plane.ledger, b"abc", Some(1)));
    assert!(submit_namespace_payload(entry, &mut plane.ledger, b"de", None));
    assert_eq!(entry.flow.upstream_unacked(), 1);
    assert!(submit_namespace_payload(entry, &mut plane.ledger, b"fgh", Some(2)));
    assert_eq!(entry.flow.upstream_unacked(), 3);
    assert_eq!(plane.ledger.pending, 5);
    assert_eq!(entry.pending_socket.front(), Some(&b"bc"[..]));
    assert_eq!(entry.pending_socket.consume(1), 1);
    assert_eq!(entry.pending_socket.front(), Some(&b"c"[..]));
    assert_eq!(entry.pending_socket.consume(9), 1);
    assert_eq!(entry.pending_socket.front(), Some(&b"de"[..]));
    assert_eq!(entry.pending_socket.consume(2), 2);
    assert_eq!(entry.pending_socket.front(), Some(&b"h"[..]));
    assert_eq!(entry.pending_socket.consume(1), 1);
    assert_eq!(entry.pending_socket.front(), None);
}

#[test]
fn namespace_fin_waits_for_queued_payload() {
    let mut plane = plane_with(config(), 4);
    let id = establish(&mut plane);
    let entry = plane.flows.get_mut(id).unwrap();
    assert!(submit_namespace_payload(entry, &mut plane.ledger, b"x", None));
    assert!(!take_namespace_fin(entry));
    assert!(!take_pending_shutdown(entry));
    settle_flush(entry, &mut plane.ledger, SendOutcome::Sent(1));
    assert!(take_pending_shutdown(entry));
    assert!(!take_pending_shutdown(entry));
    assert!(take_namespace_fin(entry));
}

#[test]
fn acknowledgment_frees_exactly_its_payload() {
    let mut plane = plane_with(config(), 4);
    let id = establish(&mut plane);
    let bytes = send_payload(&mut plane, id, b"hello world");
    assert_eq!(sent_segment(&bytes).payload(), b"hello world");
    assert_eq!(sent_segment(&bytes).sequence(), 7_001);
    assert!(sent_segment(&bytes).flags().psh);
    assert_eq!(plane.ledger.retained, 11);
    let entry = plane.flows.get_mut(id).unwrap();
    let plan = receive_segment(
        entry,
        &mut plane.ledger.metrics,
        fields(1_001, Some(7_006), 4_096, 0, false),
        NOW,
    );
    assert_eq!(plan.discard, 5);
    assert!(matches!(
        settle_acknowledgment(entry, &mut plane.ledger, plan, 4),
        Err(Error::Invariant("socket ACK consume length mismatch"))
    ));
    settle_acknowledgment(entry, &mut plane.ledger, plan, 5).unwrap();
    assert_eq!(plane.ledger.retained, 6);
    assert_eq!(retained_payload(&entry.sent_segments), 6);
    assert_eq!(entry.sent_segments[0].sequence, 7_006);
}

#[test]
fn foreign_segments_are_acknowledged_again_or_close() {
    assert_eq!(
        reaction(ReceiveDisposition::Duplicate),
        Reaction::Acknowledge
    );
    assert_eq!(
        reaction(ReceiveDisposition::OutOfOrder),
        Reaction::Acknowledge
    );
    assert_eq!(
        reaction(ReceiveDisposition::OutsideWindow),
        Reaction::Acknowledge
    );
    assert_eq!(reaction(ReceiveDisposition::Invalid), Reaction::Close);
    let mut plane = plane_with(config(), 4);
    let id = establish(&mut plane);
    let offer = send_ack(
        &mut plane.output,
        &mut plane.ledger,
        &link(),
        plane.flows.get(id).unwrap(),
    )
    .unwrap();
    match offer {
        Offer::Write(queued) => {
            let bytes = queued.frame.buffer.bytes().to_vec();
            let segment = sent_segment(&bytes);
            assert_eq!(segment.sequence(), 7_001);
            assert_eq!(segment.acknowledgment(), 1_001);
            assert!(queued.flow.is_none());
        }
        _ => panic!("acknowledgment was not to be written"),
    }
}

#[test]
fn reset_segment_changes_nothing_but_the_state() {
    let mut plane = plane_with(config(), 4);
    let id = establish(&mut plane);
    let entry = plane.flows.get_mut(id).unwrap();
    let mut reset = fields(1_001, None, 0, 0, false);
    reset.rst = true;
    let plan = receive_segment(entry, &mut plane.ledger.metrics, reset, NOW);
    assert_eq!(plan.disposition, ReceiveDisposition::Reset);
    assert_eq!(plan.clamp, None);
    assert_eq!(entry.flow.state(), State::Closed);
}

#[test]
fn closed_window_is_probed() {
    let mut plane = plane_with(config(), 4);
    let id = establish(&mut plane);
    let entry = plane.flows.get_mut(id).unwrap();
    let plan = receive_segment(
        entry,
        &mut plane.ledger.metrics,
        fields(1_001, Some(7_001), 0, 0, false),
        NOW,
    );
    assert_eq!(plan.clamp, Some(1));
    assert_eq!(plane.ledger.metrics.zero_window_flows, 1);
    assert!(!probe_due(entry, NOW));
    assert!(probe_due(entry, NOW + SECOND));
    let (plan, byte) = plan_probe(entry, b'z');
    assert_eq!(plan.sequence, 7_000);
    assert_eq!(plan.length, 1);
    assert_eq!(byte, b'z');
    let offer = send_probe(
        &mut plane.output,
        &mut plane.ledger,
        &link(),
        plane.flows.get(id).unwrap(),
        id,
        b'z',
    )
    .unwrap();
    let bytes = match offer {
        Offer::Write(queued) => queued.frame.buffer.bytes().to_vec(),
        _ => panic!("probe was not to be written"),
    };
    assert_eq!(sent_segment(&bytes).payload(), b"z");
    let entry = plane.flows.get_mut(id).unwrap();
    record_probe(entry, &mut plane.ledger.metrics, true, NOW + SECOND);
    assert_eq!(plane.ledger.metrics.tcp_zero_window_probes, 1);
    assert!(!probe_due(entry, NOW + 2 * SECOND));
    assert!(probe_due(entry, NOW + 3 * SECOND));
    receive_segment(
        entry,
        &mut plane.ledger.metrics,
        fields(1_001, Some(7_001), 100, 0, false),
        NOW,
    );
    assert_eq!(plane.ledger.metrics.zero_window_flows, 0);
    assert!(entry.zero_window_probe.is_none());
}

#[test]
fn reads_are_bounded_by_window_segment_and_budget() {
    let mut plane = plane_with(config(), 4);
    let id = establish(&mut plane);
    let decision = plan_socket_read(
        plane.flows.get(id).unwrap(),
        &mut plane.ledger,
        false,
        3,
        false,
    )
    .unwrap();
    assert_eq!(
        decision,
        ReadDecision::Read {
            offset: 0,
            limit: 1_200
        }
    );
    let decision = plan_socket_read(
        plane.flows.get(id).unwrap(),
        &mut plane.ledger,
        true,
        3,
        false,
    )
    .unwrap();
    assert_eq!(
        decision,
        ReadDecision::Read {
            offset: 0,
            limit: 4_096
        }
    );
    let waiting = plan_socket_read(
        plane.flows.get(id).unwrap(),
        &mut plane.ledger,
        false,
        3,
        true,
    )
    .unwrap();
    assert_eq!(waiting, ReadDecision::Stop);
    let dry = plan_socket_read(
        plane.flows.get(id).unwrap(),
        &mut plane.ledger,
        false,
        0,
        false,
    )
    .unwrap();
    assert_eq!(dry, ReadDecision::Stop);
    assert_eq!(plane.ledger.metrics.frame_pool_exhaustions, 1);
    plane.ledger.max_retained = 0;
    let full = plan_socket_read(
        plane.flows.get(id).unwrap(),
        &mut plane.ledger,
        false,
        3,
        false,
    )
    .unwrap();
    assert_eq!(full, ReadDecision::Stop);
    assert_eq!(plane.ledger.metrics.retained_limit_hits, 1);
}

#[test]
fn peeks_are_classified() {
    assert_eq!(classify_peek(0, Some(0)), Peeked::Eof);
    assert_eq!(classify_peek(10, Some(0)), Peeked::WouldBlock);
    assert_eq!(classify_peek(0, None), Peeked::WouldBlock);
    assert_eq!(classify_peek(3, Some(7)), Peeked::Data { length: 7 });
    assert_eq!(plan_peek(false, key(), 5, 100).unwrap(), (5, 154));
    assert_eq!(plan_peek(true, key(), 0, 100).unwrap(), (0, 164));
    assert!(plan_peek(false, key(), usize::MAX / 2, 1).is_err());
    assert_eq!(peek_room(1514, 54, 5_000), 1460);
    assert_eq!(peek_room(1514, 54, 10), 10);
    assert_eq!(peek_room(10, 54, 10), 0);
}

#[test]
fn upstream_end_is_told_with_a_fin() {
    let mut plane = plane_with(config(), 4);
    let id = establish(&mut plane);
    assert!(plan_fin(plane.flows.get(id).unwrap()).fin);
    let offer = send_fin(
        &mut plane.output,
        &mut plane.ledger,
        &link(),
        plane.flows.get(id).unwrap(),
        id,
    )
    .unwrap();
    let bytes = written(&mut plane, offer);
    assert!(sent_segment(&bytes).flags().fin);
    let entry = plane.flows.get(id).unwrap();
    assert_eq!(entry.flow.state(), State::SocketFinReceived);
    assert_eq!(entry.flow.local_next(), 7_002);
}

#[test]
fn overdue_segments_are_sent_again_and_given_up() {
    let mut plane = plane_with(config(), 4);
    let id = establish(&mut plane);
    send_payload(&mut plane, id, b"data");
    let entry = plane.flows.get_mut(id).unwrap();
    assert_eq!(timer_action(entry, NOW), TimerAction::Rest);
    assert_eq!(timer_action(entry, NOW + SECOND), TimerAction::Retransmit);
    match retransmit_request(entry, false).unwrap() {
        RetransmitRequest::Payload { length } => assert_eq!(length, 4),
        _ => panic!("payload was not requested"),
    }
    assert!(matches!(
        retransmit_request(entry, true).unwrap(),
        RetransmitRequest::Nothing
    ));
    let (plan, flags) = retransmit_payload(entry, Peeked::Data { length: 4 }, 1_460).unwrap();
    assert_eq!(plan.sequence, 7_001);
    assert_eq!(plan.length, 4);
    assert!(flags.psh && !flags.fin);
    let (plan, _) = retransmit_payload(entry, Peeked::Data { length: 3 }, 3).unwrap();
    assert_eq!(plan.length, 3);
    assert!(retransmit_payload(entry, Peeked::Data { length: 3 }, 1_460).is_err());
    assert!(retransmit_payload(entry, Peeked::Eof, 1_460).is_err());
    assert!(retransmit_payload(entry, Peeked::WouldBlock, 1_460).is_err());
    for _ in 0..5 {
        record_retransmit(entry, &mut plane.ledger.metrics, true, NOW).unwrap();
    }
    assert_eq!(plane.ledger.metrics.tcp_retransmits, 5);
    assert_eq!(timer_action(entry, NOW + 8 * SECOND), TimerAction::GiveUp);
    assert_eq!(timer_action(entry, NOW + 7 * SECOND), TimerAction::Rest);
}

#[test]
fn ticks_go_round_from_the_cursor() {
    let ids: Vec<FlowId> = [1, 4, 6]
        .iter()
        .map(|slot| FlowId {
            slot: *slot,
            generation: 1,
        })
        .collect();
    let slots = |order: Vec<FlowId>| order.iter().map(|id| id.slot).collect::<Vec<_>>();
    assert_eq!(slots(timer_round(&ids, 0)), vec![1, 4, 6]);
    assert_eq!(slots(timer_round(&ids, 4)), vec![4, 6, 1]);
    assert_eq!(slots(timer_round(&ids, 5)), vec![6, 1, 4]);
    assert_eq!(slots(timer_round(&ids, 7)), vec![1, 4, 6]);
    assert_eq!(slots(timer_round(&[], 7)), Vec::<u32>::new());
    let mut cursor = 0;
    let mut metrics = Metrics::default();
    assert!(tick_visits(&mut cursor, &mut metrics, ids[1], 1));
    assert_eq!(cursor, 0);
    assert!(!tick_visits(&mut cursor, &mut metrics, ids[1], 0));
    assert_eq!(cursor, 4);
    assert_eq!(metrics.frame_pool_exhaustions, 1);
}

#[test]
fn watchdog_counts_lost_notices() {
    let mut plane = plane_with(config(), 4);
    let id = establish(&mut plane);
    let entry = plane.flows.get_mut(id).unwrap();
    assert!(!watchdog_looks(entry, 1));
    assert!(submit_namespace_payload(
        entry,
        &mut plane.ledger,
        b"abc",
        Some(3)
    ));
    assert!(watchdog_looks(entry, 1));
    assert!(!watchdog_looks(entry, 0));
    let refresh = refresh_upstream_ack(entry, &plane.ledger, 3);
    assert!(refresh.advanced && refresh.send_ack);
    assert_eq!(entry.flow.namespace_ack(), 1_004);
    let metrics = &mut plane.ledger.metrics;
    assert!(!watchdog_after_refresh(entry, metrics, true, true));
    assert!(!watchdog_after_refresh(entry, metrics, false, false));
    assert!(watchdog_after_refresh(entry, metrics, false, true));
    assert_eq!(metrics.tx_ack_watchdog_advances, 2);
    let empty = TxTimestampDrain {
        acknowledgments: 0,
        foreign_errors: 0,
    };
    watchdog_after_second_look(metrics, empty);
    assert_eq!(metrics.tx_ack_watchdog_tail_recoveries, 1);
}

#[test]
fn window_follows_the_socket_and_the_pressure() {
    let mut plane = plane_with(config(), 4);
    let id = establish(&mut plane);
    let entry = plane.flows.get_mut(id).unwrap();
    assert!(!update_namespace_window(entry, &plane.ledger));
    assert_eq!(entry.flow.advertised_window(), 32_768);
    assert!(submit_namespace_payload(
        entry,
        &mut plane.ledger,
        &[0; 768],
        Some(768)
    ));
    assert!(update_namespace_window(entry, &plane.ledger));
    assert_eq!(entry.flow.advertised_window(), 32_000);
    assert!(!take_pressure_change(&mut plane.ledger));
    plane.ledger.pressured = true;
    plane.ledger.pressure_changed = true;
    assert!(take_pressure_change(&mut plane.ledger));
    assert_eq!(
        apply_pressure(entry, &mut plane.ledger, 0),
        PressureStep::Later
    );
    assert!(plane.ledger.pressure_changed);
    assert_eq!(
        apply_pressure(entry, &mut plane.ledger, 1),
        PressureStep::Acknowledge
    );
    assert_eq!(entry.flow.advertised_window(), 0);
    assert_eq!(
        apply_pressure(entry, &mut plane.ledger, 1),
        PressureStep::Nothing
    );
}

#[test]
fn frames_wait_behind_frames() {
    let mut plane = plane_with(config(), 4);
    let id = establish(&mut plane);
    let reset = |plane: &mut Plane| {
        send_reset(
            &mut plane.output,
            &mut plane.ledger,
            &link(),
            key(),
            1,
        )
        .unwrap()
    };
    let first = match reset(&mut plane) {
        Offer::Write(queued) => queued,
        _ => panic!("frame was not to be written"),
    };
    let settled =
        plane
            .output
            .settle_write(&mut plane.ledger, first, WriteOutcome::WouldBlock, false);
    assert!(matches!(settled, Settled::Queued));
    assert!(matches!(reset(&mut plane), Offer::Queued));
    assert_eq!(plane.output.queued(), 2);
    assert_eq!(plane.output.available(), 2);
    assert_eq!(
        tap_interest(plane.output.available(), plane.output.queued()),
        Some(READABLE | WRITABLE)
    );
    assert_eq!(tap_interest(0, 0), None);
    assert!(!plane.output.frame_waits(id));
    let next = plane.output.next_queued().unwrap();
    let settled = plane
        .output
        .settle_write(&mut plane.ledger, next, WriteOutcome::Short, true);
    assert!(matches!(settled, Settled::Short));
    assert_eq!(plane.output.queued(), 1);
    assert_eq!(plane.output.available(), 3);
}

#[test]
fn injected_loss_still_commits() {
    let mut plane = plane_with(config(), 4);
    plane.output = TapOutput::new(
        Pools::new(4, 1514, 0, 1514),
        InjectedDrops {
            syn_ack: 1,
            fin: 0,
            data: 0,
            ack: 0,
        },
    );
    let id = open(&mut plane);
    let offer = send_syn_ack(
        &mut plane.output,
        &mut plane.ledger,
        &link(),
        plane.flows.get_mut(id).unwrap(),
        id,
        0,
    )
    .unwrap();
    assert!(matches!(offer, Offer::Missing(_)));
}

#[test]
fn closing_a_flow_lets_everything_go() {
    let mut plane = plane_with(config(), 4);
    let id = establish(&mut plane);
    send_payload(&mut plane, id, b"held");
    let entry = plane.flows.get_mut(id).unwrap();
    assert!(submit_namespace_payload(
        entry,
        &mut plane.ledger,
        b"wait",
        None
    ));
    assert_eq!(plane.ledger.retained, 4);
    assert_eq!(plane.ledger.pending, 4);
    let offer = send_reset_for_flow(
        &mut plane.output,
        &mut plane.ledger,
        &link(),
        plane.flows.get(id).unwrap(),
    )
    .unwrap();
    let bytes = written(&mut plane, offer);
    assert!(sent_segment(&bytes).flags().rst);
    assert_eq!(sent_segment(&bytes).acknowledgment(), 1_001);
    let closed = plane
        .flows
        .close_flow(id, &mut plane.ledger, &mut plane.output)
        .unwrap();
    assert!(closed);
    assert_eq!(plane.ledger.retained, 0);
    assert_eq!(plane.ledger.pending, 0);
    assert_eq!(plane.ledger.metrics.active_tcp_flows, 0);
    assert!(plane.flows.flow_is_closed(id));
    assert!(plane.flows.find(key()).is_none());
    let removed = plane.flows.cleanup_closed(&mut plane.ledger.metrics);
    assert_eq!(removed.len(), 1);
    assert_eq!(plane.ledger.metrics.tcp_closed, 1);
    assert!(plane.flows.get(id).is_none());
    let again = plane
        .flows
        .close_flow(id, &mut plane.ledger, &mut plane.output)
        .unwrap();
    assert!(!again);
}

#[test]
fn refreshes_are_queued_once() {
    let mut plane = plane_with(config(), 4);
    let id = open(&mut plane);
    plane.flows.queue_ack_refresh(id);
    plane.flows.queue_ack_refresh(id);
    assert!(plane.flows.next_ack_refresh() == Some(id));
    assert!(plane.flows.next_ack_refresh().is_none());
}

#[test]
fn dns_refusal_is_counted() {
    let mut plane = plane_with(config(), 4);
    let offer = refuse_dns(
        &mut plane.output,
        &mut plane.ledger,
        &link(),
        key(),
        1_001,
    )
    .unwrap();
    let bytes = written(&mut plane, offer);
    assert!(sent_segment(&bytes).flags().rst);
    assert_eq!(plane.ledger.metrics.dns_refused, 1);
    assert_eq!(plane.ledger.metrics.tcp_resets, 1);
}

#[test]
fn neighbor_questions_are_answered() {
    let mut plane = plane_with(config(), 4);
    let request = ArpRequest {
        sender_mac: TARGET_MAC,
        sender_ip: NAMESPACE_IP,
        target_ip: GATEWAY_IP,
    };
    let offer = send_arp_reply(
        &mut plane.output,
        &mut plane.ledger,
        &link(),
        GATEWAY_IP,
        request,
    )
    .unwrap();
    let bytes = written(&mut plane, offer);
    assert_eq!(bytes.len(), 42);
    assert_eq!(&bytes[20..22], &[0, 2]);
    assert_eq!(&bytes[28..32], &GATEWAY_IP);
    let offer = send_neighbor_advertisement(
        &mut plane.output,
        &mut plane.ledger,
        &link(),
        TARGET_MAC,
        [1; 16],
        [2; 16],
    )
    .unwrap();
    let bytes = written(&mut plane, offer);
    assert_eq!(bytes.len(), 86);
    assert_eq!(bytes[54], 136);
    let mut dry = plane_with(config(), 1);
    let held = dry.output.acquire(0, &mut dry.ledger.metrics).unwrap();
    let refused = send_arp_reply(
        &mut dry.output,
        &mut dry.ledger,
        &link(),
        GATEWAY_IP,
        request,
    );
    assert!(matches!(
        refused,
        Err(Error::Invariant("TAP frame pool exhausted"))
    ));
    dry.output.release(held);
}

#[test]
fn proxy_handshake_runs_before_the_flow() {
    let mut plane = plane_with(socks_config(), 4);
    let id = open(&mut plane);
    let entry: &mut FlowEntry = plane.flows.get_mut(id).unwrap();
    assert!(finish_transport_connect(entry));
    let handshake = entry.handshake.as_mut().unwrap();
    assert_eq!(handshake.output(), &[5, 1, 0]);
    assert_eq!(
        advance_proxy_output(handshake, SendOutcome::WouldBlock),
        OutputStep::Stop
    );
    assert_eq!(
        advance_proxy_output(handshake, SendOutcome::Sent(0)),
        OutputStep::Fail
    );
    assert_eq!(
        advance_proxy_output(handshake, SendOutcome::Sent(4)),
        OutputStep::Broken
    );
    assert_eq!(
        advance_proxy_output(handshake, SendOutcome::Sent(2)),
        OutputStep::Again
    );
    assert_eq!(
        advance_proxy_output(handshake, SendOutcome::Sent(1)),
        OutputStep::Stop
    );
    let consumed = receive_proxy_input(entry, &[5, 0]).unwrap();
    assert_eq!(consumed, 2);
    let step = settle_proxy_input(entry, &mut plane.ledger.metrics, 2, 2);
    assert_eq!(step, InputStep::Flush);
    let length = entry.handshake.as_ref().unwrap().output().len();
    assert_eq!(length, 10);
    let handshake = entry.handshake.as_mut().unwrap();
    advance_proxy_output(handshake, SendOutcome::Sent(length));
    let reply = [5, 0, 0, 1, 0, 0, 0, 0, 0, 0];
    assert_eq!(receive_proxy_input(entry, &reply).unwrap(), 10);
    assert_eq!(
        settle_proxy_input(entry, &mut plane.ledger.metrics, 10, 9),
        InputStep::Fail
    );
    assert_eq!(
        settle_proxy_input(entry, &mut plane.ledger.metrics, 10, 10),
        InputStep::Activate
    );
    assert!(entry.handshake.is_none());
    assert_eq!(plane.ledger.metrics.proxy_handshakes, 1);
}

#[test]
fn http_handshake_sends_encoded_credentials() {
    let mut http = socks_config();
    http.upstream = Upstream::Proxy {
        protocol: Protocol::HttpConnect,
        address: v4([127, 0, 0, 1], 3_128),
        credentials: Some(Credentials::new(b"user".to_vec(), b"pass".to_vec()).unwrap()),
    };
    let handshake = proxy_handshake(&http, key().target).unwrap();
    let text = String::from_utf8(handshake.output().to_vec()).unwrap();
    assert!(text.contains("Proxy-Authorization: Basic dXNlcjpwYXNz\r\n"));
}

#[test]
fn events_are_dispatched_by_their_token() {
    let tap = EpollToken::global(Resource::Tap).raw();
    assert_eq!(
        dispatch(tap, READABLE),
        Dispatch::Tap {
            read: true,
            write: false
        }
    );
    let timer = EpollToken::global(Resource::Timer).raw();
    assert_eq!(dispatch(timer, READABLE), Dispatch::Timer);
    let id = FlowId {
        slot: 3,
        generation: 9,
    };
    let flow = EpollToken::flow(id, Resource::UpstreamSocket, true)
        .unwrap()
        .raw();
    assert_eq!(dispatch(flow, READABLE), Dispatch::Flow(id));
    assert_eq!(dispatch(0, READABLE), Dispatch::Invalid);
    assert!(keeps_running(false, 0));
    assert!(keeps_running(true, 1));
    assert!(!keeps_running(true, 0));
}

#[test]
fn socket_events_are_handled_in_stages() {
    let facts = SocketFacts {
        closed: false,
        connected: false,
        handshaking: true,
    };
    assert_eq!(
        handle_socket_stage(Stage::Errors, ERROR, facts),
        (SocketAction::CheckErrors, Stage::Connect)
    );
    assert_eq!(
        handle_socket_stage(Stage::Connect, WRITABLE, facts),
        (SocketAction::FinishConnect, Stage::ProxyOutput)
    );
    assert_eq!(
        handle_socket_stage(Stage::Queue, WRITABLE, facts),
        (SocketAction::Nothing, Stage::Done)
    );
    let closed = SocketFacts {
        closed: true,
        connected: true,
        handshaking: false,
    };
    assert_eq!(
        handle_socket_stage(Stage::Read, READABLE, closed),
        (SocketAction::Nothing, Stage::Done)
    );
}

#[test]
fn resolver_events_are_handled_in_stages() {
    let connecting = DnsState::Connecting {
        connected: false,
        handshake: None,
    };
    assert_eq!(
        handle_dns_stage(DnsStage::Connect, READABLE, &connecting),
        (DnsStep::Nothing, DnsStage::Done)
    );
    assert_eq!(
        handle_dns_stage(DnsStage::Connect, WRITABLE, &connecting),
        (DnsStep::FinishConnect, DnsStage::Handshake)
    );
    assert_eq!(
        handle_dns_stage(DnsStage::Read, READABLE, &DnsState::Ready),
        (DnsStep::Read, DnsStage::Interest)
    );
    assert_eq!(
        handle_dns_stage(DnsStage::Errors, ERROR, &DnsState::Idle),
        (DnsStep::Nothing, DnsStage::Done)
    );
    assert_eq!(
        handle_dns_stage(DnsStage::Errors, ERROR, &DnsState::Ready),
        (DnsStep::CheckErrors, DnsStage::Connect)
    );
}

#[test]
fn resolver_stream_is_framed() {
    let mut dns = DnsLink::new(NOW);
    assert!(dns.push_query(0x0102, &[9, 9, 7, 7], NOW));
    assert_eq!(dns.write_buffer, vec![0, 4, 1, 2, 7, 7]);
    dns.note_written(2);
    assert_eq!(dns.write_buffer, vec![1, 2, 7, 7]);
    assert!(dns.note_read(&[0, 2, 5]));
    assert!(dns.take_message().is_none());
    assert!(dns.note_read(&[6, 0]));
    assert_eq!(dns.take_message(), Some(vec![5, 6]));
    assert!(dns.take_message().is_none());
    assert_eq!(dns.read_buffer, vec![0]);
    dns.tear_down();
    assert!(dns.write_buffer.is_empty() && dns.read_buffer.is_empty());
    assert!(dns.interest().is_none());
    dns.state = DnsState::Ready;
    assert!(!dns.close_if_idle(true, NOW + DNS_IDLE_TIMEOUT - 1));
    assert!(!dns.close_if_idle(false, NOW + DNS_IDLE_TIMEOUT));
    assert!(dns.close_if_idle(true, NOW + DNS_IDLE_TIMEOUT));
}

#[test]
fn resolver_connection_may_need_a_handshake() {
    let resolver = v4([9, 9, 9, 9], 53);
    assert!(matches!(
        dns_route(&config()),
        Err(Error::Invariant("DNS forward without a resolver"))
    ));
    let mut direct = config();
    direct.dns_upstream = Some(resolver);
    let (transport, handshake) = dns_route(&direct).unwrap();
    assert!(transport == resolver && handshake.is_none());
    let mut proxied = socks_config();
    proxied.dns_upstream = Some(resolver);
    let (transport, handshake) = dns_route(&proxied).unwrap();
    assert!(transport == v4([127, 0, 0, 1], 1080));
    let state = DnsState::Connecting {
        connected: true,
        handshake,
    };
    assert_eq!(drive_dns_handshake(&state), DnsHandshakeStep::Send);
    assert_eq!(drive_dns_handshake(&DnsState::Ready), DnsHandshakeStep::Nothing);
    assert_eq!(dns_frame_limit(1514, false), 1452);
}

#[test]
fn intercepted_queries_are_answered_or_forwarded() {
    let query = yayatht::support::dns_client::build_query(7, b"example.net", None);
    let client = v4(NAMESPACE_IP, 5_353);
    let gateway = v4(GATEWAY_IP, 53);
    let mut engine = Engine::with_query_timeout(QUERY_TIMEOUT);
    let mut metrics = Metrics::default();
    let action = handle_udp(
        &config(),
        &mut engine,
        &mut metrics,
        client,
        gateway,
        &query,
        NOW,
    );
    match action {
        DnsAction::Reply(reply) => assert_eq!(reply[3] & 0x0f, 2),
        _ => panic!("query was not answered"),
    }
    assert_eq!(metrics.dns_refused, 1);
    let mut with_resolver = config();
    with_resolver.dns_upstream = Some(v4([9, 9, 9, 9], 53));
    let action = handle_udp(
        &with_resolver,
        &mut engine,
        &mut metrics,
        client,
        gateway,
        &query,
        NOW,
    );
    assert!(matches!(action, DnsAction::Forward { .. }));
    let elsewhere = v4([198, 51, 100, 7], 53);
    let action = handle_udp(
        &with_resolver,
        &mut engine,
        &mut metrics,
        client,
        elsewhere,
        &query,
        NOW,
    );
    assert!(matches!(action, DnsAction::Ignore));
    assert_eq!(metrics.dns_queries, 2);
}

#[test]
fn pools_are_sized_from_the_configuration() {
    let mut offloaded = config();
    offloaded.tap_mtu = 32_000;
    offloaded.tap_offload = true;
    let (sizes, metrics) = plan_sizes(&offloaded).unwrap();
    assert_eq!(sizes.frame_capacity, 32_024);
    assert_eq!(sizes.vnet_len, 10);
    assert_eq!(sizes.frame_pool_frames, 523);
    assert_eq!(sizes.gso_frame_capacity, 65_559);
    assert_eq!(sizes.gso_pool_frames, 63);
    assert_eq!(metrics.tap_frame_capacity, 32_024);
    assert_eq!(metrics.flow_fd_limit, 34);
    let (plain, _) = plan_sizes(&config()).unwrap();
    assert_eq!(plain.frame_pool_frames, 4_096);
    assert_eq!(plain.gso_pool_frames, 0);
    assert_eq!(plain.tap_rx_capacity, 1_514);
}

fn look(plane: &mut Plane, id: FlowId, offset: usize, data: Option<&[u8]>) -> PeekedFrame {
    let mut look = prepare_peek(
        &mut plane.output,
        &mut plane.ledger.metrics,
        plane.flows.get(id).unwrap(),
        false,
        offset,
        1_200,
    )
    .unwrap();
    assert_eq!(look.start, 54);
    assert_eq!(look.room, 1_200);
    assert_eq!(look.offset as usize, offset);
    if let Some(data) = data {
        look.frame.buffer.writable()[54..54 + data.len()].copy_from_slice(data);
    }
    settle_peek(
        &mut plane.output,
        look.frame,
        offset,
        data.map(|data| data.len()),
    )
}

fn forward(plane: &mut Plane, id: FlowId, peeked: PeekedFrame) -> Option<Offer> {
    forward_peeked(
        &mut plane.output,
        &mut plane.ledger,
        &link(),
        plane.flows.get_mut(id).unwrap(),
        id,
        peeked,
    )
    .unwrap()
}

#[test]
fn peeked_payload_is_forwarded_and_sent_again() {
    let mut plane = plane_with(config(), 4);
    let id = establish(&mut plane);
    let peeked = look(&mut plane, id, 0, Some(b"first"));
    let offer = forward(&mut plane, id, peeked).unwrap();
    let bytes = written(&mut plane, offer);
    assert_eq!(sent_segment(&bytes).payload(), b"first");
    assert_eq!(plane.flows.get(id).unwrap().last_namespace_byte, Some(b't'));
    let resend = begin_retransmit(
        &mut plane.output,
        &mut plane.ledger,
        &link(),
        plane.flows.get(id).unwrap(),
        id,
    )
    .unwrap();
    assert!(matches!(resend, Resend::Read { length: 5 }));
    let peeked = look(&mut plane, id, 0, Some(b"first"));
    let resent = retransmit_peeked(
        &mut plane.output,
        &mut plane.ledger,
        &link(),
        plane.flows.get(id).unwrap(),
        id,
        peeked,
    )
    .unwrap();
    match resent {
        Resent::Offered(Offer::Write(queued)) => {
            assert_eq!(sent_segment(queued.frame.buffer.bytes()).sequence(), 7_001);
            assert!(queued.plan.is_none());
            plane.output.release(queued.frame);
        }
        _ => panic!("segment was not sent again"),
    }
    let free = plane.output.available();
    let peeked = look(&mut plane, id, 0, Some(b"gone"));
    let resent = retransmit_peeked(
        &mut plane.output,
        &mut plane.ledger,
        &link(),
        plane.flows.get(id).unwrap(),
        id,
        peeked,
    )
    .unwrap();
    assert!(matches!(
        resent,
        Resent::Broken("retained socket payload is shorter than segment")
    ));
    assert_eq!(plane.output.available(), free);
}

#[test]
fn ended_and_idle_streams_are_told_apart() {
    let mut plane = plane_with(config(), 4);
    let id = establish(&mut plane);
    let peeked = look(&mut plane, id, 0, None);
    assert!(forward(&mut plane, id, peeked).is_none());
    let peeked = look(&mut plane, id, 7, Some(b""));
    assert!(matches!(peeked, PeekedFrame::WouldBlock));
    let peeked = look(&mut plane, id, 0, Some(b""));
    let offer = forward(&mut plane, id, peeked).unwrap();
    let bytes = written(&mut plane, offer);
    assert!(sent_segment(&bytes).flags().fin);
    let resend = begin_retransmit(
        &mut plane.output,
        &mut plane.ledger,
        &link(),
        plane.flows.get(id).unwrap(),
        id,
    )
    .unwrap();
    match resend {
        Resend::Offered(Offer::Write(queued)) => {
            assert!(sent_segment(queued.frame.buffer.bytes()).flags().fin);
        }
        _ => panic!("FIN was not sent again"),
    }
}

#[test]
fn looks_need_a_frame_and_a_small_offset() {
    let mut plane = plane_with(config(), 1);
    let id = establish(&mut plane);
    let far = prepare_peek(
        &mut plane.output,
        &mut plane.ledger.metrics,
        plane.flows.get(id).unwrap(),
        false,
        usize::MAX / 2,
        1,
    );
    assert!(matches!(
        far,
        Err(Error::Invariant("socket peek offset exceeds i32"))
    ));
    let held = plane.output.acquire(0, &mut plane.ledger.metrics).unwrap();
    let dry = prepare_peek(
        &mut plane.output,
        &mut plane.ledger.metrics,
        plane.flows.get(id).unwrap(),
        false,
        0,
        1,
    );
    assert!(matches!(
        dry,
        Err(Error::Invariant("TAP frame pool exhausted"))
    ));
    plane.output.release(held);
}

#[test]
fn segments_of_a_flow_are_accepted_by_its_state() {
    let mut plane = plane_with(config(), 4);
    let id = open(&mut plane);
    let metrics = &mut plane.ledger.metrics;
    let entry = plane.flows.get_mut(id).unwrap();
    let syn = fields(1_000, None, 4_096, 0, false);
    assert_eq!(
        accept_segment(entry, metrics, true, syn, NOW),
        Arrival::Ignore
    );
    let mut plane = plane_with(config(), 4);
    let id = establish(&mut plane);
    let metrics = &mut plane.ledger.metrics;
    let entry = plane.flows.get_mut(id).unwrap();
    let data = fields(1_001, Some(7_001), 4_096, 3, false);
    match accept_segment(entry, metrics, false, data, NOW) {
        Arrival::Settle(plan) => {
            assert_eq!(plan.clamp, None);
            assert_eq!(plan.discard, 0);
        }
        _ => panic!("segment was not taken"),
    }
    let mut reset = fields(1_004, None, 0, 0, false);
    reset.rst = true;
    assert_eq!(
        accept_segment(entry, metrics, false, reset, NOW),
        Arrival::Close
    );
    assert!(!plane.flows.finish_segment(id));
    assert!(plane.flows.next_ack_refresh() == Some(id));
}

#[test]
fn sent_frames_are_committed_to_their_flow() {
    let mut plane = plane_with(config(), 4);
    let id = establish(&mut plane);
    let offer = send_fin(
        &mut plane.output,
        &mut plane.ledger,
        &link(),
        plane.flows.get(id).unwrap(),
        id,
    )
    .unwrap();
    let Offer::Write(queued) = offer else {
        panic!("frame was not to be written");
    };
    assert_eq!(plane.output.available(), 3);
    plane
        .flows
        .commit_sent(&mut plane.output, queued, NOW)
        .unwrap();
    assert_eq!(plane.output.available(), 4);
    assert_eq!(plane.flows.get(id).unwrap().sent_segments.len(), 1);
    let offer = send_fin(
        &mut plane.output,
        &mut plane.ledger,
        &link(),
        plane.flows.get(id).unwrap(),
        id,
    )
    .unwrap();
    let Offer::Write(mut queued) = offer else {
        panic!("frame was not to be written");
    };
    queued.flow = Some(FlowId {
        slot: 1,
        generation: 9,
    });
    let lost = plane.flows.commit_sent(&mut plane.output, queued, NOW);
    assert!(matches!(
        lost,
        Err(Error::Invariant("flow closed before TAP commit"))
    ));
}

#[test]
fn queries_go_out_and_answers_come_back() {
    let query = yayatht::support::dns_client::build_query(7, b"example.net", None);
    let client = v4(NAMESPACE_IP, 5_353);
    let mut with_resolver = config();
    with_resolver.dns_upstream = Some(v4([9, 9, 9, 9], 53));
    let mut engine = Engine::with_query_timeout(QUERY_TIMEOUT);
    let mut metrics = Metrics::default();
    let mut dns = DnsLink::new(NOW);
    let gateway = v4(GATEWAY_IP, 53);
    let action = handle_udp(
        &with_resolver,
        &mut engine,
        &mut metrics,
        client,
        gateway,
        &query,
        NOW,
    );
    let DnsAction::Forward { upstream_id } = action else {
        panic!("query was not forwarded");
    };
    let forwarded = forward_dns_query(
        &mut dns,
        &mut engine,
        &mut metrics,
        upstream_id,
        &query,
        NOW + 1,
    );
    assert!(matches!(forwarded, Forwarded::Queued));
    assert_eq!(dns.write_buffer.len(), query.len() + 2);
    assert_eq!(
        settle_dns_write(&mut dns, SendOutcome::Sent(2)),
        DnsExchange::Again
    );
    let mut answer = dns.write_buffer.clone();
    answer[2] |= 0x80;
    assert_eq!(
        settle_dns_write(&mut dns, SendOutcome::WouldBlock),
        DnsExchange::Wait
    );
    assert_eq!(
        settle_dns_write(&mut dns, SendOutcome::Sent(0)),
        DnsExchange::Fail
    );
    let reply = take_dns_response(
        &mut dns,
        &mut engine,
        &mut metrics,
        &answer,
        1_452,
        NOW + 2,
    )
    .unwrap();
    assert!(reply.transaction.client == client);
    assert_eq!(&reply.payload[..2], &[0, 7]);
    assert_eq!(metrics.dns_responses, 1);
    assert_eq!(dns.last_activity, NOW + 2);
    let again = take_dns_response(&mut dns, &mut engine, &mut metrics, &answer, 1_452, NOW + 3);
    assert!(again.is_none());
    dns.write_buffer = vec![0; DNS_WRITE_BUFFER_LIMIT];
    let refused = forward_dns_query(&mut dns, &mut engine, &mut metrics, 3, &query, NOW);
    assert!(matches!(refused, Forwarded::Refused(None)));
    assert_eq!(metrics.dns_failures, 0);
}

#[test]
fn resolver_handshake_is_exchanged() {
    let mut proxied = socks_config();
    proxied.dns_upstream = Some(v4([9, 9, 9, 9], 53));
    let (_, handshake) = dns_route(&proxied).unwrap();
    let mut handshake = handshake.unwrap();
    assert_eq!(
        settle_dns_output(&mut handshake, SendOutcome::Sent(9)),
        DnsExchange::Fail
    );
    assert_eq!(
        settle_dns_output(&mut handshake, SendOutcome::Sent(3)),
        DnsExchange::Again
    );
    assert_eq!(take_dns_answer(&mut handshake, &[]), DnsAnswer::Fail);
    assert_eq!(take_dns_answer(&mut handshake, &[5]), DnsAnswer::Wait);
    assert_eq!(
        take_dns_answer(&mut handshake, &[5, 0]),
        DnsAnswer::Take { length: 2 }
    );
    assert_eq!(take_dns_answer(&mut handshake, &[9]), DnsAnswer::Fail);
}

fn gateways() -> Gateways {
    Gateways {
        ipv4: Some(GATEWAY_IP),
        ipv6: None,
    }
}

fn offloaded_link() -> Link {
    Link {
        offload: true,
        ..link()
    }
}

#[test]
fn dns_replies_read_back() {
    for link in [link(), offloaded_link()] {
        let mut plane = plane_with(config(), 4);
        let client = v4(NAMESPACE_IP, 5_353);
        let outcome = queue_dns_reply(
            &mut plane.output,
            &mut plane.ledger,
            &link,
            client,
            v4(GATEWAY_IP, 53),
            b"a DNS message",
        )
        .unwrap();
        let DnsReplyOutcome::Offered(Offer::Write(queued)) = outcome else {
            panic!("reply was not to be written");
        };
        let mut metrics = Metrics::default();
        let bytes = queued.frame.buffer.bytes();
        match handle_frame(&gateways(), link.offload, bytes, &mut metrics).unwrap() {
            Ingress::Udp {
                client: source,
                gateway: destination,
                message,
            } => {
                assert!(source == v4(GATEWAY_IP, 53));
                assert!(destination == client);
                assert_eq!(message, b"a DNS message");
            }
            _ => panic!("reply is no datagram"),
        }
    }
}

#[test]
fn offloaded_frames_read_back() {
    let mut plane = plane_with(config(), 4);
    let id = establish(&mut plane);
    let offer = send_ack(
        &mut plane.output,
        &mut plane.ledger,
        &offloaded_link(),
        plane.flows.get(id).unwrap(),
    )
    .unwrap();
    let Offer::Write(queued) = offer else {
        panic!("acknowledgment was not to be written");
    };
    let mut metrics = Metrics::default();
    let bytes = queued.frame.buffer.bytes();
    match handle_frame(&gateways(), true, bytes, &mut metrics).unwrap() {
        Ingress::Tcp { key: read, segment } => {
            assert!(read.namespace == key().target);
            assert!(read.target == key().namespace);
            assert_eq!(segment.acknowledgment(), 1_001);
        }
        _ => panic!("frame is no segment"),
    }
}
