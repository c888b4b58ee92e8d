use yayatht::dataplane::buffer::BufferPool;
use yayatht::dataplane::flow_table::{EpollToken, FlowId, FlowTable, Resource};
use yayatht::dataplane::reactor::answer::{DnsReplyOutcome, queue_dns_reply};
use yayatht::dataplane::reactor::frame::Link;
use yayatht::dataplane::reactor::interest::socket_interest;
use yayatht::dataplane::reactor::ledger::{Ledger, pending_pressure_state};
use yayatht::dataplane::reactor::metrics::Metrics;
use yayatht::dataplane::reactor::pools::Pools;
use yayatht::dataplane::reactor::probe::{ZERO_WINDOW_PROBE_MAX, ZeroWindowProbe};
use yayatht::dataplane::reactor::queue::PendingSocketQueue;
use yayatht::dataplane::reactor::segment::{MAX_RETRIES, RETRANSMIT_INITIAL, SentSegment};
use yayatht::dataplane::reactor::tap::{InjectedDrops, TapOutput};
use yayatht::dataplane::udp::{
    AcceptError, DNS_TIMEOUT, Engine, FlowKey, ONE_SHOT_TIMEOUT, STREAM_TIMEOUT, TimeoutClass,
};
use yayatht::net::{IpAddress, SocketAddress};
use yayatht::packet::ethernet::MacAddress;
use yayatht::sys::reactor as events;
use yayatht::time::SECOND;

const NOW: u64 = 1_000 * SECOND;

fn v4(octets: [u8; 4], port: u16) -> SocketAddress {
    SocketAddress::new(IpAddress::V4(octets), port)
}

fn key(source_port: u16, target: [u8; 4], port: u16) -> FlowKey {
    FlowKey {
        source: v4([192, 0, 2, 2], source_port),
        target: v4(target, port),
    }
}

fn segment(sequence: u32, payload_len: usize, syn: bool, fin: bool) -> SentSegment {
    SentSegment {
        sequence,
        payload_len,
        syn,
        fin,
        last_sent: NOW,
        retransmit_timeout: RETRANSMIT_INITIAL,
        retries: 0,
    }
}

#[test]
fn released_frame_returns_to_fixed_pool() {
    let mut pool = BufferPool::new(1, 2048);
    let (index, mut frame) = pool.acquire().unwrap();
    assert_eq!(frame.capacity(), 2048);
    frame.writable()[..3].copy_from_slice(b"tap");
    frame.set_len(3);
    assert_eq!(pool.available(), 0);
    pool.release(index, frame);

    let (_, frame) = pool.acquire().unwrap();
    assert_eq!(frame.bytes(), b"tap");
}

#[test]
fn deferred_slot_is_not_reused() {
    let mut table = FlowTable::with_capacity(1);
    let first = table.insert(1).unwrap();
    table.defer_remove(first);
    assert_eq!(table.insert(2), Err(2));
    assert_eq!(table.flush_deferred(), vec![1]);
    let second = table.insert(2).unwrap();
    assert_eq!(first.slot, second.slot);
    assert_ne!(first.generation, second.generation);
    assert!(table.get(first).is_none());
}

#[test]
fn token_round_trip() {
    let id = FlowId {
        slot: 7,
        generation: 9,
    };
    let token = EpollToken::flow(id, Resource::UpstreamSocket, true).unwrap();
    assert_eq!(
        token.decode(),
        Some((Some(id), Resource::UpstreamSocket, true))
    );
    let udp = EpollToken::flow(id, Resource::UdpSocket, true).unwrap();
    assert_eq!(udp.decode(), Some((Some(id), Resource::UdpSocket, true)));
}

#[test]
fn partial_ack_trims_wrapped_segment() {
    let mut segment = segment(u32::MAX - 2, 5, false, false);
    assert!(!segment.acknowledge(0));
    assert_eq!(segment.sequence, 0);
    assert_eq!(segment.payload_len, 2);
    assert!(segment.acknowledge(2));
}

#[test]
fn acknowledgment_accounts_for_syn_and_fin_sequence_space() {
    let mut syn = segment(100, 0, true, false);
    assert!(syn.acknowledge(101));

    let mut data_fin = segment(200, 3, false, true);
    assert!(!data_fin.acknowledge(203));
    assert_eq!(data_fin.sequence, 203);
    assert_eq!(data_fin.payload_len, 0);
    assert!(data_fin.fin);
    assert!(data_fin.acknowledge(204));
}

#[test]
fn pending_socket_queue_enforces_its_byte_limit() {
    let mut queue = PendingSocketQueue::new(5);
    queue.push(b"abc").unwrap();
    assert_eq!(queue.remaining(), 2);
    assert_eq!(queue.push(b"def"), Err(()));
    queue.consume(2);
    assert_eq!(queue.front(), Some(b"c".as_slice()));
    queue.push(b"de").unwrap();
    queue.consume(1);
    queue.consume(2);
    assert!(queue.is_empty());
    assert_eq!(queue.remaining(), 5);
}

#[test]
fn zero_window_probe_uses_bounded_exponential_backoff() {
    let now = NOW;
    let mut probe = ZeroWindowProbe::new(now);
    assert_eq!(probe.deadline, now + SECOND);
    probe.advance(now);
    assert_eq!(probe.interval, 2 * SECOND);
    probe.advance(now);
    probe.advance(now);
    probe.advance(now);
    assert_eq!(probe.interval, ZERO_WINDOW_PROBE_MAX);
    assert_eq!(probe.deadline, now + ZERO_WINDOW_PROBE_MAX);
}

#[test]
fn zero_window_waits_count_from_each_probe() {
    let mut probe = ZeroWindowProbe::new(NOW);
    assert_eq!(probe.interval, SECOND);
    let mut at = NOW;
    for wait in [2, 4, 8, 8, 8] {
        at += 3 * SECOND;
        probe.advance(at);
        assert_eq!(probe.interval, wait * SECOND);
        assert_eq!(probe.deadline, at + wait * SECOND);
    }
}

#[test]
fn removed_flow_stays_gone_through_many_generations() {
    let mut table = FlowTable::with_capacity(1);
    let first = table.insert(0u32).unwrap();
    table.defer_remove(first);
    table.flush_deferred();
    for flow in 1..20u32 {
        let id = table.insert(flow).unwrap();
        assert_eq!(id.slot, first.slot);
        assert_eq!(table.get(first), None);
        assert_eq!(table.get(id), Some(&flow));
        table.defer_remove(id);
        table.flush_deferred();
        assert_eq!(table.get(first), None);
    }
}

#[test]
fn writable_interest_is_armed_only_while_progress_is_possible() {
    let base = events::READABLE | events::ERROR | events::READ_HANGUP;
    let writable = base | events::WRITABLE;
    // An idle established flow must leave the wait able to block, also while
    // its bytes are not acknowledged upstream.
    assert_eq!(socket_interest(false, false, false), base);
    assert_eq!(socket_interest(true, false, false), writable);
    assert_eq!(socket_interest(false, true, false), writable);
    assert_eq!(socket_interest(false, false, true), writable);
}

#[test]
fn pending_pressure_uses_high_and_low_watermarks() {
    let limit = 1024;
    assert!(!pending_pressure_state(false, 895, limit));
    assert!(pending_pressure_state(false, 896, limit));
    assert!(pending_pressure_state(true, 769, limit));
    assert!(!pending_pressure_state(true, 768, limit));
}

#[test]
fn retransmission_backoff_stops_at_the_retry_limit() {
    let started = NOW;
    let mut segment = segment(100, 10, false, false);
    for retry in 1..=MAX_RETRIES {
        segment.record_timeout_retransmit(started);
        assert_eq!(segment.retries, retry);
    }
    assert!(segment.retries_exhausted());
    assert_eq!(segment.retransmit_timeout, 8 * SECOND);
}

#[test]
fn dns_reply_degrades_to_a_counted_drop_when_the_frame_pool_is_dry() {
    let drops = InjectedDrops {
        syn_ack: 0,
        fin: 0,
        data: 0,
        ack: 0,
    };
    let mut output = TapOutput::new(Pools::new(8, 1514, 0, 0), drops);
    let mut ledger = Ledger::new(65536, 65536, Metrics::default());
    let link = Link {
        target_mac: MacAddress([2, 0, 0, 0, 0, 1]),
        gateway_mac: MacAddress([2, 0, 0, 0, 0, 2]),
        offload: false,
    };
    // Drain every frame so the reply cannot acquire one.
    let mut scratch = Metrics::default();
    let mut held = Vec::new();
    while output.available() > 0 {
        held.push(output.acquire(64, &mut scratch).unwrap());
    }
    assert_eq!(output.available(), 0);

    let client = v4([10, 0, 0, 2], 40000);
    let gateway = v4([10, 0, 0, 1], 53);
    let result = queue_dns_reply(&mut output, &mut ledger, &link, client, gateway, &[0u8; 32]);

    // A dry pool must not surface an error: it would end the data plane.
    assert!(matches!(result, Ok(DnsReplyOutcome::Dropped)));
    assert_eq!(ledger.metrics.dns_reply_drops, 1);
    assert_eq!(ledger.metrics.frame_pool_exhaustions, 1);
    assert_eq!(ledger.metrics.tap_tx_packets, 0);
}

#[test]
fn one_association_serves_multiple_targets() {
    let mut engine = Engine::new(4, 2);
    let first = engine.accept(key(40000, [198, 51, 100, 1], 7), NOW).unwrap();
    let second = engine.accept(key(40000, [198, 51, 100, 2], 9), NOW).unwrap();
    assert!(first.created && first.association_created);
    assert!(second.created && !second.association_created);
    assert_eq!(engine.active_flows(), 2);
    assert_eq!(engine.active_associations(), 1);
}

#[test]
fn limits_refuse_only_new_resources() {
    let mut engine = Engine::new(2, 1);
    let first_key = key(40000, [198, 51, 100, 1], 7);
    let first = engine.accept(first_key, NOW).unwrap();
    assert_eq!(engine.accept(first_key, NOW).unwrap().id, first.id);
    engine.accept(key(40000, [198, 51, 100, 2], 9), NOW).unwrap();
    assert_eq!(
        engine.accept(key(40000, [198, 51, 100, 3], 11), NOW),
        Err(AcceptError::FlowLimit)
    );
    engine.remove(first.id);
    assert_eq!(
        engine.accept(key(40001, [198, 51, 100, 3], 11), NOW),
        Err(AcceptError::AssociationLimit)
    );
}

#[test]
fn bidirectional_activity_promotes_stream_timeout() {
    let mut engine = Engine::new(1, 1);
    let accepted = engine.accept(key(40000, [198, 51, 100, 1], 7), NOW).unwrap();
    assert_eq!(
        engine.flow(accepted.id).unwrap().timeout_class(),
        TimeoutClass::OneShot
    );
    engine.record_outbound(accepted.id, NOW);
    engine.record_inbound(accepted.id, NOW);
    engine.record_inbound(accepted.id, NOW);
    assert_eq!(
        engine.flow(accepted.id).unwrap().timeout_class(),
        TimeoutClass::Stream
    );
    assert!(engine.expire(NOW + ONE_SHOT_TIMEOUT).is_empty());
    assert_eq!(engine.expire(NOW + STREAM_TIMEOUT), vec![accepted.id]);
    assert_eq!(engine.active_associations(), 0);
}

#[test]
fn dns_flow_uses_short_timeout() {
    let mut engine = Engine::new(1, 1);
    let accepted = engine
        .accept(key(40000, [198, 51, 100, 53], 53), NOW)
        .unwrap();
    assert_eq!(
        engine.flow(accepted.id).unwrap().timeout_class(),
        TimeoutClass::Dns
    );
    assert_eq!(engine.expire(NOW + DNS_TIMEOUT), vec![accepted.id]);
}

#[test]
fn mixed_families_are_rejected() {
    let mut engine = Engine::new(1, 1);
    assert_eq!(
        engine.accept(
            FlowKey {
                source: v4([192, 0, 2, 2], 1234),
                target: SocketAddress::new(
                    IpAddress::V6([
                        0x20, 0x01, 0x0d, 0xb8, 0, 0, 0, 0, 0, 0, 0, 0, 0, 0, 0, 1
                    ]),
                    7
                ),
            },
            NOW,
        ),
        Err(AcceptError::FamilyMismatch)
    );
}
