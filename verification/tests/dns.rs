use yayatht::dataplane::dns::{
    DEFAULT_UDP_PAYLOAD_LIMIT, Engine, FLAG_RECURSION_DESIRED, FLAG_RESPONSE, FLAG_TRUNCATED,
    HEADER_LEN, MAX_TRANSACTIONS, OPT_RECORD_TYPE, QUERY_TIMEOUT, QueryDisposition, RCODE_FORMERR,
    RCODE_SERVFAIL,
};
use yayatht::net::{IpAddress, SocketAddress};

const NOW: u64 = 1_000_000_000_000;

fn client() -> SocketAddress {
    SocketAddress::new(IpAddress::V4([192, 0, 2, 2]), 40000)
}

fn gateway() -> SocketAddress {
    SocketAddress::new(IpAddress::V4([192, 0, 2, 1]), 53)
}

/// A query for example.com A IN with the given ID.
fn query(id: u16) -> Vec<u8> {
    let mut message = Vec::new();
    message.extend_from_slice(&id.to_be_bytes());
    message.extend_from_slice(&FLAG_RECURSION_DESIRED.to_be_bytes());
    message.extend_from_slice(&[0, 1, 0, 0, 0, 0, 0, 0]);
    message.extend_from_slice(b"\x07example\x03com\x00");
    message.extend_from_slice(&[0, 1, 0, 1]);
    message
}

fn query_with_opt(id: u16, payload: u16) -> Vec<u8> {
    let mut message = query(id);
    message[11] = 1; // ARCOUNT = 1
    message.push(0); // root name
    message.extend_from_slice(&OPT_RECORD_TYPE.to_be_bytes());
    message.extend_from_slice(&payload.to_be_bytes());
    message.extend_from_slice(&[0, 0, 0, 0, 0, 0]); // TTL + RDLENGTH
    message
}

fn response_for(query: &[u8], answer_len: usize) -> Vec<u8> {
    let mut message = query.to_vec();
    let flags = u16::from_be_bytes([message[2], message[3]]) | FLAG_RESPONSE;
    message[2..4].copy_from_slice(&flags.to_be_bytes());
    message[7] = 1; // ANCOUNT
    message.extend_from_slice(&vec![0xab; answer_len]);
    message
}

fn forward(engine: &mut Engine, message: &[u8], now: u64) -> u16 {
    match engine.accept_query(client(), gateway(), message, true, now) {
        QueryDisposition::Forward { upstream_id } => upstream_id,
        other => panic!("expected forward, got {other:?}"),
    }
}

#[test]
fn forwards_a_query_and_restores_the_original_id() {
    let mut engine = Engine::default();
    let now = NOW;
    let message = query(0x1234);
    let upstream_id = forward(&mut engine, &message, now);
    let mut upstream = response_for(&message, 16);
    upstream[..2].copy_from_slice(&upstream_id.to_be_bytes());
    let reply = engine.accept_response(&upstream, 1400).unwrap();
    assert_eq!(reply.transaction.client, client());
    assert!(!reply.truncated);
    assert_eq!(&reply.payload[..2], &0x1234u16.to_be_bytes());
    assert_eq!(reply.payload.len(), upstream.len());
    assert!(engine.is_idle());
}

#[test]
fn concurrent_same_id_queries_get_distinct_upstream_ids() {
    let mut engine = Engine::default();
    let now = NOW;
    let first = forward(&mut engine, &query(7), now);
    let second = forward(&mut engine, &query(7), now);
    assert_ne!(first, second);
    assert_eq!(engine.outstanding(), 2);
}

#[test]
fn oversized_responses_are_truncated_with_tc() {
    let mut engine = Engine::default();
    let now = NOW;
    let message = query(9);
    let upstream_id = forward(&mut engine, &message, now);
    let mut upstream = response_for(&message, 800);
    upstream[..2].copy_from_slice(&upstream_id.to_be_bytes());
    let reply = engine.accept_response(&upstream, 1400).unwrap();
    assert!(reply.truncated);
    assert!(reply.payload.len() <= DEFAULT_UDP_PAYLOAD_LIMIT);
    let flags = u16::from_be_bytes([reply.payload[2], reply.payload[3]]);
    assert_ne!(flags & FLAG_TRUNCATED, 0);
    assert_eq!(&reply.payload[..2], &9u16.to_be_bytes());
    // Header + original question only, counts zeroed.
    assert_eq!(reply.payload.len(), message.len());
    assert_eq!(&reply.payload[6..12], &[0, 0, 0, 0, 0, 0]);
}

#[test]
fn edns0_payload_size_raises_the_truncation_limit() {
    let mut engine = Engine::default();
    let now = NOW;
    let message = query_with_opt(11, 4096);
    let upstream_id = forward(&mut engine, &message, now);
    let mut upstream = response_for(&message, 800);
    upstream[..2].copy_from_slice(&upstream_id.to_be_bytes());
    let reply = engine.accept_response(&upstream, 8192).unwrap();
    assert!(!reply.truncated);
    let flags = u16::from_be_bytes([reply.payload[2], reply.payload[3]]);
    assert_eq!(flags & FLAG_TRUNCATED, 0);
    assert_eq!(reply.payload.len(), upstream.len());
}

#[test]
fn frame_capacity_still_truncates_edns0_responses() {
    let mut engine = Engine::default();
    let now = NOW;
    let message = query_with_opt(12, 4096);
    let upstream_id = forward(&mut engine, &message, now);
    let mut upstream = response_for(&message, 2000);
    upstream[..2].copy_from_slice(&upstream_id.to_be_bytes());
    let reply = engine.accept_response(&upstream, 1400).unwrap();
    assert!(reply.truncated);
}

#[test]
fn mismatched_question_leaves_the_transaction_pending() {
    let mut engine = Engine::default();
    let now = NOW;
    let message = query(13);
    let upstream_id = forward(&mut engine, &message, now);
    let other = query(13).splice_name();
    let mut upstream = response_for(&other, 16);
    upstream[..2].copy_from_slice(&upstream_id.to_be_bytes());
    assert!(engine.accept_response(&upstream, 1400).is_none());
    assert_eq!(engine.outstanding(), 1);
}

#[test]
fn case_randomized_question_still_matches() {
    let mut engine = Engine::default();
    let now = NOW;
    let message = query(14);
    let upstream_id = forward(&mut engine, &message, now);
    let mut upstream = response_for(&message, 16);
    upstream[..2].copy_from_slice(&upstream_id.to_be_bytes());
    // Upper-case the qname labels as a 0x20-normalizing resolver would.
    upstream[HEADER_LEN + 1..HEADER_LEN + 8].make_ascii_uppercase();
    assert!(engine.accept_response(&upstream, 1400).is_some());
}

#[test]
fn malformed_queries_get_formerr_and_headerless_junk_is_dropped() {
    let mut engine = Engine::default();
    let now = NOW;
    assert_eq!(
        engine.accept_query(client(), gateway(), &[0u8; 4], true, now),
        QueryDisposition::Drop
    );
    let mut two_questions = query(15);
    two_questions[5] = 2;
    match engine.accept_query(client(), gateway(), &two_questions, true, now) {
        QueryDisposition::Respond(reply) => {
            assert_eq!(
                u16::from_be_bytes([reply[2], reply[3]]) & 0x000f,
                RCODE_FORMERR
            );
        }
        other => panic!("expected FORMERR, got {other:?}"),
    }
}

#[test]
fn no_resolver_answers_servfail_with_the_question_echoed() {
    let mut engine = Engine::default();
    let now = NOW;
    let message = query(16);
    match engine.accept_query(client(), gateway(), &message, false, now) {
        QueryDisposition::Respond(reply) => {
            assert_eq!(
                u16::from_be_bytes([reply[2], reply[3]]) & 0x000f,
                RCODE_SERVFAIL
            );
            assert_eq!(&reply[HEADER_LEN..], &message[HEADER_LEN..]);
            assert_eq!(&reply[..2], &16u16.to_be_bytes());
        }
        other => panic!("expected SERVFAIL, got {other:?}"),
    }
    assert!(engine.is_idle());
}

#[test]
fn expiry_synthesizes_servfail_for_the_original_client() {
    let mut engine = Engine::default();
    let now = NOW;
    forward(&mut engine, &query(17), now);
    assert!(engine.expire(now).is_empty());
    let failures = engine.expire(now + QUERY_TIMEOUT);
    assert_eq!(failures.len(), 1);
    let (transaction, reply) = &failures[0];
    assert_eq!(transaction.client, client());
    assert_eq!(&reply[..2], &17u16.to_be_bytes());
    assert_eq!(
        u16::from_be_bytes([reply[2], reply[3]]) & 0x000f,
        RCODE_SERVFAIL
    );
    assert!(engine.is_idle());
}

#[test]
fn transaction_limit_answers_servfail() {
    let mut engine = Engine::default();
    let now = NOW;
    for _ in 0..MAX_TRANSACTIONS {
        forward(&mut engine, &query(1), now);
    }
    match engine.accept_query(client(), gateway(), &query(1), true, now) {
        QueryDisposition::Respond(reply) => {
            assert_eq!(
                u16::from_be_bytes([reply[2], reply[3]]) & 0x000f,
                RCODE_SERVFAIL
            );
        }
        other => panic!("expected SERVFAIL, got {other:?}"),
    }
}

trait SpliceName {
    fn splice_name(self) -> Vec<u8>;
}

impl SpliceName for Vec<u8> {
    /// Same shape, different qname content.
    fn splice_name(mut self) -> Vec<u8> {
        self[HEADER_LEN + 1] = b'x';
        self
    }
}
