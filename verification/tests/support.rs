use yayatht::endpoint_text::{parse_resolver, parse_socket_address};
use yayatht::net::{IpAddress, SocketAddress};
use yayatht::proxy_proto::{Command, Credentials, Error, Handshake, Protocol, SocksAddress};
use yayatht::support::bench_io::{
    BUFFER_SIZE, Transfer, chunk_len, count_received, sink_step, total_received,
};
use yayatht::support::bench_proxy::{
    Step, Tunnel, answer_auth, answer_connect, answer_greeting, read_auth, read_greeting,
    read_socks_target, read_tunnel_request, request_step,
};
use yayatht::support::dns_client::{build_query, describe, parse_response, skip_name};
use yayatht::support::soak::{
    bind_address, dns_query, dns_reply_is_valid, stamped_payload, summary,
};

fn v4(octets: [u8; 4], port: u16) -> SocketAddress {
    SocketAddress::new(IpAddress::V4(octets), port)
}

fn answer() -> Vec<u8> {
    let mut message = build_query(0x0102, b"a.example", None);
    message[2] = 0x83;
    message[3] = 0x80;
    message[7] = 1;
    message.extend_from_slice(&[0xc0, 12, 0, 1, 0, 1, 0, 0, 0, 60, 0, 4, 192, 0, 2, 9]);
    message
}

#[test]
fn query_holds_its_labels() {
    let message = build_query(0x2b1d, b"ab.c", None);
    assert_eq!(
        message,
        vec![
            0x2b, 0x1d, 1, 0, 0, 1, 0, 0, 0, 0, 0, 0, 2, b'a', b'b', 1, b'c', 0, 0, 1, 0, 1
        ]
    );
    let edns = build_query(1, b"x", Some(1_232));
    assert_eq!(edns[11], 1);
    assert_eq!(
        &edns[edns.len() - 11..],
        &[0, 0, 41, 4, 0xd0, 0, 0, 0, 0, 0, 0]
    );
    assert_eq!(skip_name(&message, 12), Some(18));
    assert_eq!(skip_name(&[0xc0, 12], 0), Some(2));
    assert_eq!(skip_name(&[3, b'a'], 0), None);
}

#[test]
fn answers_are_summarized() {
    let message = answer();
    let response = parse_response(&message).unwrap();
    assert_eq!(response.id, 0x0102);
    assert_eq!(response.first_a, Some([192, 0, 2, 9]));
    assert!(response.truncated);
    let text = String::from_utf8(describe(0x0102, Some(&message))).unwrap();
    assert_eq!(text, "rcode=0 tc=1 answers=1 a=192.0.2.9 len=43 id=ok");
    let other = String::from_utf8(describe(1, Some(&message))).unwrap();
    assert!(other.ends_with("id=bad"));
    assert_eq!(describe(1, None), b"timeout");
    assert_eq!(describe(1, Some(&[0; 11])), b"timeout");
    assert!(parse_response(&message[..20]).is_none());
}

#[test]
fn answers_without_an_address_say_so() {
    let mut message = answer();
    let length = message.len();
    message[length - 13] = 28;
    let text = String::from_utf8(describe(0x0102, Some(&message))).unwrap();
    assert!(text.contains(" a=none "));
}

#[test]
fn greeting_is_read_in_steps() {
    assert_eq!(read_greeting(&[], false), Step::Need(2));
    assert_eq!(read_greeting(&[5, 2], false), Step::Need(2));
    assert_eq!(read_greeting(&[5, 2, 0, 2], true), Step::Done(true));
    assert_eq!(read_greeting(&[5, 1, 0], true), Step::Done(false));
    assert_eq!(
        read_greeting(&[4, 1], false),
        Step::Refused("invalid SOCKS5 greeting")
    );
    assert_eq!(answer_greeting(true, true), [5, 2]);
    assert_eq!(answer_greeting(true, false), [5, 0]);
    assert_eq!(answer_greeting(false, true), [5, 0xff]);
}

#[test]
fn passwords_are_compared() {
    assert_eq!(read_auth(&[1], b"u", b"p"), Step::Need(1));
    assert_eq!(read_auth(&[1, 1, b'u'], b"u", b"p"), Step::Need(1));
    assert_eq!(read_auth(&[1, 1, b'u', 1], b"u", b"p"), Step::Need(1));
    assert_eq!(read_auth(&[1, 1, b'u', 1, b'p'], b"u", b"p"), Step::Done(true));
    assert_eq!(read_auth(&[1, 1, b'u', 1, b'q'], b"u", b"p"), Step::Done(false));
    assert_eq!(
        read_auth(&[2, 0], b"u", b"p"),
        Step::Refused("invalid SOCKS5 auth version")
    );
    assert_eq!(answer_auth(true), [1, 0]);
    assert_eq!(answer_auth(false), [1, 1]);
}

#[test]
fn socks_targets_are_read() {
    assert_eq!(read_socks_target(&[5, 1, 0]), Step::Need(1));
    assert_eq!(read_socks_target(&[5, 1, 0, 1]), Step::Need(6));
    assert_eq!(
        read_socks_target(&[5, 1, 0, 1, 192, 0, 2, 1, 0, 80]),
        Step::Done(SocksAddress::Socket(v4([192, 0, 2, 1], 80)))
    );
    assert_eq!(read_socks_target(&[5, 1, 0, 3]), Step::Need(1));
    assert_eq!(
        read_socks_target(&[5, 1, 0, 3, 2, b'h', b'i', 1, 0]),
        Step::Done(SocksAddress::Domain {
            name: b"hi".to_vec(),
            port: 256
        })
    );
    assert_eq!(
        read_socks_target(&[5, 1, 0, 3, 1, 0xff]),
        Step::Refused("SOCKS5 host name is not text")
    );
    assert_eq!(
        read_socks_target(&[5, 2, 0, 1]),
        Step::Refused("invalid SOCKS5 CONNECT request")
    );
    assert_eq!(
        read_socks_target(&[5, 1, 0, 9]),
        Step::Refused("unsupported SOCKS5 address type")
    );
    assert_eq!(answer_connect(true), [5, 0, 0, 1, 0, 0, 0, 0, 0, 0]);
    assert_eq!(answer_connect(false)[1], 5);
}

#[test]
fn proxy_understands_the_client() {
    let credentials = Credentials::new(b"user".to_vec(), b"secret".to_vec()).unwrap();
    let target = v4([198, 51, 100, 7], 443);
    let mut client = Handshake::new(
        Protocol::Socks5,
        Command::Connect,
        target,
        Some(credentials.clone()),
    )
    .unwrap();
    assert_eq!(read_greeting(client.output(), true), Step::Done(true));
    let length = client.output().len();
    client.advance_output(length).unwrap();
    client.receive(&answer_greeting(true, true)).unwrap();
    assert_eq!(
        read_auth(client.output(), b"user", b"secret"),
        Step::Done(true)
    );
    let length = client.output().len();
    client.advance_output(length).unwrap();
    client.receive(&answer_auth(true)).unwrap();
    assert_eq!(
        read_socks_target(client.output()),
        Step::Done(SocksAddress::Socket(target))
    );
    let length = client.output().len();
    client.advance_output(length).unwrap();
    client.receive(&answer_connect(true)).unwrap();
    assert!(client.is_complete());

    let http = Handshake::new(
        Protocol::HttpConnect,
        Command::Connect,
        target,
        Some(credentials),
    )
    .unwrap();
    let request = http.output();
    assert_eq!(request_step(request), Step::Done(()));
    assert_eq!(
        read_tunnel_request(request, Some((b"user", b"secret"))),
        Tunnel::Open(target)
    );
    assert_eq!(
        read_tunnel_request(request, Some((b"user", b"other"))),
        Tunnel::Unauthorized
    );
    assert_eq!(read_tunnel_request(request, None), Tunnel::Open(target));
}

#[test]
fn tunnel_requests_are_refused() {
    let refused = |request: &[u8]| read_tunnel_request(request, None);
    assert_eq!(
        refused(b"GET / HTTP/1.1\r\n\r\n"),
        Tunnel::Refused("expected HTTP CONNECT")
    );
    assert_eq!(
        refused(b"CONNECT\r\n\r\n"),
        Tunnel::Refused("missing CONNECT authority")
    );
    assert_eq!(
        refused(b"CONNECT example.net:80 HTTP/1.1\r\n\r\n"),
        Tunnel::Refused("invalid CONNECT authority")
    );
    assert_eq!(
        refused(b"CONNECT \xff\r\n\r\n"),
        Tunnel::Refused("HTTP CONNECT request is not text")
    );
    let spaced = "CONNECT\u{2003}192.0.2.1:80 HTTP/1.1\r\nPROXY-authorization:\u{a0}Basic dTpw \r\n\r\n";
    assert_eq!(
        read_tunnel_request(spaced.as_bytes(), Some((b"u", b"p"))),
        Tunnel::Open(v4([192, 0, 2, 1], 80))
    );
    assert_eq!(request_step(b"CONNECT"), Step::Need(1));
    assert_eq!(
        request_step(&[b'x'; 8192]),
        Step::Refused("HTTP CONNECT request headers are too large")
    );
}

#[test]
fn endpoints_are_read_from_text() {
    assert_eq!(
        parse_socket_address(b"192.0.2.1:8080"),
        Some(v4([192, 0, 2, 1], 8080))
    );
    let loopback = [0, 0, 0, 0, 0, 0, 0, 0, 0, 0, 0, 0, 0, 0, 0, 1];
    assert_eq!(
        parse_socket_address(b"[::1]:53"),
        Some(SocketAddress::v6(loopback, 53))
    );
    let zoned = parse_socket_address(b"[::1%3]:53").unwrap();
    assert_eq!(zoned.scope_id, 3);
    assert_eq!(parse_socket_address(b"192.0.2.1"), None);
    assert_eq!(parse_socket_address(b"192.0.2.1:65536"), None);
    assert_eq!(parse_socket_address(b"192.0.2.1:+5"), None);
    assert_eq!(parse_socket_address(b"[::1]"), None);
    assert_eq!(parse_socket_address(b"::1:53"), None);
    assert_eq!(parse_resolver(b"9.9.9.9"), Some(v4([9, 9, 9, 9], 53)));
    assert_eq!(parse_resolver(b"9.9.9.9:5353"), Some(v4([9, 9, 9, 9], 5353)));
    assert_eq!(parse_resolver(b"::1"), Some(SocketAddress::v6(loopback, 53)));
    assert_eq!(parse_resolver(b"resolver"), None);
}

#[test]
fn transfers_are_cut_and_counted() {
    assert_eq!(chunk_len(10), 10);
    assert_eq!(chunk_len(1 << 40), BUFFER_SIZE);
    assert_eq!(sink_step(0, 100_000), Transfer::Read(65_536));
    assert_eq!(sink_step(65_536, 100_000), Transfer::Read(34_464));
    assert_eq!(sink_step(100_000, 100_000), Transfer::Complete);
    assert_eq!(count_received(5, 3), Ok(8));
    assert_eq!(count_received(5, 0), Err("early EOF"));
    assert_eq!(count_received(u64::MAX, 1), Err("byte count overflow"));
    assert_eq!(total_received(&[1, 2, 3]), Ok(6));
    assert_eq!(
        total_received(&[u64::MAX, 1]),
        Err("total byte count overflow")
    );
}

#[test]
fn soak_rounds_are_stamped() {
    let payload = stamped_payload(0x0102, 0x5a, 12);
    assert_eq!(payload, vec![2, 1, 0, 0, 0, 0, 0, 0, 0x5a, 0x5a, 0x5a, 0x5a]);
    let query = dns_query(9);
    assert_eq!(query, build_query(9, b"phase2.soak", None));
    let mut reply = query.clone();
    assert!(dns_reply_is_valid(9, &reply));
    assert!(!dns_reply_is_valid(8, &reply));
    reply[3] |= 2;
    assert!(!dns_reply_is_valid(9, &reply));
    assert_eq!(bind_address(v4([9, 9, 9, 9], 1)), v4([0; 4], 0));
    assert_eq!(
        String::from_utf8(summary(2)).unwrap(),
        "iterations=2 tcp_bytes=8192 udp_bytes=2048 dns_queries=2"
    );
}

#[test]
fn proxy_answers_are_understood() {
    let target = v4([198, 51, 100, 7], 443);
    let greeted = || {
        let mut client =
            Handshake::new(Protocol::Socks5, Command::Connect, target, None).unwrap();
        let length = client.output().len();
        client.advance_output(length).unwrap();
        client
    };
    let mut client = greeted();
    assert_eq!(
        client.receive(&answer_greeting(false, false)),
        Err(Error::UnsupportedSocksMethod(0xff))
    );
    let mut client = greeted();
    client.receive(&answer_greeting(true, false)).unwrap();
    let length = client.output().len();
    client.advance_output(length).unwrap();
    assert_eq!(
        client.receive(&answer_connect(false)),
        Err(Error::SocksCommandFailed(5))
    );
    assert_eq!(client.receive(&answer_connect(true)), Ok(10));
    assert!(client.is_complete());
}

#[test]
fn tunnel_request_is_complete_at_its_end_only() {
    let target = v4([198, 51, 100, 7], 443);
    let http = Handshake::new(Protocol::HttpConnect, Command::Connect, target, None).unwrap();
    let request = http.output();
    for length in 0..request.len() {
        assert_eq!(request_step(&request[..length]), Step::Need(1));
    }
    assert_eq!(request_step(request), Step::Done(()));
    let v6 = SocketAddress::v6([0xfd, 0, 0, 0, 0, 0, 0, 0, 0, 0, 0, 0, 0, 0, 0, 9], 8443);
    let http = Handshake::new(Protocol::HttpConnect, Command::Connect, v6, None).unwrap();
    assert_eq!(read_tunnel_request(http.output(), None), Tunnel::Open(v6));
}
