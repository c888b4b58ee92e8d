use yayatht::address_text::parse_address;
use yayatht::cli::{
    CREDENTIAL_READ, CliError, FileFacts, RunOptions, StatusError, check_credential_file,
    launch_config, status_line, status_reply, trim_credential,
};
use yayatht::dataplane::reactor::config::Upstream;
use yayatht::json::{Member, Value};
use yayatht::namespace::config::{
    ConfigError, DnsConfig, DnsMode, LaunchConfig, NetworkConfig, SandboxConfig, UpstreamConfig,
    worker_share,
};
use yayatht::namespace::control::{ExpectError, expect, number_payload, read_number};
use yayatht::namespace::instance::{
    DirectoryFacts, InstanceError, InstanceMetadata, InstanceState, choose_identifier, identifier,
    random_identifier, validate_owned_private_directory,
};
use yayatht::namespace::resolver::{first_nameserver, gateway_resolv_conf};
use yayatht::namespace::supervisor::{
    Cleanup, ControlRead, EndStep, Ending, ExitStatus, KillStep, MetricsStep, NamespaceStep, Phase,
    ReapStep, Role, StartError, WatchAction, WorkerStep, command_is_passable, descriptor_budget,
    end_steps, expect_ready, forwarded_signal, identity_map_text, kill_plan, metrics_request_id,
    metrics_step, namespace_steps, reap, status_request, supervise_control, supervise_processes,
    watch_control, worker_descriptors, worker_steps,
};
use yayatht::namespace::worker_metrics::{
    MetricsError, ReportError, merge_dataplane_metrics, merge_worker_reports,
};
use yayatht::net::{IpAddress, SocketAddress};
use yayatht::proxy_proto::{Credentials, Protocol};
use yayatht::sys::control::{ControlError, Kind, encode};
use yayatht::sys::process::{WaitStatus, wait_any_nohang, wait_pid};

/// `2001:db8::` and the last octet.
fn documentation(last: u8) -> [u8; 16] {
    [0x20, 0x01, 0x0d, 0xb8, 0, 0, 0, 0, 0, 0, 0, 0, 0, 0, 0, last]
}

#[test]
fn first_nameserver_skips_comments_and_options() {
    let contents = "# Generated by NetworkManager\n\
                    options edns0 trust-ad\n\
                    search example.net\n\
                    nameserver 192.0.2.53\n\
                    nameserver 192.0.2.54\n";
    assert_eq!(
        first_nameserver(contents),
        Some(IpAddress::V4([192, 0, 2, 53]))
    );
}

#[test]
fn first_nameserver_accepts_ipv6_and_ignores_garbage() {
    let contents = "nameserver not-an-address\nnameserver 2001:db8::53\n";
    assert_eq!(
        first_nameserver(contents),
        Some(IpAddress::V6(documentation(0x53)))
    );
}

#[test]
fn first_nameserver_handles_empty_host_files() {
    assert_eq!(first_nameserver("# Generated by NetworkManager\n"), None);
}

#[test]
fn first_nameserver_reads_odd_lines() {
    assert_eq!(
        first_nameserver("\t nameserver\u{a0}10.0.0.1 trailing\r\n"),
        Some(IpAddress::V4([10, 0, 0, 1]))
    );
    assert_eq!(first_nameserver("nameserver\nnameserver \u{e9}"), None);
    assert_eq!(first_nameserver("nameservers 10.0.0.1"), None);
    assert_eq!(first_nameserver(""), None);
}

#[test]
fn addresses_are_read_from_text() {
    let mut expected = [0u8; 16];
    assert_eq!(parse_address(b"::"), Some(IpAddress::V6(expected)));
    expected[15] = 1;
    assert_eq!(parse_address(b"::1"), Some(IpAddress::V6(expected)));
    expected[..4].copy_from_slice(&[0xfe, 0x80, 0, 0]);
    assert_eq!(parse_address(b"fe80::1"), Some(IpAddress::V6(expected)));
    assert_eq!(
        parse_address(b"1:2:3:4:5:6:7:8"),
        Some(IpAddress::V6([
            0, 1, 0, 2, 0, 3, 0, 4, 0, 5, 0, 6, 0, 7, 0, 8
        ]))
    );
    assert_eq!(
        parse_address(b"::FFFF:192.0.2.1"),
        Some(IpAddress::V6([
            0, 0, 0, 0, 0, 0, 0, 0, 0, 0, 0xff, 0xff, 192, 0, 2, 1
        ]))
    );
    assert_eq!(
        parse_address(b"1:2:3:4:5:6:192.0.2.1"),
        Some(IpAddress::V6([
            0, 1, 0, 2, 0, 3, 0, 4, 0, 5, 0, 6, 192, 0, 2, 1
        ]))
    );
    for wrong in [
        b"".as_slice(),
        b"1.2.3",
        b"1.2.3.256",
        b"01.2.3.4",
        b"1.2.3.4.5",
        b"+1.2.3.4",
        b"1:2:3:4:5:6:7",
        b"1:2:3:4:5:6:7:8:9",
        b"1:2:3:4:5:6:7:8::",
        b"1::2::3",
        b":::",
        b":1",
        b"12345::",
        b"1.2.3.4::",
        b"g::",
    ] {
        assert_eq!(parse_address(wrong), None);
    }
}

#[test]
fn namespace_resolver_file_reads_back() {
    let both = NetworkConfig::synthetic(true, true, 32000, true);
    let text = String::from_utf8(gateway_resolv_conf(&both)).unwrap();
    assert_eq!(
        text,
        "nameserver 192.0.2.1\nnameserver fd79:6179:6174:6874::1\n"
    );
    assert_eq!(
        first_nameserver(&text),
        Some(IpAddress::V4([192, 0, 2, 1]))
    );
    let v6 = NetworkConfig::synthetic(false, true, 32000, true);
    let text = String::from_utf8(gateway_resolv_conf(&v6)).unwrap();
    assert_eq!(
        first_nameserver(&text),
        v6.gateway_ipv6.map(IpAddress::V6)
    );
}

fn metric(name: &str, value: u64) -> Member {
    Member {
        name: name.as_bytes().to_vec(),
        value: Value::Unsigned(value),
    }
}

fn value_of(metrics: &[Member], name: &str) -> u64 {
    for metric in metrics {
        if metric.name == name.as_bytes() {
            match metric.value {
                Value::Unsigned(value) => return value,
                _ => panic!("{name} is no number"),
            }
        }
    }
    panic!("{name} is missing")
}

#[test]
fn worker_metrics_sum_counters_and_preserve_tap_configuration() {
    let merged = merge_dataplane_metrics(&vec![
        Some(vec![
            metric("tap_rx_packets", 2),
            metric("active_tcp_flows", 1),
            metric("tap_mtu", 32000),
            metric("tap_offload", 1),
            metric("tap_frame_capacity", 32024),
        ]),
        Some(vec![
            metric("tap_rx_packets", 3),
            metric("active_tcp_flows", 4),
            metric("tap_mtu", 32000),
            metric("tap_offload", 1),
            metric("tap_frame_capacity", 32024),
        ]),
    ]);
    let merged = match merged {
        Ok(merged) => merged,
        Err(_) => panic!("refused"),
    };
    assert_eq!(value_of(&merged, "workers"), 2);
    assert_eq!(value_of(&merged, "tap_rx_packets"), 5);
    assert_eq!(value_of(&merged, "active_tcp_flows"), 5);
    assert_eq!(value_of(&merged, "tap_mtu"), 32000);
}

#[test]
fn worker_metrics_reject_inconsistent_tap_configuration() {
    let result = merge_dataplane_metrics(&vec![
        Some(vec![metric("tap_mtu", 1500)]),
        Some(vec![metric("tap_mtu", 32000)]),
    ]);
    assert!(result.is_err());
}

#[test]
fn worker_metrics_report_what_is_wrong() {
    assert!(matches!(
        merge_dataplane_metrics(&vec![]),
        Err(MetricsError::Missing)
    ));
    assert!(matches!(
        merge_dataplane_metrics(&vec![None]),
        Err(MetricsError::Missing)
    ));
    assert!(matches!(
        merge_dataplane_metrics(&vec![Some(vec![]), None]),
        Err(MetricsError::Invalid)
    ));
    match merge_dataplane_metrics(&vec![Some(vec![]), Some(vec![metric("x", 1)])]) {
        Err(MetricsError::Inconsistent(name)) => assert_eq!(name, b"x"),
        _ => panic!("accepted"),
    }
    match merge_dataplane_metrics(&vec![
        Some(vec![metric("tap_mtu", 1)]),
        Some(vec![metric("tap_mtu", 2)]),
    ]) {
        Err(MetricsError::Differs(name)) => assert_eq!(name, b"tap_mtu"),
        _ => panic!("accepted"),
    }
    match merge_dataplane_metrics(&vec![
        Some(vec![metric("x", 1)]),
        Some(vec![Member {
            name: b"x".to_vec(),
            value: Value::Other(b"\"text\"".to_vec()),
        }]),
    ]) {
        Err(MetricsError::NotUnsigned(name)) => assert_eq!(name, b"x"),
        _ => panic!("accepted"),
    }
    let merged = merge_dataplane_metrics(&vec![
        Some(vec![metric("x", u64::MAX)]),
        Some(vec![metric("x", 1)]),
    ]);
    match merged {
        Ok(merged) => assert_eq!(value_of(&merged, "x"), u64::MAX),
        Err(_) => panic!("refused"),
    }
}

fn replies(texts: &[&str]) -> Vec<Vec<u8>> {
    texts.iter().map(|text| text.as_bytes().to_vec()).collect()
}

#[test]
fn worker_replies_are_read_and_merged() {
    let merged = merge_worker_reports(&replies(&[
        "{\"tap_rx_packets\": 2, \"tap_mtu\": 1500, \"note\": -7, \"name\": \"a\\u0062\", \"list\": [1, 2.5]}",
        "{\"tap_mtu\": 1500, \"tap_rx_packets\": 18446744073709551615}",
    ]));
    let merged = match merged {
        Ok(merged) => merged,
        Err(_) => panic!("refused"),
    };
    assert_eq!(value_of(&merged, "tap_rx_packets"), u64::MAX);
    assert_eq!(value_of(&merged, "tap_mtu"), 1500);
    assert_eq!(value_of(&merged, "workers"), 2);
    let names: Vec<&[u8]> = merged.iter().map(|member| &member.name[..]).collect();
    assert_eq!(
        names,
        [&b"list"[..], b"name", b"note", b"tap_mtu", b"tap_rx_packets", b"workers"]
    );
    assert!(matches!(&merged[0].value, Value::Other(text) if text == b"[1,2.5]"));
    assert!(matches!(&merged[1].value, Value::Text(text) if text == b"ab"));
    assert!(matches!(merged[2].value, Value::Negative(-7)));
}

#[test]
fn worker_replies_report_what_is_wrong() {
    assert!(matches!(
        merge_worker_reports(&replies(&["{}", "{", "}"])),
        Err(ReportError::NotJson(1))
    ));
    assert!(matches!(
        merge_worker_reports(&replies(&["[]", "nonsense"])),
        Err(ReportError::NotJson(1))
    ));
    assert!(matches!(
        merge_worker_reports(&replies(&["[]", "{}"])),
        Err(ReportError::Metrics(MetricsError::Missing))
    ));
    assert!(matches!(
        merge_worker_reports(&vec![]),
        Err(ReportError::Metrics(MetricsError::Missing))
    ));
    assert!(matches!(
        merge_worker_reports(&replies(&["{}", "7"])),
        Err(ReportError::Metrics(MetricsError::Invalid))
    ));
    match merge_worker_reports(&replies(&["{\"x\": 1}", "{\"x\": -1}"])) {
        Err(ReportError::Metrics(MetricsError::NotUnsigned(name))) => assert_eq!(name, b"x"),
        _ => panic!("accepted"),
    }
    match merge_worker_reports(&replies(&["{\"tap_mtu\": \"a\"}", "{\"tap_mtu\": \"b\"}"])) {
        Err(ReportError::Metrics(MetricsError::Differs(name))) => assert_eq!(name, b"tap_mtu"),
        _ => panic!("accepted"),
    }
    let same = merge_worker_reports(&replies(&[
        "{\"tap_mtu\": -5, \"tap_offload\": \"on\", \"tap_frame_capacity\": null}",
        "{\"tap_mtu\": -5, \"tap_offload\": \"on\", \"tap_frame_capacity\": null}",
    ]));
    assert!(same.is_ok());
}

fn settings_agree(left: &str, right: &str) -> bool {
    merge_worker_reports(&replies(&[
        &format!("{{\"tap_mtu\": {left}}}"),
        &format!("{{\"tap_mtu\": {right}}}"),
    ]))
    .is_ok()
}

#[test]
fn shared_settings_are_compared_as_json_values() {
    assert!(settings_agree("-0.0", "0.0"));
    assert!(settings_agree("[-0.0, {\"a\": -0}]", "[0.0,{\"a\":0.0}]"));
    assert!(settings_agree("1.50", "15e-1"));
    assert!(settings_agree("{\"a\": 1, \"b\": 2}", "{\"b\": 2, \"a\": 1}"));
    assert!(!settings_agree("-0", "0"));
    assert!(!settings_agree("-0.05", "0.05"));
    assert!(!settings_agree("1", "1.0"));
    assert!(!settings_agree("[\"-0.0\"]", "[\"0.0\"]"));
    assert!(!settings_agree("[\"\\\"-0.0\"]", "[\"\\\"0.0\"]"));
    assert!(settings_agree("[\"\\\\\", -0.0]", "[\"\\\\\", 0.0]"));
}

fn status_packet(payload: &str) -> Vec<u8> {
    match encode(Kind::Status, 1, payload.as_bytes()) {
        Ok(packet) => packet,
        Err(_) => panic!("too long"),
    }
}

fn status_text_of(payload: &str) -> String {
    match status_reply(&status_packet(payload), false) {
        Ok(line) => String::from_utf8_lossy(&line).into_owned(),
        Err(error) => panic!("{error:?}"),
    }
}

#[test]
fn status_is_shown_in_one_line() {
    assert_eq!(
        status_text_of("{\"state\": \"running\", \"target_pid\": 42, \"instance_id\": \"box\"}"),
        "box: running (target pid 42)"
    );
    assert_eq!(status_text_of("{}"), "unknown: unknown (target pid 0)");
    assert_eq!(status_text_of("[1]"), "unknown: unknown (target pid 0)");
    assert_eq!(
        status_text_of("{\"instance_id\": 7, \"state\": null, \"target_pid\": \"9\"}"),
        "unknown: unknown (target pid 0)"
    );
    assert_eq!(
        status_text_of("{\"instance_id\": \"a\", \"state\": \"\", \"target_pid\": -9223372036854775808}"),
        "a:  (target pid -9223372036854775808)"
    );
    assert_eq!(
        status_text_of("{\"target_pid\": 9223372036854775808}"),
        "unknown: unknown (target pid 0)"
    );
    assert_eq!(
        status_text_of("{\"target_pid\": 9223372036854775807}"),
        "unknown: unknown (target pid 9223372036854775807)"
    );
    assert_eq!(
        status_text_of("{\"target_pid\": 1.5}"),
        "unknown: unknown (target pid 0)"
    );
    assert_eq!(
        status_line(&Some(vec![metric("target_pid", 3)])),
        b"unknown: unknown (target pid 3)"
    );
}

#[test]
fn status_reply_is_json_or_refused() {
    let packet = status_packet("{ \"state\": 1 }");
    assert_eq!(status_reply(&packet, true), Ok(b"{ \"state\": 1 }".to_vec()));
    assert_eq!(status_reply(&status_packet("oops"), true), Ok(b"oops".to_vec()));
    assert_eq!(
        status_reply(&status_packet("oops"), false),
        Err(StatusError::NotJson)
    );
    let ready = match encode(Kind::Ready, 1, b"{}") {
        Ok(packet) => packet,
        Err(_) => panic!("too long"),
    };
    assert_eq!(status_reply(&ready, true), Err(StatusError::InvalidReply));
    assert_eq!(status_reply(&ready, false), Err(StatusError::InvalidReply));
    assert_eq!(
        status_reply(&packet[..19], false),
        Err(StatusError::Control(ControlError::InvalidHeader))
    );
}

#[test]
fn credential_that_is_cut_short_is_refused() {
    let mut contents = vec![b'x'; 255];
    contents.extend_from_slice(b"\r\n");
    assert_eq!(
        trim_credential(contents[..CREDENTIAL_READ.min(contents.len())].to_vec()),
        Ok(vec![b'x'; 255])
    );
    contents.extend_from_slice(b"more");
    assert_eq!(
        trim_credential(contents[..CREDENTIAL_READ].to_vec()),
        Err(CliError::CredentialTooLong)
    );
}

fn config() -> LaunchConfig {
    LaunchConfig {
        command: vec![b"true".to_vec()],
        name: None,
        runtime_root: None,
        network: NetworkConfig::synthetic(true, true, 32000, true),
        upstream: UpstreamConfig::Direct {
            host_loopback: false,
        },
        dns: DnsConfig::off(),
        sandbox: SandboxConfig::On,
        workers: 1,
        max_tcp_flows: 4096,
        max_udp_flows: 8192,
        max_udp_associations: 2048,
        max_pending_tcp_bytes: 64 << 20,
        max_retained_tcp_bytes: 64 << 20,
        tcp_receive_buffer_bytes: 256 << 10,
        tcp_send_buffer_bytes: 256 << 10,
    }
}

#[test]
fn settings_are_validated() {
    assert_eq!(config().validate(), Ok(()));
    let mut c = config();
    c.command.clear();
    assert_eq!(c.validate(), Err(ConfigError::EmptyCommand));
    let mut c = config();
    c.network = NetworkConfig::synthetic(false, false, 32000, true);
    assert_eq!(c.validate(), Err(ConfigError::NoIpFamily));
    for mtu in [1279, 65521] {
        let mut c = config();
        c.network.tap_mtu = mtu;
        assert_eq!(c.validate(), Err(ConfigError::InvalidTapMtu));
    }
    for workers in [0, 257] {
        let mut c = config();
        c.workers = workers;
        assert_eq!(c.validate(), Err(ConfigError::InvalidWorkerCount));
    }
    let mut c = config();
    c.workers = 4;
    c.max_udp_flows = 3;
    assert_eq!(c.validate(), Err(ConfigError::InvalidFlowLimit));
    let mut c = config();
    c.max_tcp_flows = 1_048_577;
    assert_eq!(c.validate(), Err(ConfigError::InvalidFlowLimit));
    let mut c = config();
    c.workers = 2;
    c.max_pending_tcp_bytes = 32767;
    assert_eq!(c.validate(), Err(ConfigError::InvalidGlobalByteLimit));
    let mut c = config();
    c.tcp_send_buffer_bytes = 16383;
    assert_eq!(c.validate(), Err(ConfigError::InvalidSocketBufferLimit));
    for (name, valid) in [
        (b"build-net_1.2".as_slice(), true),
        (b"", false),
        (b"a/b", false),
    ] {
        let mut c = config();
        c.name = Some(name.to_vec());
        assert_eq!(c.validate().is_ok(), valid);
    }
}

#[test]
fn workers_share_the_limits() {
    let mut c = config();
    c.workers = 3;
    c.max_tcp_flows = 11;
    let parts: Vec<usize> = (0..3).map(|i| c.dataplane(i).max_tcp_flows).collect();
    assert_eq!(parts, [4, 4, 3]);
    assert_eq!(worker_share(7, 7, 6), 1);
    assert_eq!(c.dataplane(0).tcp_send_buffer_bytes, 256 << 10);
    assert!(!c.dataplane(0).dns_proxy_tcp);
    c.dns.mode = DnsMode::ProxyTcp;
    assert!(c.dataplane(0).dns_proxy_tcp);
    assert_eq!(c.dataplane(0).target_ipv4, Some([192, 0, 2, 2]));
}

#[test]
fn descriptor_budget_covers_the_largest_process() {
    let c = config();
    assert_eq!(descriptor_budget(&c), Ok(16416));
    assert_eq!(worker_descriptors(&c, 0), Ok(16416));
    let mut c = config();
    c.workers = 256;
    c.max_tcp_flows = 256;
    c.max_udp_flows = 256;
    c.max_udp_associations = 256;
    assert_eq!(descriptor_budget(&c), Ok(1056));
}

#[test]
fn credentials_are_forgotten() {
    let mut c = config();
    c.upstream = UpstreamConfig::Proxy {
        protocol: Protocol::Socks5,
        address: SocketAddress::new(IpAddress::V4([127, 0, 0, 1]), 1080),
        credentials: Some(Credentials::new(b"u".to_vec(), b"p".to_vec()).unwrap()),
    };
    match c.dataplane(0).upstream {
        Upstream::Proxy { credentials, .. } => {
            assert_eq!(credentials.unwrap().password(), b"p")
        }
        Upstream::Direct { .. } => panic!("direct"),
    }
    c.clear_proxy_credentials();
    match c.dataplane(0).upstream {
        Upstream::Proxy {
            credentials,
            protocol,
            ..
        } => {
            assert!(credentials.is_none());
            assert_eq!(protocol, Protocol::Socks5);
        }
        Upstream::Direct { .. } => panic!("direct"),
    }
}

#[test]
fn expected_messages_are_told_apart() {
    let ready = encode(Kind::Ready, 1, b"body").unwrap();
    match expect(&ready, Kind::Ready) {
        Ok(payload) => assert_eq!(payload, b"body"),
        Err(_) => panic!("refused"),
    }
    assert!(matches!(
        expect(&ready, Kind::Exec),
        Err(ExpectError::Unexpected(Kind::Ready))
    ));
    let error = encode(Kind::Error, 0, b"broken").unwrap();
    match expect(&error, Kind::Ready) {
        Err(ExpectError::Reported(text)) => assert_eq!(text, b"broken"),
        _ => panic!("accepted"),
    }
    assert!(matches!(
        expect(b"junk", Kind::Ready),
        Err(ExpectError::Control(ControlError::InvalidHeader))
    ));
    assert!(expect_ready(&ready, Role::DataPlane).is_ok());
    assert!(matches!(
        expect_ready(&error, Role::Namespace),
        Err(StartError::Namespace(_))
    ));
    assert!(matches!(
        expect_ready(&error, Role::DataPlane),
        Err(StartError::Dataplane(_))
    ));
}

#[test]
fn numbers_round_trip() {
    for number in [0, 1, -1, i32::MIN, i32::MAX, 4711] {
        assert_eq!(read_number(&number_payload(number)), Some(number));
    }
    assert_eq!(number_payload(258), [2, 1, 0, 0]);
    assert_eq!(read_number(&[1, 2, 3]), None);
}

#[test]
fn identifiers_are_hexadecimal() {
    let text = identifier([
        0, 1, 2, 3, 4, 5, 6, 7, 8, 9, 0xa0, 0xbc, 0xde, 0xf1, 0x7f, 0xff,
    ]);
    assert_eq!(text, b"00010203040506070809a0bcdef17fff");
    let first = random_identifier().unwrap();
    assert_eq!(first.len(), 32);
    assert!(first.iter().all(|b| b.is_ascii_hexdigit()));
    assert_ne!(first, random_identifier().unwrap());
    assert_eq!(choose_identifier(Some(b"mine")).unwrap(), b"mine");
    assert_eq!(choose_identifier(None).unwrap().len(), 32);
}

#[test]
fn runtime_directories_must_be_private() {
    let good = DirectoryFacts {
        is_directory: true,
        is_symlink: false,
        owner: 1000,
        mode: 0o40700,
    };
    assert_eq!(validate_owned_private_directory(good, 1000), Ok(()));
    assert_eq!(
        validate_owned_private_directory(good, 1001),
        Err(InstanceError::NotPrivate)
    );
    assert_eq!(
        validate_owned_private_directory(
            DirectoryFacts {
                mode: 0o40750,
                ..good
            },
            1000
        ),
        Err(InstanceError::NotPrivate)
    );
    assert_eq!(
        validate_owned_private_directory(
            DirectoryFacts {
                is_symlink: true,
                ..good
            },
            1000
        ),
        Err(InstanceError::NotADirectory)
    );
}

#[test]
fn instance_record_follows_the_instance() {
    let mut record =
        InstanceMetadata::starting(b"id".to_vec(), b"nonce".to_vec(), b"1".to_vec(), 5, 6);
    assert_eq!(record.state, InstanceState::Starting);
    record.update_children(vec![10, 11], 12, 13);
    assert_eq!(record.dataplane_pid, Some(10));
    assert_eq!(record.dataplane_worker_pids, [10, 11]);
    record.set_target(14);
    assert_eq!(record.target_pid, Some(14));
    assert_eq!(record.state, InstanceState::Running);
    record.set_state(InstanceState::Exited);
    assert_eq!(record.state, InstanceState::Exited);
    assert!(record.owns(Some(b"nonce")));
    assert!(!record.owns(Some(b"other")));
    assert!(!record.owns(None));
}

#[test]
fn startup_has_one_order() {
    let mut phase = Phase::first();
    let mut seen = vec![phase];
    while phase != Phase::Done {
        phase = phase.next(2);
        seen.push(phase);
    }
    assert_eq!(
        seen,
        [
            Phase::SpawnWorker(0),
            Phase::SpawnWorker(1),
            Phase::ForgetCredentials,
            Phase::SpawnNamespace,
            Phase::MapWorker(0),
            Phase::MapWorker(1),
            Phase::MapNamespace,
            Phase::ReleaseWorker(0),
            Phase::ReleaseWorker(1),
            Phase::ReleaseNamespace,
            Phase::AwaitNamespace,
            Phase::AwaitWorker(0),
            Phase::AwaitWorker(1),
            Phase::RecordChildren,
            Phase::SendExec,
            Phase::AwaitTarget,
            Phase::RecordTarget,
            Phase::Supervise,
            Phase::RecordExit,
            Phase::Done,
        ]
    );
    assert_eq!(Phase::SpawnWorker(1).cleanup(), Cleanup::Workers);
    assert_eq!(Phase::AwaitTarget.cleanup(), Cleanup::Everybody);
    assert_eq!(Phase::RecordExit.cleanup(), Cleanup::Nothing);
    assert_eq!(ExitStatus { code: 3 }.code, 3);
}

#[test]
fn everybody_is_killed_before_anybody_is_awaited() {
    assert_eq!(
        kill_plan(2, true),
        [
            KillStep::KillWorker(0),
            KillStep::KillWorker(1),
            KillStep::KillNamespace,
            KillStep::WaitWorker(0),
            KillStep::WaitWorker(1),
            KillStep::WaitNamespace,
        ]
    );
    assert_eq!(
        kill_plan(1, false),
        [KillStep::KillWorker(0), KillStep::WaitWorker(0)]
    );
}

#[test]
fn sandbox_comes_before_ready() {
    let steps = worker_steps(SandboxConfig::On);
    assert_eq!(steps.len(), 11);
    assert_eq!(steps[8], WorkerStep::InstallFilter);
    assert_eq!(steps[9], WorkerStep::SendReady);
    assert!(!worker_steps(SandboxConfig::Off).contains(&WorkerStep::InstallFilter));
    let steps = namespace_steps(2, true);
    assert_eq!(steps[3], NamespaceStep::BindResolver);
    assert_eq!(steps[4], NamespaceStep::CreateTaps { multi_queue: true });
    assert_eq!(
        namespace_steps(1, false)[3],
        NamespaceStep::CreateTaps { multi_queue: false }
    );
}

#[test]
fn children_are_reaped() {
    let mut status = None;
    assert_eq!(reap(&mut status, 7, None), ReapStep::Sleep);
    assert_eq!(
        reap(&mut status, 7, Some((8, WaitStatus::Exited(9)))),
        ReapStep::Again
    );
    assert_eq!(status, None);
    assert_eq!(
        reap(&mut status, 7, Some((7, WaitStatus::Signaled(15)))),
        ReapStep::Again
    );
    assert_eq!(status, Some(143));
    assert_eq!(
        reap(&mut status, 7, Some((-1, WaitStatus::StillRunning))),
        ReapStep::Sleep
    );
    assert_eq!(reap(&mut status, 7, None), ReapStep::Finish(143));
    assert_eq!(forwarded_signal(17), None);
    assert_eq!(forwarded_signal(2), Some(2));
    assert_eq!(wait_pid(-1, 10, 0), Ok(WaitStatus::NoChildren));
    assert_eq!(wait_pid(-1, 4, 0), Err(4));
    assert_eq!(wait_pid(5, 0, 3 << 8), Ok(WaitStatus::Exited(3)));
    assert_eq!(wait_any_nohang(-1, 10, 0), Ok(None));
    assert_eq!(
        wait_any_nohang(0, 0, 0),
        Ok(Some((-1, WaitStatus::StillRunning)))
    );
    assert_eq!(
        wait_any_nohang(6, 0, 9),
        Ok(Some((6, WaitStatus::Signaled(9))))
    );
}

#[test]
fn control_channels_are_watched() {
    assert_eq!(
        watch_control(ControlRead::Message {
            kind: Kind::Shutdown,
            payload: &[]
        }),
        WatchAction::Terminate
    );
    assert_eq!(watch_control(ControlRead::Closed), WatchAction::Terminate);
    assert_eq!(watch_control(ControlRead::WouldBlock), WatchAction::Nothing);
    assert_eq!(watch_control(ControlRead::Failed), WatchAction::Fail);
    let exit = number_payload(42);
    match supervise_control(ControlRead::Message {
        kind: Kind::Exit,
        payload: &exit,
    }) {
        Some(Ending::Exited(code)) => assert_eq!(code, 42),
        _ => panic!("missed"),
    }
    assert!(matches!(
        supervise_control(ControlRead::Message {
            kind: Kind::Exit,
            payload: &[1]
        }),
        Some(Ending::InvalidExit)
    ));
    assert!(matches!(
        supervise_control(ControlRead::Closed),
        Some(Ending::ControlClosed)
    ));
    assert!(supervise_control(ControlRead::WouldBlock).is_none());
    assert!(matches!(
        supervise_processes(
            &[WaitStatus::StillRunning, WaitStatus::Exited(1)],
            WaitStatus::StillRunning
        ),
        Some(Ending::WorkerGone(1))
    ));
    assert!(matches!(
        supervise_processes(&[WaitStatus::StillRunning], WaitStatus::Exited(0)),
        Some(Ending::NamespaceGone)
    ));
    assert_eq!(
        end_steps(&Ending::WorkerGone(1)),
        [
            EndStep::ShutDownWorkers,
            EndStep::TerminateNamespace,
            EndStep::WaitNamespace,
            EndStep::WaitWorkers
        ]
    );
    assert!(end_steps(&Ending::ControlClosed).is_empty());
}

#[test]
fn counters_are_asked_for() {
    let id = metrics_request_id(3);
    assert_eq!(id, 0x6d65_7472_6963_7303);
    let answer = ControlRead::Message {
        kind: Kind::Status,
        payload: b"{}",
    };
    assert_eq!(metrics_step(answer, id, id, false), MetricsStep::Take);
    assert_eq!(metrics_step(answer, id, 1, true), MetricsStep::Again);
    assert_eq!(
        metrics_step(ControlRead::WouldBlock, id, 0, false),
        MetricsStep::Wait
    );
    assert_eq!(
        metrics_step(ControlRead::WouldBlock, id, 0, true),
        MetricsStep::TimedOut
    );
    assert_eq!(
        metrics_step(ControlRead::Closed, id, 0, false),
        MetricsStep::Fail
    );
    assert_eq!(
        status_request(&encode(Kind::Status, 9, &[]).unwrap()),
        Ok(Some(9))
    );
    assert_eq!(
        status_request(&encode(Kind::Ready, 9, &[]).unwrap()),
        Ok(None)
    );
}

#[test]
fn identity_maps_and_commands() {
    assert_eq!(identity_map_text(1000), b"0 1000 1\n");
    assert_eq!(identity_map_text(0), b"0 0 1\n");
    assert!(command_is_passable(&vec![b"a".to_vec(), b"".to_vec()]));
    assert!(!command_is_passable(&vec![b"a".to_vec(), b"b\0".to_vec()]));
}

fn options() -> RunOptions {
    let c = config();
    RunOptions {
        direct: true,
        socks5: None,
        http_connect: None,
        username: None,
        password: None,
        host_loopback: false,
        no_ipv4: false,
        no_ipv6: true,
        tap_mtu: 1500,
        tap_offload: false,
        name: None,
        runtime_dir: None,
        dns: DnsConfig::off(),
        sandbox: SandboxConfig::Off,
        workers: 1,
        max_tcp_flows: c.max_tcp_flows,
        max_udp_flows: c.max_udp_flows,
        max_udp_associations: c.max_udp_associations,
        max_pending_tcp_bytes: c.max_pending_tcp_bytes,
        max_retained_tcp_bytes: c.max_retained_tcp_bytes,
        tcp_receive_buffer_bytes: c.tcp_receive_buffer_bytes,
        tcp_send_buffer_bytes: c.tcp_send_buffer_bytes,
        command: vec![b"true".to_vec()],
    }
}

#[test]
fn options_make_settings() {
    let c = launch_config(options()).ok().unwrap();
    assert_eq!(c.validate(), Ok(()));
    assert_eq!(c.network.tap_mtu, 1500);
    assert!(c.network.target_ipv6.is_none());
    let proxy = SocketAddress::new(IpAddress::V4([127, 0, 0, 1]), 3128);
    let mut o = options();
    o.direct = false;
    o.http_connect = Some(proxy);
    o.username = Some(b"u".to_vec());
    o.password = Some(b"p".to_vec());
    match launch_config(o).ok().unwrap().upstream {
        UpstreamConfig::Proxy {
            protocol,
            address,
            credentials,
        } => {
            assert_eq!(protocol, Protocol::HttpConnect);
            assert_eq!(address, proxy);
            assert_eq!(credentials.unwrap().username(), b"u");
        }
        UpstreamConfig::Direct { .. } => panic!("direct"),
    }
}

#[test]
fn options_that_do_not_go_together() {
    let proxy = SocketAddress::new(IpAddress::V4([127, 0, 0, 1]), 3128);
    let mut o = options();
    o.username = Some(b"u".to_vec());
    assert_eq!(
        launch_config(o).err(),
        Some(CliError::IncompleteCredentials)
    );
    let mut o = options();
    o.username = Some(b"u".to_vec());
    o.password = Some(Vec::new());
    assert_eq!(launch_config(o).err(), Some(CliError::InvalidCredentials));
    let mut o = options();
    o.username = Some(b"u".to_vec());
    o.password = Some(b"p".to_vec());
    assert_eq!(
        launch_config(o).err(),
        Some(CliError::CredentialsWithoutProxy)
    );
    let mut o = options();
    o.direct = false;
    o.socks5 = Some(proxy);
    o.host_loopback = true;
    assert_eq!(launch_config(o).err(), Some(CliError::LoopbackWithProxy));
    let mut o = options();
    o.socks5 = Some(proxy);
    assert_eq!(launch_config(o).err(), Some(CliError::UpstreamNotUnique));
}

#[test]
fn credential_files_are_checked() {
    let good = FileFacts {
        is_regular: true,
        owner: 1000,
        mode: 0o100600,
    };
    assert_eq!(check_credential_file(good, 1000), Ok(()));
    assert_eq!(
        check_credential_file(
            FileFacts {
                is_regular: false,
                ..good
            },
            1000
        ),
        Err(CliError::NotARegularFile)
    );
    assert_eq!(check_credential_file(good, 0), Err(CliError::NotOwned));
    assert_eq!(
        check_credential_file(
            FileFacts {
                mode: 0o100640,
                ..good
            },
            1000
        ),
        Err(CliError::NotPrivate)
    );
    assert_eq!(trim_credential(b"secret\r\n".to_vec()), Ok(b"secret".to_vec()));
    assert_eq!(trim_credential(b"secret\n\n".to_vec()), Ok(b"secret\n".to_vec()));
    assert_eq!(trim_credential(b"secret\r".to_vec()), Ok(b"secret\r".to_vec()));
    assert_eq!(
        trim_credential(vec![b'x'; 256]),
        Err(CliError::CredentialTooLong)
    );
}
