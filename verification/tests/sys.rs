use yayatht::net::{IpAddress, SocketAddress};
use yayatht::sys::control::{self, ControlAction, ControlError, Kind};
use yayatht::sys::netlink::{self, Attribute, Ipv4Plan, Ipv6Plan, NetlinkError, Reply};
use yayatht::sys::process::{WaitStatus, decode_status, exec_failure_code};
use yayatht::sys::reactor;
use yayatht::sys::resource::{ResourceError, dataplane_nofile_limit, ensure_nofile_capacity};
use yayatht::sys::seccomp::{
    self, AUDIT_ARCH_X86_64, Instruction, RET_ALLOW, RET_KILL_PROCESS, RET_LOG, RETURN,
    SeccompError, build_filter,
};
use yayatht::sys::socket::{
    self, ControlRecord, RightsRecord, SocketError, TxTimestampDrain, count_drained,
    read_address, received_descriptor, socket_address,
};
use yayatht::sys::tcp_info::{BYTES_ACKED_END, TcpInfoError, decode_bytes_acked};
use yayatht::sys::tun::{TunError, interface_name, tap_flags};

#[test]
fn default_phase2_budget_includes_udp_association_pairs() {
    assert_eq!(dataplane_nofile_limit(4096, 8192, 2048).unwrap(), 16416);
}

#[test]
fn descriptor_limits_are_held() {
    assert_eq!(
        dataplane_nofile_limit(usize::MAX, 1, 1),
        Err(ResourceError::BudgetOverflow)
    );
    assert_eq!(ensure_nofile_capacity(1024, 1024), Ok(()));
    assert_eq!(
        ensure_nofile_capacity(1025, 1024),
        Err(ResourceError::HardLimit {
            available: 1024,
            required: 1025
        })
    );
}

#[test]
fn filter_guards_architecture_and_defaults_to_kill() {
    let filter = build_filter(
        AUDIT_ARCH_X86_64,
        &[libc::SYS_read, libc::SYS_write],
        RET_KILL_PROCESS,
    )
    .unwrap();
    assert_eq!(filter[2].code, RETURN);
    assert_eq!(filter[2].k, RET_KILL_PROCESS);
    assert_eq!(filter[5].k, RET_ALLOW);
    assert_eq!(filter.last().unwrap().k, RET_KILL_PROCESS);
}

/// Runs a filter as the kernel would.
fn run(filter: &[Instruction], arch: u32, number: u32) -> u32 {
    let mut word = 0;
    let mut at = 0;
    loop {
        let step = filter[at];
        at += 1;
        match step.code {
            0x20 => word = if step.k == 4 { arch } else { number },
            0x15 => at += usize::from(if word == step.k { step.jt } else { step.jf }),
            _ => return step.k,
        }
    }
}

#[test]
fn filter_lets_exactly_the_listed_calls_through() {
    let filter = build_filter(AUDIT_ARCH_X86_64, &[0, 1, 60], seccomp::default_action(false)).unwrap();
    assert_eq!(filter.len(), 11);
    assert_eq!(run(&filter, AUDIT_ARCH_X86_64, 60), RET_ALLOW);
    assert_eq!(run(&filter, AUDIT_ARCH_X86_64, 59), RET_KILL_PROCESS);
    assert_eq!(run(&filter, 0x4000_0003, 60), RET_KILL_PROCESS);
    let traced = build_filter(AUDIT_ARCH_X86_64, &[0], seccomp::default_action(true)).unwrap();
    assert_eq!(run(&traced, AUDIT_ARCH_X86_64, 2), RET_LOG);
    assert_eq!(seccomp::program_len(&filter), Ok(11));
    assert_eq!(
        build_filter(AUDIT_ARCH_X86_64, &[-1], RET_LOG),
        Err(SeccompError::InvalidSyscall)
    );
}

#[test]
fn bytes_acked_requires_the_full_field() {
    assert_eq!(decode_bytes_acked(17, BYTES_ACKED_END).unwrap(), 17);
    assert_eq!(
        decode_bytes_acked(17, BYTES_ACKED_END - 1),
        Err(TcpInfoError::Unsupported)
    );
}

#[test]
fn multiqueue_flag_is_opt_in() {
    let single = tap_flags(true, false);
    let multi = tap_flags(true, true);
    assert_eq!(single & libc::IFF_MULTI_QUEUE, 0);
    assert_ne!(multi & libc::IFF_MULTI_QUEUE, 0);
    assert_ne!(multi & libc::IFF_VNET_HDR, 0);
}

#[test]
fn interface_names_are_bounded() {
    let mut expected = [0u8; 16];
    expected[..5].copy_from_slice(b"yaya0");
    assert_eq!(interface_name(b"yaya0"), Ok(expected));
    assert_eq!(
        interface_name(b"0123456789abcdef"),
        Err(TunError::NameTooLong)
    );
    assert_eq!(interface_name(b"a\0b"), Err(TunError::NameContainsNul));
}

#[test]
fn control_messages_round_trip() {
    let bytes = control::encode(Kind::Status, 0x0102_0304_0506_0708, b"payload").unwrap();
    assert_eq!(&bytes[..8], b"YAYA\x01\x00\x07\x00");
    assert_eq!(&bytes[12..20], &[8, 7, 6, 5, 4, 3, 2, 1]);
    let message = control::decode(&bytes).unwrap();
    assert_eq!(message.kind, Kind::Status);
    assert_eq!(message.request_id, 0x0102_0304_0506_0708);
    assert_eq!(message.payload, b"payload");
}

#[test]
fn control_messages_are_checked() {
    assert_eq!(
        control::encode(Kind::Exit, 1, &[0; 4097]),
        Err(ControlError::PayloadTooLarge)
    );
    let good = control::encode(Kind::Exit, 1, b"x").unwrap();
    assert_eq!(
        control::decode(&good[..19]).unwrap_err(),
        ControlError::InvalidHeader
    );
    let mut bytes = good.clone();
    bytes[0] = b'N';
    assert_eq!(
        control::decode(&bytes).unwrap_err(),
        ControlError::InvalidHeader
    );
    bytes = good.clone();
    bytes[4] = 2;
    assert_eq!(
        control::decode(&bytes).unwrap_err(),
        ControlError::UnsupportedVersion
    );
    bytes = good.clone();
    bytes[6] = 8;
    assert_eq!(
        control::decode(&bytes).unwrap_err(),
        ControlError::UnknownKind
    );
    bytes = good.clone();
    bytes.push(0);
    assert_eq!(
        control::decode(&bytes).unwrap_err(),
        ControlError::InvalidPayloadLength
    );
    assert_eq!(Kind::from_raw(Kind::MapsReady.raw()), Some(Kind::MapsReady));
    assert_eq!(
        control::control_action(Kind::Status, 9),
        ControlAction::Report { request_id: 9 }
    );
    assert_eq!(
        control::control_action(Kind::Shutdown, 9),
        ControlAction::Shutdown
    );
    assert_eq!(
        control::control_action(Kind::Ready, 9),
        ControlAction::Nothing
    );
}

#[test]
fn wait_statuses_are_read() {
    assert_eq!(decode_status(7 << 8), WaitStatus::Exited(7));
    assert_eq!(decode_status(9), WaitStatus::Signaled(9));
    assert_eq!(decode_status(0x80 | 11), WaitStatus::Signaled(11));
    assert_eq!(decode_status(0x137f), WaitStatus::StillRunning);
    assert_eq!(exec_failure_code(true), 127);
    assert_eq!(exec_failure_code(false), 126);
}

fn ne16(bytes: &[u8], at: usize) -> u16 {
    u16::from_ne_bytes([bytes[at], bytes[at + 1]])
}

fn ne32(bytes: &[u8], at: usize) -> u32 {
    u32::from_ne_bytes([bytes[at], bytes[at + 1], bytes[at + 2], bytes[at + 3]])
}

#[test]
fn route_requests_are_laid_out() {
    let requests = netlink::tap_requests(
        7,
        [2, 0, 0, 0, 0, 1],
        32_000,
        Some(Ipv4Plan {
            address: [192, 0, 2, 2],
            prefix_len: 30,
            gateway: [192, 0, 2, 1],
        }),
        Some(Ipv6Plan {
            address: [1; 16],
            prefix_len: 64,
            gateway: [2; 16],
        }),
    )
    .unwrap();
    assert_eq!(requests.len(), 5);
    let link = &requests[0];
    assert_eq!(ne32(link, 0) as usize, link.len());
    assert_eq!(link.len(), 16 + 16 + 12 + 8);
    assert_eq!(ne16(link, 4), 16);
    assert_eq!(ne16(link, 6), 5);
    assert_eq!(ne32(link, 8), 2);
    assert_eq!(ne32(link, 20), 7);
    assert_eq!(ne16(link, 32), 10);
    assert_eq!(&link[36..42], &[2, 0, 0, 0, 0, 1]);
    assert_eq!(&link[42..44], &[0, 0]);
    assert_eq!(ne16(link, 44), 8);
    assert_eq!(ne16(link, 46), 4);
    assert_eq!(ne32(link, 48), 32_000);
    let address = &requests[1];
    assert_eq!(ne16(address, 4), 20);
    assert_eq!(ne16(address, 6), 0x605);
    assert_eq!(&address[16..20], &[2, 30, 0, 0]);
    assert_eq!(&address[28..32], &[192, 0, 2, 2]);
    let route = &requests[2];
    assert_eq!(ne16(route, 4), 24);
    assert_eq!(&route[16..28], &[2, 0, 0, 0, 254, 3, 0, 1, 0, 0, 0, 0]);
    assert_eq!(&requests[3][16..20], &[10, 64, 2, 0]);
    assert_eq!(ne32(&requests[4], 8), 6);
    let loopback = netlink::loopback_request(1).unwrap();
    assert_eq!(loopback.len(), 32);
    assert_eq!(ne32(&loopback, 8), 1);
}

#[test]
fn oversized_attributes_are_refused() {
    let value = vec![0u8; 0xffff];
    assert_eq!(
        netlink::request(
            16,
            0,
            1,
            &[],
            &[Attribute {
                kind: 1,
                value: &value
            }]
        ),
        Err(NetlinkError::AttributeTooLarge)
    );
    let mut out = vec![1, 2, 3, 4];
    netlink::append_attr(&mut out, 9, b"x").unwrap();
    assert_eq!(out.len(), 12);
    assert_eq!(ne16(&out, 4), 5);
    assert_eq!(ne16(&out, 6), 9);
}

fn reply_message(kind: u16, sequence: u32, body: &[u8]) -> Vec<u8> {
    let mut out = Vec::new();
    out.extend_from_slice(&((16 + body.len()) as u32).to_ne_bytes());
    out.extend_from_slice(&kind.to_ne_bytes());
    out.extend_from_slice(&0u16.to_ne_bytes());
    out.extend_from_slice(&sequence.to_ne_bytes());
    out.extend_from_slice(&0u32.to_ne_bytes());
    out.extend_from_slice(body);
    out
}

#[test]
fn netlink_replies_are_matched_to_their_request() {
    let done = reply_message(2, 3, &0i32.to_ne_bytes());
    assert_eq!(netlink::read_reply(&done, 3), Reply::Done);
    assert_eq!(netlink::read_reply(&done, 4), Reply::Pending);
    let mut both = reply_message(2, 2, &0i32.to_ne_bytes());
    both.extend_from_slice(&reply_message(2, 3, &(-17i32).to_ne_bytes()));
    assert_eq!(
        netlink::read_reply(&both, 3),
        Reply::Failed(NetlinkError::Refused(-17))
    );
    assert_eq!(
        netlink::read_reply(&reply_message(2, 3, b"x"), 3),
        Reply::Failed(NetlinkError::ShortError)
    );
    let mut broken = done.clone();
    broken[..4].copy_from_slice(&8u32.to_ne_bytes());
    assert_eq!(
        netlink::read_reply(&broken, 3),
        Reply::Failed(NetlinkError::InvalidReply)
    );
}

#[test]
fn socket_addresses_round_trip() {
    let v4 = SocketAddress::new(IpAddress::V4([192, 0, 2, 1]), 443);
    let octets = socket_address(v4);
    assert_eq!(octets.len(), 16);
    assert_eq!(&octets[..2], &2u16.to_ne_bytes());
    assert_eq!(&octets[2..8], &[1, 187, 192, 0, 2, 1]);
    assert_eq!(read_address(&octets), Ok(v4));
    let v6 = SocketAddress {
        ip: IpAddress::V6([9; 16]),
        port: 53,
        flowinfo: 5,
        scope_id: 6,
    };
    let octets = socket_address(v6);
    assert_eq!(octets.len(), 28);
    assert_eq!(read_address(&octets), Ok(v6));
    assert_eq!(
        read_address(&octets[..27]),
        Err(SocketError::UnsupportedAddress)
    );
    assert_eq!(read_address(&[1]), Err(SocketError::UnsupportedAddress));
}

#[test]
fn socket_buffers_keep_to_their_quota() {
    assert_eq!(socket::buffer_request(262_144), Ok(131_072));
    assert_eq!(
        socket::buffer_request(usize::MAX),
        Err(SocketError::QuotaTooLarge)
    );
    assert_eq!(socket::buffer_size(-1), 0);
    assert_eq!(socket::check_buffer(262_144, 262_144), Ok(()));
    assert_eq!(
        socket::check_buffer(262_145, 262_144),
        Err(SocketError::QuotaExceeded)
    );
    assert!(socket::writable_now(1, libc::POLLERR));
    assert!(!socket::writable_now(1, libc::POLLIN));
    assert!(!socket::writable_now(0, libc::POLLOUT));
    assert_eq!(socket::pending_error(0), None);
    assert_eq!(socket::pending_error(111), Some(111));
}

#[test]
fn error_queue_messages_are_counted() {
    let stamp = ControlRecord {
        level: libc::SOL_SOCKET,
        kind: libc::SCM_TIMESTAMPING,
        origin: 0,
    };
    let own = ControlRecord {
        level: libc::SOL_IP,
        kind: libc::IP_RECVERR,
        origin: libc::SO_EE_ORIGIN_TIMESTAMPING,
    };
    let foreign = ControlRecord {
        level: libc::SOL_IPV6,
        kind: libc::IPV6_RECVERR,
        origin: 1,
    };
    let mut drain = TxTimestampDrain::default();
    count_drained(&mut drain, &[stamp, own]);
    count_drained(&mut drain, &[stamp, foreign]);
    count_drained(&mut drain, &[own]);
    assert_eq!(
        drain,
        TxTimestampDrain {
            acknowledgments: 1,
            foreign_errors: 1
        }
    );
    assert!(socket::drain_continues(16));
    assert!(!socket::drain_continues(15));
}

#[test]
fn received_descriptors_are_checked() {
    let record = RightsRecord {
        level: libc::SOL_SOCKET,
        kind: libc::SCM_RIGHTS,
        len: 20,
        descriptor: 5,
    };
    assert_eq!(received_descriptor(1, Some(record), 20), Ok(5));
    assert_eq!(
        received_descriptor(0, Some(record), 20),
        Err(SocketError::Closed)
    );
    assert_eq!(
        received_descriptor(1, None, 20),
        Err(SocketError::MissingDescriptor)
    );
    assert_eq!(
        received_descriptor(1, Some(record), 21),
        Err(SocketError::MissingDescriptor)
    );
    assert_eq!(
        received_descriptor(
            1,
            Some(RightsRecord {
                descriptor: -1,
                ..record
            }),
            20
        ),
        Err(SocketError::InvalidDescriptor)
    );
}

#[test]
fn event_masks_and_timeouts() {
    assert!(reactor::holds(reactor::READABLE | reactor::ERROR, reactor::ERROR));
    assert!(!reactor::holds(reactor::READABLE, reactor::WRITABLE));
    assert_eq!(reactor::wait_timeout(None), -1);
    assert_eq!(reactor::wait_timeout(Some(1_500_000)), 1);
    assert_eq!(reactor::timer_interval(1_500_000_000), (1, 500_000_000));
}
