use yayatht::net::{IpAddress, SocketAddress};
use yayatht::tcp_adapter::flow::{
    ConstructionState, Flow, FlowConstruction, FlowInterface, FlowKey, FlowSide, FlowType,
    ReceiveDisposition, State,
};
use yayatht::tcp_adapter::sequence::{advance, after, before, before_or_equal, distance};
use yayatht::tcp_adapter::timer::{TimerEntry, TimerKind, TimerWheel};

fn v4(octets: [u8; 4], port: u16) -> SocketAddress {
    SocketAddress::new(IpAddress::V4(octets), port)
}

fn flow() -> Flow {
    Flow::new(u32::MAX - 4, 100, 1460)
}

#[test]
fn handshake_and_wrapped_payload_ack() {
    let mut flow = flow();
    let syn_ack = flow.socket_connected(10);
    assert_eq!(syn_ack.sequence, 100);
    let disposition = flow.receive(u32::MAX - 3, Some(101), 65535, 8, false, false);
    assert_eq!(
        disposition,
        ReceiveDisposition::InOrder {
            payload_len: 8,
            fin: false
        }
    );
    flow.record_upstream_submitted(8);
    assert!(flow.record_upstream_ack(18));
    assert_eq!(flow.namespace_ack(), 4);
}

#[test]
fn duplicate_is_not_submitted_twice() {
    let mut flow = flow();
    flow.socket_connected(0);
    flow.receive(u32::MAX - 3, Some(101), 65535, 4, false, false);
    assert_eq!(
        flow.receive(u32::MAX - 3, Some(101), 65535, 4, false, false),
        ReceiveDisposition::Duplicate
    );
}

#[test]
fn completed_half_closes_enter_time_wait() {
    let mut flow = flow();
    flow.socket_connected(0);
    flow.receive(u32::MAX - 3, Some(101), 65535, 0, false, false);
    let fin = flow.plan_send(0, true).unwrap();
    flow.commit_send(fin);
    flow.receive(u32::MAX - 3, Some(flow.local_next()), 65535, 0, true, false);
    assert_eq!(flow.state(), State::TimeWait);
    assert_eq!(flow.namespace_ack(), u32::MAX - 2);
}

#[test]
fn window_allows_multiple_inflight_segments() {
    let mut flow = flow();
    flow.socket_connected(0);
    flow.receive(u32::MAX - 3, Some(101), 12, 0, false, false);

    let first = flow.plan_send(4, false).unwrap();
    flow.commit_send(first);
    let second = flow.plan_send(4, false).unwrap();
    flow.commit_send(second);

    assert_eq!(flow.unacked_to_namespace(), 8);
    assert_eq!(flow.available_namespace_window(), 4);
    assert!(flow.plan_send(5, false).is_none());
    assert!(flow.plan_send(4, false).is_some());
}

#[test]
fn receive_window_rejects_unreserved_payload() {
    let mut flow = flow();
    flow.socket_connected(0);
    flow.set_advertised_window(4);
    assert_eq!(
        flow.receive(u32::MAX - 3, Some(101), 65535, 5, false, false),
        ReceiveDisposition::OutsideWindow
    );
    assert_eq!(flow.namespace_ack(), u32::MAX - 3);
    assert_eq!(flow.advertised_window(), 4);

    assert_eq!(
        flow.receive(u32::MAX - 3, Some(101), 65535, 4, false, false),
        ReceiveDisposition::InOrder {
            payload_len: 4,
            fin: false
        }
    );
    assert_eq!(flow.advertised_window(), 0);
}

#[test]
fn flow_construction_separates_logical_and_transport_targets() {
    let namespace = FlowSide {
        interface: FlowInterface::NamespaceTap,
        local_endpoint: v4([192, 0, 2, 1], 443),
        logical_peer: v4([192, 0, 2, 2], 40000),
        transport_peer: v4([192, 0, 2, 2], 40000),
    };
    let target = FlowSide {
        interface: FlowInterface::ProxyTunnel,
        local_endpoint: v4([127, 0, 0, 1], 50000),
        logical_peer: v4([198, 51, 100, 7], 443),
        transport_peer: v4([127, 0, 0, 1], 7890),
    };
    let mut construction = FlowConstruction::new();
    construction.set_initiating(namespace).unwrap();
    construction.set_target(target).unwrap();
    construction.set_type(FlowType::Tcp).unwrap();
    assert_eq!(construction.state(), ConstructionState::Typed);

    let sides = construction.activate().unwrap();
    assert_eq!(construction.state(), ConstructionState::Active);
    assert_eq!(sides.target.local_endpoint, target.local_endpoint);
    assert_eq!(sides.target.logical_peer, target.logical_peer);
    assert_eq!(sides.target.transport_peer, target.transport_peer);
    assert_ne!(sides.target.logical_peer, sides.target.transport_peer);
    assert_eq!(
        sides.namespace_key(),
        FlowKey {
            namespace: namespace.logical_peer,
            target: namespace.local_endpoint,
        }
    );
}

#[test]
fn flow_construction_rejects_out_of_order_transitions() {
    let mut construction = FlowConstruction::new();
    assert_eq!(
        construction.set_type(FlowType::Tcp),
        Err(ConstructionState::New)
    );
    assert!(construction.active_sides().is_none());
}

#[test]
fn wrap_safe_ordering() {
    assert!(before(u32::MAX - 2, 2));
    assert!(after(2, u32::MAX - 2));
    assert_eq!(distance(u32::MAX - 2, 2), 5);
}

#[test]
fn sequence_numbers_advance_around_the_end() {
    assert_eq!(advance(u32::MAX, 2), 1);
    assert!(before_or_equal(7, 7));
    assert!(!before(7, 7));
    assert!(!before(5, u32::MAX));
}

#[test]
fn scaled_windows_are_shifted_except_in_a_syn() {
    let mut flow = Flow::with_window_scaling(10, 100, 1460, 3, 7);
    flow.socket_connected(0);
    flow.set_advertised_window(256);
    assert_eq!(flow.window_field(false), 2);
    assert_eq!(flow.window_field(true), 256);
    assert_eq!(flow.local_window_shift(), 7);
    flow.receive(11, Some(101), 100, 0, false, false);
    assert_eq!(flow.peer_window(), 800);
}

#[test]
fn resets_and_out_of_order_segments_are_told_apart() {
    let mut flow = flow();
    flow.socket_connected(0);
    assert_eq!(
        flow.receive(5, Some(101), 65535, 4, false, false),
        ReceiveDisposition::OutOfOrder
    );
    assert_eq!(
        flow.receive(u32::MAX - 3, Some(101), 65535, 0, false, true),
        ReceiveDisposition::Reset
    );
    assert_eq!(flow.state(), State::Closed);
}

#[test]
fn timers_expire_in_their_tick() {
    let mut wheel: TimerWheel<u32> = TimerWheel::new(0, 10, 8);
    wheel.schedule(TimerEntry {
        key: 7,
        kind: TimerKind::Retransmit,
        deadline: 35,
        sequence: 0,
    });
    let mut out = Vec::new();
    wheel.expire(20, &mut out);
    assert!(out.is_empty());
    wheel.expire(50, &mut out);
    assert_eq!(out.len(), 1);
    assert_eq!(out[0].deadline, 35);
}

fn timer(key: u32, deadline: u64) -> TimerEntry<u32> {
    TimerEntry {
        key,
        kind: TimerKind::Idle,
        deadline,
        sequence: 0,
    }
}

#[test]
fn timers_leave_once_and_when_they_are_due() {
    let mut wheel: TimerWheel<u32> = TimerWheel::new(0, 10, 4);
    for (key, deadline) in [(1, 5), (2, 95), (3, 40), (4, 41), (5, 0)] {
        wheel.schedule(timer(key, deadline));
    }
    let mut out = Vec::new();
    wheel.expire(40, &mut out);
    let mut keys: Vec<u32> = out.iter().map(|entry| entry.key).collect();
    keys.sort_unstable();
    assert_eq!(keys, [1, 3, 5]);
    wheel.expire(40, &mut out);
    assert_eq!(out.len(), 3);
    wheel.expire(200, &mut out);
    assert_eq!(out.len(), 5);
    assert!(out[3..].iter().any(|entry| entry.key == 2));
    assert!(out[3..].iter().any(|entry| entry.key == 4));
}
