//! What happens to a namespace SYN that belongs to no flow yet.

use super::config::{Config, Upstream};
use crate::bytes::ne32;
use crate::net::{IpAddress, SocketAddress};
use crate::packet::tcp::TcpFlags;
use crate::proxy_proto::handshake::HandshakeModel;
use crate::proxy_proto::{Command, Handshake};
use crate::tcp_adapter::flow::{FlowInterface, FlowKey};
use vstd::prelude::*;

verus! {

/// Window-scale shift offered on the SYN-ACK when the namespace SYN offers
/// the option. Shift 7 allows advertising up to about 8 MiB.
pub const WINDOW_SCALE_SHIFT: u8 = 7;

/// RFC 7323 caps the usable window-scale shift at 14.
pub const MAX_PEER_WINDOW_SHIFT: u8 = 14;

/// The least segment size that a namespace SYN may announce.
pub const MIN_ANNOUNCED_MSS: u16 = 536;

/// Whether `ip` is the gateway.
pub open spec fn is_gateway(config: Config, ip: IpAddress) -> bool {
    match ip {
        IpAddress::V4(octets) => config.gateway_ipv4 is Some && config.gateway_ipv4.unwrap()@
            == octets@,
        IpAddress::V6(octets) => config.gateway_ipv6 is Some && config.gateway_ipv6.unwrap()@
            == octets@,
    }
}

fn gateway(config: &Config, ip: IpAddress) -> (yes: bool)
    ensures
        yes == is_gateway(*config, ip),
{
    match ip {
        IpAddress::V4(octets) => match config.gateway_ipv4 {
            Some(address) => crate::bytes::equal(&address, &octets),
            None => false,
        },
        IpAddress::V6(octets) => match config.gateway_ipv6 {
            Some(address) => crate::bytes::equal(&address, &octets),
            None => false,
        },
    }
}

/// Whether a namespace destination is intercepted for DNS: port 53 of the
/// gateway, while interception is on.
pub open spec fn intercepts(config: Config, target: SocketAddress) -> bool {
    config.dns_proxy_tcp && target.port == 53 && is_gateway(config, target.ip)
}

#[must_use]
pub fn dns_intercepts(config: &Config, target: SocketAddress) -> (yes: bool)
    ensures
        yes == intercepts(*config, target),
{
    if !config.dns_proxy_tcp || target.port != 53 {
        return false;
    }
    gateway(config, target.ip)
}

/// The loopback address of the family of `ip`.
pub open spec fn loopback_octets(v4: bool) -> Seq<u8> {
    if v4 {
        seq![127u8, 0u8, 0u8, 1u8]
    } else {
        seq![0u8, 0u8, 0u8, 0u8, 0u8, 0u8, 0u8, 0u8, 0u8, 0u8, 0u8, 0u8, 0u8, 0u8, 0u8, 1u8]
    }
}

/// Whether a connection to `logical` goes to host loopback instead.
pub open spec fn mapped_to_loopback(config: Config, logical: SocketAddress) -> bool {
    match config.upstream {
        Upstream::Direct { host_loopback } => host_loopback && is_gateway(config, logical.ip),
        Upstream::Proxy { .. } => false,
    }
}

/// Whether `peer` is where a connection to `logical` is made: the proxy, host
/// loopback, or the address itself.
pub open spec fn routed(config: Config, logical: SocketAddress, peer: SocketAddress) -> bool {
    match config.upstream {
        Upstream::Proxy { address, .. } => peer == address,
        Upstream::Direct { .. } => if mapped_to_loopback(config, logical) {
            &&& peer.port == logical.port
            &&& peer.flowinfo == 0
            &&& peer.scope_id == 0
            &&& match (logical.ip, peer.ip) {
                (IpAddress::V4(_), IpAddress::V4(octets)) => octets@ == loopback_octets(true),
                (IpAddress::V6(_), IpAddress::V6(octets)) => octets@ == loopback_octets(false),
                _ => false,
            }
        } else {
            peer == logical
        },
    }
}

pub open spec fn interface_of(upstream: Upstream) -> FlowInterface {
    match upstream {
        Upstream::Proxy { .. } => FlowInterface::ProxyTunnel,
        Upstream::Direct { .. } => FlowInterface::HostSocket,
    }
}

/// Where a connection to `logical` is made, and over what.
#[must_use]
pub fn route_target(config: &Config, logical: SocketAddress) -> (route: (
    FlowInterface,
    SocketAddress,
))
    ensures
        route.0 == interface_of(config.upstream),
        routed(*config, logical, route.1),
{
    match &config.upstream {
        Upstream::Proxy { address, .. } => (FlowInterface::ProxyTunnel, *address),
        Upstream::Direct { host_loopback } => {
            if *host_loopback && gateway(config, logical.ip) {
                let peer = match logical.ip {
                    IpAddress::V4(_) => {
                        let octets = [127, 0, 0, 1];
                        assert(octets@ =~= loopback_octets(true));
                        SocketAddress::v4(octets, logical.port)
                    },
                    IpAddress::V6(_) => {
                        let octets = [0, 0, 0, 0, 0, 0, 0, 0, 0, 0, 0, 0, 0, 0, 0, 1];
                        assert(octets@ =~= loopback_octets(false));
                        SocketAddress::v6(octets, logical.port)
                    },
                };
                (FlowInterface::HostSocket, peer)
            } else {
                (FlowInterface::HostSocket, logical)
            }
        },
    }
}

/// The handshake that opens a tunnel to `logical`, if the upstream is a proxy.
#[must_use]
pub fn proxy_handshake(config: &Config, logical: SocketAddress) -> (handshake: Option<Handshake>)
    ensures
        match config.upstream {
            Upstream::Direct { .. } => handshake is None,
            Upstream::Proxy { protocol, credentials, .. } => {
                &&& handshake is Some
                &&& handshake.unwrap().wf()
                &&& handshake.unwrap()@ == HandshakeModel::start(
                    protocol,
                    Command::Connect,
                    logical,
                    credentials,
                )
            },
        },
{
    match &config.upstream {
        Upstream::Direct { .. } => None,
        Upstream::Proxy { protocol, credentials, .. } => {
            let copy = match credentials {
                Some(held) => Some(held.clone()),
                None => None,
            };
            match Handshake::new(*protocol, Command::Connect, logical, copy) {
                Ok(handshake) => Some(handshake),
                Err(_) => None,
            }
        },
    }
}

/// What is done with a segment that belongs to no flow.
pub enum Admission {
    /// It opens no connection.
    Ignore,
    /// It is for the intercepted resolver, and there is none: it is reset.
    RefuseDns,
    /// A connection to `transport_peer` is made for it.
    Connect {
        logical_target: SocketAddress,
        interface: FlowInterface,
        transport_peer: SocketAddress,
    },
}

/// The address that a new flow is for: the resolver where DNS is intercepted,
/// otherwise the target itself.
pub open spec fn logical_target(config: Config, target: SocketAddress) -> Option<SocketAddress> {
    if intercepts(config, target) {
        config.dns_upstream
    } else {
        Some(target)
    }
}

/// Decides on a segment that belongs to no flow.
#[must_use]
pub fn decide_admission(config: &Config, key: FlowKey, flags: TcpFlags) -> (admission: Admission)
    ensures
        match admission {
            Admission::Ignore => !flags.syn || flags.ack || flags.rst,
            Admission::RefuseDns => {
                &&& flags.syn && !flags.ack && !flags.rst
                &&& logical_target(*config, key.target) is None
            },
            Admission::Connect { logical_target: logical, interface, transport_peer } => {
                &&& flags.syn && !flags.ack && !flags.rst
                &&& logical_target(*config, key.target) == Some(logical)
                &&& interface == interface_of(config.upstream)
                &&& routed(*config, logical, transport_peer)
            },
        },
{
    if !flags.syn || flags.ack || flags.rst {
        return Admission::Ignore;
    }
    let logical = if dns_intercepts(config, key.target) {
        match config.dns_upstream {
            Some(resolver) => resolver,
            None => return Admission::RefuseDns,
        }
    } else {
        key.target
    };
    let (interface, transport_peer) = route_target(config, logical);
    Admission::Connect { logical_target: logical, interface, transport_peer }
}

/// What two SYNs agree on.
#[derive(Clone, Copy, Debug, PartialEq, Eq, Structural)]
pub struct Negotiated {
    pub mss: u16,
    pub peer_window_shift: u8,
    pub local_window_shift: u8,
}

/// The segment size that the MTU leaves behind the IP and TCP headers.
pub open spec fn link_mss(tap_mtu: u32, v4: bool) -> int {
    let overhead: int = if v4 {
        40
    } else {
        60
    };
    if tap_mtu >= overhead {
        tap_mtu - overhead
    } else {
        0
    }
}

/// The announced segment size, unless it is too small to be meant, and never
/// more than the link takes. Windows are scaled only if the namespace offered
/// it (RFC 7323: both SYNs carry the option).
pub open spec fn agreed(
    tap_mtu: u32,
    v4: bool,
    mss: Option<u16>,
    window_scale: Option<u8>,
) -> Negotiated {
    let link = link_mss(tap_mtu, v4);
    Negotiated {
        mss: if mss is Some && MIN_ANNOUNCED_MSS <= mss.unwrap() <= link {
            mss.unwrap()
        } else {
            link as u16
        },
        peer_window_shift: match window_scale {
            Some(shift) => if shift <= MAX_PEER_WINDOW_SHIFT {
                shift
            } else {
                MAX_PEER_WINDOW_SHIFT
            },
            None => 0,
        },
        local_window_shift: if window_scale is Some {
            WINDOW_SCALE_SHIFT
        } else {
            0
        },
    }
}

#[must_use]
pub fn negotiate(
    tap_mtu: u32,
    v4: bool,
    mss: Option<u16>,
    window_scale: Option<u8>,
) -> (negotiated: Negotiated)
    requires
        link_mss(tap_mtu, v4) <= u16::MAX,
    ensures
        negotiated == agreed(tap_mtu, v4, mss, window_scale),
        negotiated.peer_window_shift <= 14,
        negotiated.local_window_shift <= 14,
{
    let overhead: u32 = if v4 {
        40
    } else {
        60
    };
    let link: u16 = tap_mtu.saturating_sub(overhead) as u16;
    let mss: u16 = match mss {
        Some(announced) => if announced >= MIN_ANNOUNCED_MSS && announced <= link {
            announced
        } else {
            link
        },
        None => link,
    };
    match window_scale {
        Some(shift) => Negotiated {
            mss,
            peer_window_shift: if shift <= MAX_PEER_WINDOW_SHIFT {
                shift
            } else {
                MAX_PEER_WINDOW_SHIFT
            },
            local_window_shift: WINDOW_SCALE_SHIFT,
        },
        None => Negotiated { mss, peer_window_shift: 0, local_window_shift: 0 },
    }
}

/// Traffic to the gateway's DNS port never leaves the host directly: while it is
/// intercepted it goes to the resolver or is refused.
pub proof fn law_intercepted_dns_does_not_leak(config: Config, target: SocketAddress)
    requires
        config.dns_proxy_tcp,
        target.port == 53,
        is_gateway(config, target.ip),
    ensures
        logical_target(config, target) == config.dns_upstream,
{
}

/// With a proxy every connection is made to the proxy, whatever its target.
pub proof fn law_proxy_takes_everything(
    config: Config,
    logical: SocketAddress,
    peer: SocketAddress,
)
    requires
        config.upstream is Proxy,
        routed(config, logical, peer),
    ensures
        peer == config.upstream->address,
{
}

/// The first sequence number of the data plane's side of a flow, when `drawn` came
/// from the system: a fixed one if there is one, otherwise the drawn octets in the
/// byte order of the machine. There is none if the system gave no octets.
pub open spec fn chosen_sequence(fixed: Option<u32>, drawn: Option<[u8; 4]>) -> Option<u32> {
    match drawn {
        None => None,
        Some(octets) => match fixed {
            Some(sequence) => Some(sequence),
            None => Some(ne32(octets@, 0)),
        },
    }
}

/// Chooses the first sequence number from what the system gave.
#[must_use]
pub fn choose_sequence(fixed: Option<u32>, drawn: Option<[u8; 4]>) -> (sequence: Option<u32>)
    ensures
        sequence == chosen_sequence(fixed, drawn),
{
    match drawn {
        None => None,
        Some(octets) => match fixed {
            Some(sequence) => Some(sequence),
            None => Some(crate::bytes::read_ne32(&octets, 0)),
        },
    }
}

/// The first sequence number of the data plane's side of a flow, chosen from four
/// octets that are asked of the system. Which octets come, and whether any do, is
/// up to the system, also where the number is fixed.
pub fn initial_sequence(fixed: Option<u32>) -> (sequence: Option<u32>)
    ensures
        exists|drawn: Option<[u8; 4]>| sequence == #[trigger] chosen_sequence(fixed, drawn),
{
    let mut octets = [0u8; 4];
    let drawn = if crate::random::fill(&mut octets) {
        Some(octets)
    } else {
        None
    };
    choose_sequence(fixed, drawn)
}

/// With a direct upstream only the address of the gateway is mapped to the host's
/// loopback, and only where that is asked for; every other connection is made to
/// its own address.
pub proof fn law_only_the_gateway_is_mapped(
    config: Config,
    logical: SocketAddress,
    peer: SocketAddress,
)
    requires
        config.upstream is Direct,
        routed(config, logical, peer),
    ensures
        interface_of(config.upstream) == FlowInterface::HostSocket,
        !config.upstream->host_loopback ==> peer == logical,
        match logical.ip {
            IpAddress::V4(octets) => {
                let gateway = config.gateway_ipv4;
                &&& gateway is None ==> peer == logical
                &&& gateway is Some && gateway.unwrap()@ != octets@ ==> peer == logical
                &&& config.upstream->host_loopback && gateway is Some && gateway.unwrap()@
                    == octets@ ==> peer.port == logical.port && peer.ip is V4 && peer.ip->V4_0@
                    == seq![127u8, 0u8, 0u8, 1u8]
            },
            IpAddress::V6(octets) => {
                let gateway = config.gateway_ipv6;
                &&& gateway is None ==> peer == logical
                &&& gateway is Some && gateway.unwrap()@ != octets@ ==> peer == logical
                &&& config.upstream->host_loopback && gateway is Some && gateway.unwrap()@
                    == octets@ ==> peer.port == logical.port && peer.ip is V6
                    && peer.ip->V6_0@.take(15) == Seq::new(15, |i: int| 0u8) && peer.ip->V6_0@[15]
                    == 1
            },
        },
{
    if peer.ip is V6 && logical.ip is V6 && mapped_to_loopback(config, logical) {
        assert(peer.ip->V6_0@.take(15) =~= Seq::new(15, |i: int| 0u8));
    }
}

/// With a proxy every connection goes through its tunnel.
pub proof fn law_proxied_flows_use_the_tunnel(
    config: Config,
    logical: SocketAddress,
    peer: SocketAddress,
)
    requires
        config.upstream is Proxy,
        routed(config, logical, peer),
    ensures
        interface_of(config.upstream) == FlowInterface::ProxyTunnel,
        peer == config.upstream->address,
{
}

/// DNS is intercepted at port 53 of the gateway and nowhere else, and only while
/// interception is on: every other connection is for its own target.
pub proof fn law_only_gateway_dns_is_intercepted(config: Config, target: SocketAddress)
    ensures
        ({
            let at_gateway = match target.ip {
                IpAddress::V4(octets) => config.gateway_ipv4 is Some
                    && config.gateway_ipv4.unwrap()@ == octets@,
                IpAddress::V6(octets) => config.gateway_ipv6 is Some
                    && config.gateway_ipv6.unwrap()@ == octets@,
            };
            if config.dns_proxy_tcp && target.port == 53 && at_gateway {
                &&& intercepts(config, target)
                &&& logical_target(config, target) == config.dns_upstream
            } else {
                &&& !intercepts(config, target)
                &&& logical_target(config, target) == Some(target)
            }
        }),
{
}

/// The agreed segment never exceeds what the link carries behind its headers, 40
/// octets for IPv4 and 60 for IPv6, nor a plausible size that the namespace
/// announced; and a smaller announcement is taken as it is.
pub proof fn law_segment_size_fits_both_sides(
    tap_mtu: u32,
    v4: bool,
    mss: Option<u16>,
    window_scale: Option<u8>,
)
    requires
        60 <= tap_mtu <= 0xffff,
    ensures
        ({
            let link = tap_mtu - (if v4 {
                40int
            } else {
                60
            });
            let size = agreed(tap_mtu, v4, mss, window_scale).mss;
            &&& size <= link
            &&& mss is None ==> size == link
            &&& mss is Some && mss.unwrap() >= 536 ==> size == if mss.unwrap() <= link {
                mss.unwrap() as int
            } else {
                link
            }
            &&& mss is Some && mss.unwrap() < 536 ==> size == link
        }),
{
}

/// Windows are scaled on both sides or on none: the namespace's shift is taken up to
/// 14, and the data plane's own is 7.
pub proof fn law_windows_are_scaled_on_both_sides(
    tap_mtu: u32,
    v4: bool,
    mss: Option<u16>,
    window_scale: Option<u8>,
)
    ensures
        ({
            let terms = agreed(tap_mtu, v4, mss, window_scale);
            match window_scale {
                None => terms.peer_window_shift == 0 && terms.local_window_shift == 0,
                Some(shift) => {
                    &&& terms.local_window_shift == 7
                    &&& shift <= 14 ==> terms.peer_window_shift == shift
                    &&& shift > 14 ==> terms.peer_window_shift == 14
                },
            }
        }),
{
}

/// A fixed sequence number is used as it is, and without one the drawn octets
/// decide: different octets give different numbers.
pub proof fn law_sequence_is_fixed_or_drawn(fixed: Option<u32>, first: [u8; 4], second: [u8; 4])
    ensures
        chosen_sequence(fixed, None) is None,
        chosen_sequence(fixed, Some(first)) is Some,
        fixed is Some ==> chosen_sequence(fixed, Some(first)) == fixed,
        fixed is None && first@ != second@ ==> chosen_sequence(fixed, Some(first))
            != chosen_sequence(fixed, Some(second)),
{
    if fixed is None && ne32(first@, 0) == ne32(second@, 0) {
        lemma_octets_decide(first@, second@);
        assert(first@ =~= second@);
    }
}

proof fn lemma_octets_decide(first: Seq<u8>, second: Seq<u8>)
    requires
        ne32(first, 0) == ne32(second, 0),
    ensures
        first[0] == second[0] && first[1] == second[1] && first[2] == second[2] && first[3]
            == second[3],
{
    match vstd::endian::endianness() {
        vstd::endian::Endian::Little => {
            lemma_digits_decide(
                first[3] as int,
                first[2] as int,
                first[1] as int,
                first[0] as int,
                second[3] as int,
                second[2] as int,
                second[1] as int,
                second[0] as int,
            );
        },
        vstd::endian::Endian::Big => {
            lemma_digits_decide(
                first[0] as int,
                first[1] as int,
                first[2] as int,
                first[3] as int,
                second[0] as int,
                second[1] as int,
                second[2] as int,
                second[3] as int,
            );
        },
    }
}

proof fn lemma_digits_decide(
    a: int,
    b: int,
    c: int,
    d: int,
    e: int,
    f: int,
    g: int,
    h: int,
)
    requires
        0 <= a < 256 && 0 <= b < 256 && 0 <= c < 256 && 0 <= d < 256,
        0 <= e < 256 && 0 <= f < 256 && 0 <= g < 256 && 0 <= h < 256,
        a * 0x100_0000 + b * 0x1_0000 + c * 0x100 + d == e * 0x100_0000 + f * 0x1_0000 + g * 0x100
            + h,
    ensures
        a == e && b == f && c == g && d == h,
{
    assert(a == e);
    assert(b == f);
    assert(c == g);
}

} // verus!
