//! The settings of the data plane.

use crate::net::SocketAddress;
use crate::packet::ethernet::MacAddress;
use crate::proxy_proto::{Credentials, Protocol};
use vstd::prelude::*;

verus! {

pub enum Upstream {
    Direct { host_loopback: bool },
    Proxy { protocol: Protocol, address: SocketAddress, credentials: Option<Credentials> },
}

pub struct Config {
    pub target_mac: MacAddress,
    pub gateway_mac: MacAddress,
    pub target_ipv4: Option<[u8; 4]>,
    pub gateway_ipv4: Option<[u8; 4]>,
    pub target_ipv6: Option<[u8; 16]>,
    pub gateway_ipv6: Option<[u8; 16]>,
    pub tap_mtu: u32,
    pub tap_offload: bool,
    pub upstream: Upstream,
    /// Whether 53/UDP and 53/TCP to the gateway are intercepted.
    pub dns_proxy_tcp: bool,
    /// Resolver behind the interception; `None` answers SERVFAIL/RST so a
    /// host without a usable resolver stays leak-free without failing
    /// TCP-only workloads.
    pub dns_upstream: Option<SocketAddress>,
    pub max_tcp_flows: usize,
    pub max_pending_tcp_bytes: usize,
    pub max_retained_tcp_bytes: usize,
    pub tcp_receive_buffer_bytes: usize,
    pub tcp_send_buffer_bytes: usize,
}

} // verus!
