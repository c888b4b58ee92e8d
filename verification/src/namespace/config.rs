//! The settings of an instance.

use crate::dataplane::reactor::config::{Config, Upstream};
use crate::net::SocketAddress;
use crate::packet::ethernet::MacAddress;
use crate::proxy_proto::{Credentials, Protocol};
use crate::sys::tun::{MAX_TAP_MTU, MIN_TAP_MTU};
use vstd::prelude::*;

verus! {

pub const MAX_WORKERS: usize = 256;
pub const MAX_FLOWS: usize = 1_048_576;
pub const MIN_BYTES: u64 = 16_384;
/// One tebibyte.
pub const MAX_GLOBAL_BYTES: u64 = 0x100_0000_0000;
/// Sixteen mebibytes.
pub const MAX_SOCKET_BYTES: u64 = 0x100_0000;

#[derive(Clone, Copy, Debug, PartialEq, Eq, Structural)]
pub enum SandboxConfig {
    On,
    Off,
}

impl SandboxConfig {
    #[must_use]
    pub fn enabled(self) -> (enabled: bool)
        ensures
            enabled == (self == SandboxConfig::On),
    {
        match self {
            SandboxConfig::On => true,
            SandboxConfig::Off => false,
        }
    }
}

#[derive(Clone, Copy, Debug, PartialEq, Eq, Structural)]
pub enum DnsMode {
    ProxyTcp,
    Off,
}

#[derive(Clone, Copy, Debug)]
pub struct DnsConfig {
    pub mode: DnsMode,
    /// Resolver the intercepted queries are forwarded to. `None` with
    /// `ProxyTcp` keeps interception active but answers SERVFAIL, so a
    /// missing host resolver never leaks queries or blocks TCP workloads.
    pub upstream: Option<SocketAddress>,
}

impl DnsConfig {
    #[must_use]
    pub fn off() -> (config: DnsConfig)
        ensures
            config == (DnsConfig { mode: DnsMode::Off, upstream: None }),
    {
        DnsConfig { mode: DnsMode::Off, upstream: None }
    }
}

pub enum UpstreamConfig {
    Direct { host_loopback: bool },
    Proxy { protocol: Protocol, address: SocketAddress, credentials: Option<Credentials> },
}

/// The interface of the namespace, and the gateway that it sees.
pub struct NetworkConfig {
    pub interface_name: Vec<u8>,
    pub tap_mtu: u32,
    pub tap_offload: bool,
    pub target_mac: MacAddress,
    pub gateway_mac: MacAddress,
    /// The address of the interface and its prefix length.
    pub target_ipv4: Option<([u8; 4], u8)>,
    pub gateway_ipv4: Option<[u8; 4]>,
    /// The address of the interface and its prefix length.
    pub target_ipv6: Option<([u8; 16], u8)>,
    pub gateway_ipv6: Option<[u8; 16]>,
}

/// `fd79:6179:6174:6874::` and the last octet.
pub open spec fn synthetic_ipv6(last: u8) -> Seq<u8> {
    seq![
        0xfdu8,
        0x79u8,
        0x61u8,
        0x79u8,
        0x61u8,
        0x74u8,
        0x68u8,
        0x74u8,
        0u8,
        0u8,
        0u8,
        0u8,
        0u8,
        0u8,
        0u8,
        last,
    ]
}

impl NetworkConfig {
    /// Whether the interface is `eth0` with the addresses that every namespace
    /// has, of the families that are enabled.
    pub open spec fn is_synthetic(&self, ipv4: bool, ipv6: bool) -> bool {
        &&& self.interface_name@ == seq![101u8, 116u8, 104u8, 48u8]
        &&& self.target_mac.0@ == seq![0x02u8, 0x79u8, 0x61u8, 0x79u8, 0x61u8, 0x02u8]
        &&& self.gateway_mac.0@ == seq![0x02u8, 0x79u8, 0x61u8, 0x79u8, 0x61u8, 0x01u8]
        &&& match self.target_ipv4 {
            Some((address, prefix)) => ipv4 && address@ == seq![192u8, 0u8, 2u8, 2u8] && prefix
                == 24,
            None => !ipv4,
        }
        &&& match self.gateway_ipv4 {
            Some(address) => ipv4 && address@ == seq![192u8, 0u8, 2u8, 1u8],
            None => !ipv4,
        }
        &&& match self.target_ipv6 {
            Some((address, prefix)) => ipv6 && address@ == synthetic_ipv6(2) && prefix == 64,
            None => !ipv6,
        }
        &&& match self.gateway_ipv6 {
            Some(address) => ipv6 && address@ == synthetic_ipv6(1),
            None => !ipv6,
        }
    }

    /// The addresses that every namespace has: those of the two families that
    /// are enabled.
    #[must_use]
    pub fn synthetic(ipv4: bool, ipv6: bool, tap_mtu: u32, tap_offload: bool) -> (config:
        NetworkConfig)
        ensures
            config.is_synthetic(ipv4, ipv6),
            config.tap_mtu == tap_mtu,
            config.tap_offload == tap_offload,
    {
        let interface_name: Vec<u8> = vec![101, 116, 104, 48];
        let target_mac = [0x02, 0x79, 0x61, 0x79, 0x61, 0x02];
        let gateway_mac = [0x02, 0x79, 0x61, 0x79, 0x61, 0x01];
        let target_v4 = [192, 0, 2, 2];
        let gateway_v4 = [192, 0, 2, 1];
        let target_v6 = [
            0xfd, 0x79, 0x61, 0x79, 0x61, 0x74, 0x68, 0x74, 0, 0, 0, 0, 0, 0, 0, 2,
        ];
        let gateway_v6 = [
            0xfd, 0x79, 0x61, 0x79, 0x61, 0x74, 0x68, 0x74, 0, 0, 0, 0, 0, 0, 0, 1,
        ];
        assert(interface_name@ =~= seq![101u8, 116u8, 104u8, 48u8]);
        assert(target_mac@ =~= seq![0x02u8, 0x79u8, 0x61u8, 0x79u8, 0x61u8, 0x02u8]);
        assert(gateway_mac@ =~= seq![0x02u8, 0x79u8, 0x61u8, 0x79u8, 0x61u8, 0x01u8]);
        assert(target_v4@ =~= seq![192u8, 0u8, 2u8, 2u8]);
        assert(gateway_v4@ =~= seq![192u8, 0u8, 2u8, 1u8]);
        assert(target_v6@ =~= synthetic_ipv6(2));
        assert(gateway_v6@ =~= synthetic_ipv6(1));
        NetworkConfig {
            interface_name,
            tap_mtu,
            tap_offload,
            target_mac: MacAddress(target_mac),
            gateway_mac: MacAddress(gateway_mac),
            target_ipv4: if ipv4 {
                Some((target_v4, 24))
            } else {
                None
            },
            gateway_ipv4: if ipv4 {
                Some(gateway_v4)
            } else {
                None
            },
            target_ipv6: if ipv6 {
                Some((target_v6, 64))
            } else {
                None
            },
            gateway_ipv6: if ipv6 {
                Some(gateway_v6)
            } else {
                None
            },
        }
    }
}

#[derive(Clone, Copy, Debug, PartialEq, Eq, Structural)]
pub enum ConfigError {
    /// The target command is empty.
    EmptyCommand,
    /// At least one IP family must be enabled.
    NoIpFamily,
    /// There must be between 1 and 256 workers.
    InvalidWorkerCount,
    /// A flow limit must be between 1 and 1048576, and at least one for each
    /// worker.
    InvalidFlowLimit,
    /// A global TCP byte limit must be between 16 KiB and 1 TiB, and at least
    /// 16 KiB for each worker.
    InvalidGlobalByteLimit,
    /// A socket buffer must be between 16 KiB and 16 MiB.
    InvalidSocketBufferLimit,
    /// The TAP MTU must be between 1280 and 65520.
    InvalidTapMtu,
    /// An instance name consists of letters, digits, `_`, `.` and `-`.
    InvalidName,
}

/// An instance to be started. Names, paths and arguments are octets.
pub struct LaunchConfig {
    pub command: Vec<Vec<u8>>,
    pub name: Option<Vec<u8>>,
    pub runtime_root: Option<Vec<u8>>,
    pub network: NetworkConfig,
    pub upstream: UpstreamConfig,
    pub dns: DnsConfig,
    pub sandbox: SandboxConfig,
    /// How many data-plane processes share the work.
    pub workers: usize,
    pub max_tcp_flows: usize,
    pub max_udp_flows: usize,
    pub max_udp_associations: usize,
    pub max_pending_tcp_bytes: usize,
    pub max_retained_tcp_bytes: usize,
    pub tcp_receive_buffer_bytes: usize,
    pub tcp_send_buffer_bytes: usize,
}

/// What one of `workers` gets of a total: an equal part, and one more for each
/// of the first workers until nothing is left over.
pub open spec fn share(total: int, workers: int, index: int) -> int {
    total / workers + if index < total % workers {
        1int
    } else {
        0
    }
}

pub fn worker_share(total: usize, workers: usize, index: usize) -> (part: usize)
    requires
        0 < workers,
    ensures
        part == share(total as int, workers as int, index as int),
{
    let part: usize = total / workers;
    if index < total % workers {
        assert(total as int == workers as int * (total as int / workers as int) + total as int
            % workers as int) by (nonlinear_arith)
            requires
                0 < workers,
        ;
        assert(workers as int * (total as int / workers as int) >= total as int / workers as int)
            by (nonlinear_arith)
            requires
                0 < workers,
                0 <= total,
        ;
        part + 1
    } else {
        part
    }
}

/// What the first `count` workers get together.
pub open spec fn shares(total: int, workers: int, count: int) -> int
    decreases count,
{
    if count <= 0 {
        0
    } else {
        shares(total, workers, count - 1) + share(total, workers, count - 1)
    }
}

proof fn lemma_shares(total: int, workers: int, count: int)
    requires
        0 <= total,
        0 < workers,
        0 <= count <= workers,
    ensures
        shares(total, workers, count) == count * (total / workers) + if count <= total % workers {
            count
        } else {
            total % workers
        },
    decreases count,
{
    if count > 0 {
        lemma_shares(total, workers, count - 1);
        let q = total / workers;
        assert((count - 1) * q + q == count * q) by (nonlinear_arith);
    } else {
        assert(0 * (total / workers) == 0);
        assert(0 <= total % workers) by (nonlinear_arith)
            requires
                0 < workers,
        ;
    }
}

/// What the workers get adds up to the total, and none gets two more than
/// another.
pub proof fn law_shares_add_up(total: int, workers: int, one: int, other: int)
    requires
        0 <= total,
        0 < workers,
        0 <= one < workers,
        0 <= other < workers,
    ensures
        shares(total, workers, workers) == total,
        share(total, workers, one) <= share(total, workers, other) + 1,
{
    lemma_shares(total, workers, workers);
    assert(total == workers * (total / workers) + total % workers && 0 <= total % workers
        < workers) by (nonlinear_arith)
        requires
            0 < workers,
    ;
}

/// Whether an octet may stand in an instance name.
pub open spec fn is_name_octet(b: u8) -> bool {
    48 <= b <= 57 || 65 <= b <= 90 || 97 <= b <= 122 || b == 95 || b == 46 || b == 45
}

pub open spec fn is_name(name: Seq<u8>) -> bool {
    name.len() > 0 && forall|i: int| 0 <= i < name.len() ==> is_name_octet(#[trigger] name[i])
}

fn valid_name(name: &[u8]) -> (valid: bool)
    ensures
        valid == is_name(name@),
{
    let mut i: usize = 0;
    while i < name.len()
        invariant
            i <= name@.len(),
            forall|j: int| 0 <= j < i ==> is_name_octet(#[trigger] name@[j]),
        decreases name@.len() - i,
    {
        let b: u8 = name[i];
        if !(48 <= b && b <= 57 || 65 <= b && b <= 90 || 97 <= b && b <= 122 || b == 95 || b == 46
            || b == 45) {
            assert(!is_name_octet(name@[i as int]));
            return false;
        }
        i = i + 1;
    }
    name.len() > 0
}

pub open spec fn flows_ok(limit: usize, workers: usize) -> bool {
    workers <= limit <= MAX_FLOWS
}

pub open spec fn global_bytes_ok(limit: usize, workers: usize) -> bool {
    MIN_BYTES * workers <= limit <= MAX_GLOBAL_BYTES
}

pub open spec fn socket_bytes_ok(limit: usize) -> bool {
    MIN_BYTES <= limit <= MAX_SOCKET_BYTES
}

impl LaunchConfig {
    /// What is wrong with the settings, if something is; of several faults, the
    /// first in this order.
    pub open spec fn fault(&self) -> Option<ConfigError> {
        if self.command@.len() == 0 {
            Some(ConfigError::EmptyCommand)
        } else if self.network.target_ipv4 is None && self.network.target_ipv6 is None {
            Some(ConfigError::NoIpFamily)
        } else if !(MIN_TAP_MTU <= self.network.tap_mtu <= MAX_TAP_MTU) {
            Some(ConfigError::InvalidTapMtu)
        } else if !(1 <= self.workers <= MAX_WORKERS) {
            Some(ConfigError::InvalidWorkerCount)
        } else if !flows_ok(self.max_tcp_flows, self.workers) || !flows_ok(
            self.max_udp_flows,
            self.workers,
        ) || !flows_ok(self.max_udp_associations, self.workers) {
            Some(ConfigError::InvalidFlowLimit)
        } else if !global_bytes_ok(self.max_pending_tcp_bytes, self.workers) || !global_bytes_ok(
            self.max_retained_tcp_bytes,
            self.workers,
        ) {
            Some(ConfigError::InvalidGlobalByteLimit)
        } else if !socket_bytes_ok(self.tcp_receive_buffer_bytes) || !socket_bytes_ok(
            self.tcp_send_buffer_bytes,
        ) {
            Some(ConfigError::InvalidSocketBufferLimit)
        } else if self.name is Some && !is_name(self.name->0@) {
            Some(ConfigError::InvalidName)
        } else {
            None
        }
    }

    pub fn validate(&self) -> (result: Result<(), ConfigError>)
        ensures
            match result {
                Ok(_) => self.fault() is None,
                Err(error) => self.fault() == Some(error),
            },
    {
        if self.command.len() == 0 {
            return Err(ConfigError::EmptyCommand);
        }
        if self.network.target_ipv4.is_none() && self.network.target_ipv6.is_none() {
            return Err(ConfigError::NoIpFamily);
        }
        if self.network.tap_mtu < MIN_TAP_MTU || self.network.tap_mtu > MAX_TAP_MTU {
            return Err(ConfigError::InvalidTapMtu);
        }
        if self.workers < 1 || self.workers > MAX_WORKERS {
            return Err(ConfigError::InvalidWorkerCount);
        }
        if !self.flow_limit(self.max_tcp_flows) || !self.flow_limit(self.max_udp_flows)
            || !self.flow_limit(self.max_udp_associations) {
            return Err(ConfigError::InvalidFlowLimit);
        }
        if !self.byte_limit(self.max_pending_tcp_bytes) || !self.byte_limit(
            self.max_retained_tcp_bytes,
        ) {
            return Err(ConfigError::InvalidGlobalByteLimit);
        }
        let receive: u64 = self.tcp_receive_buffer_bytes as u64;
        let send: u64 = self.tcp_send_buffer_bytes as u64;
        if receive < MIN_BYTES || receive > MAX_SOCKET_BYTES || send < MIN_BYTES || send
            > MAX_SOCKET_BYTES {
            return Err(ConfigError::InvalidSocketBufferLimit);
        }
        match &self.name {
            Some(name) => {
                if !valid_name(name) {
                    return Err(ConfigError::InvalidName);
                }
            },
            None => {},
        }
        Ok(())
    }

    fn flow_limit(&self, limit: usize) -> (valid: bool)
        ensures
            valid == flows_ok(limit, self.workers),
    {
        limit >= self.workers && limit <= MAX_FLOWS
    }

    fn byte_limit(&self, limit: usize) -> (valid: bool)
        requires
            self.workers <= MAX_WORKERS,
        ensures
            valid == global_bytes_ok(limit, self.workers),
    {
        limit as u64 >= MIN_BYTES * self.workers as u64 && limit as u64 <= MAX_GLOBAL_BYTES
    }

    /// The settings of one data-plane process, which gets its share of the
    /// global limits.
    #[must_use]
    pub fn dataplane(&self, worker_index: usize) -> (config: Config)
        requires
            0 < self.workers,
        ensures
            config.target_mac == self.network.target_mac,
            config.gateway_mac == self.network.gateway_mac,
            match self.network.target_ipv4 {
                Some((address, _)) => config.target_ipv4 == Some(address),
                None => config.target_ipv4 is None,
            },
            config.gateway_ipv4 == self.network.gateway_ipv4,
            match self.network.target_ipv6 {
                Some((address, _)) => config.target_ipv6 == Some(address),
                None => config.target_ipv6 is None,
            },
            config.gateway_ipv6 == self.network.gateway_ipv6,
            config.tap_mtu == self.network.tap_mtu,
            config.tap_offload == self.network.tap_offload,
            match self.upstream {
                UpstreamConfig::Direct { host_loopback } => config.upstream == (Upstream::Direct {
                    host_loopback,
                }),
                UpstreamConfig::Proxy { protocol, address, credentials } => config.upstream == (
                Upstream::Proxy { protocol, address, credentials }),
            },
            config.dns_proxy_tcp == (self.dns.mode == DnsMode::ProxyTcp),
            config.dns_upstream == self.dns.upstream,
            config.max_tcp_flows == share(
                self.max_tcp_flows as int,
                self.workers as int,
                worker_index as int,
            ),
            config.max_pending_tcp_bytes == share(
                self.max_pending_tcp_bytes as int,
                self.workers as int,
                worker_index as int,
            ),
            config.max_retained_tcp_bytes == share(
                self.max_retained_tcp_bytes as int,
                self.workers as int,
                worker_index as int,
            ),
            config.tcp_receive_buffer_bytes == self.tcp_receive_buffer_bytes,
            config.tcp_send_buffer_bytes == self.tcp_send_buffer_bytes,
    {
        let upstream = match &self.upstream {
            UpstreamConfig::Direct { host_loopback } => Upstream::Direct {
                host_loopback: *host_loopback,
            },
            UpstreamConfig::Proxy { protocol, address, credentials } => Upstream::Proxy {
                protocol: *protocol,
                address: *address,
                credentials: match credentials {
                    Some(credentials) => Some(credentials.clone()),
                    None => None,
                },
            },
        };
        Config {
            target_mac: self.network.target_mac,
            gateway_mac: self.network.gateway_mac,
            target_ipv4: match self.network.target_ipv4 {
                Some((address, _)) => Some(address),
                None => None,
            },
            gateway_ipv4: self.network.gateway_ipv4,
            target_ipv6: match self.network.target_ipv6 {
                Some((address, _)) => Some(address),
                None => None,
            },
            gateway_ipv6: self.network.gateway_ipv6,
            tap_mtu: self.network.tap_mtu,
            tap_offload: self.network.tap_offload,
            upstream,
            dns_proxy_tcp: self.dns.mode == DnsMode::ProxyTcp,
            dns_upstream: self.dns.upstream,
            max_tcp_flows: worker_share(self.max_tcp_flows, self.workers, worker_index),
            max_pending_tcp_bytes: worker_share(
                self.max_pending_tcp_bytes,
                self.workers,
                worker_index,
            ),
            max_retained_tcp_bytes: worker_share(
                self.max_retained_tcp_bytes,
                self.workers,
                worker_index,
            ),
            tcp_receive_buffer_bytes: self.tcp_receive_buffer_bytes,
            tcp_send_buffer_bytes: self.tcp_send_buffer_bytes,
        }
    }

    /// Forgets the credentials, and nothing else.
    pub fn clear_proxy_credentials(&mut self)
        ensures
            *final(self) == (LaunchConfig {
                upstream: match old(self).upstream {
                    UpstreamConfig::Proxy { protocol, address, .. } => UpstreamConfig::Proxy {
                        protocol,
                        address,
                        credentials: None,
                    },
                    direct => direct,
                },
                ..*old(self)
            }),
    {
        match &mut self.upstream {
            UpstreamConfig::Proxy { credentials, .. } => {
                *credentials = None;
            },
            UpstreamConfig::Direct { .. } => {},
        }
    }
}

proof fn lemma_share_is_at_least(total: int, workers: int, index: int, least: int)
    requires
        0 < workers,
        0 <= index,
        0 <= least,
        least * workers <= total,
    ensures
        least <= share(total, workers, index) <= total,
{
    assert(least <= total / workers) by (nonlinear_arith)
        requires
            0 < workers,
            least * workers <= total,
    ;
    assert(0 <= least * workers) by (nonlinear_arith)
        requires
            0 < workers,
            0 <= least,
    ;
    assert(total == workers * (total / workers) + total % workers && 0 <= total % workers
        < workers) by (nonlinear_arith)
        requires
            0 < workers,
    ;
    assert(total / workers <= workers * (total / workers)) by (nonlinear_arith)
        requires
            0 < workers,
            0 <= total / workers,
    ;
}

/// Settings without a fault give every worker at least one flow of each sort and
/// sixteen kibibytes of each buffer, and no more than the global limit.
pub proof fn law_workers_get_enough(config: LaunchConfig, index: int)
    requires
        config.fault() is None,
        0 <= index,
    ensures
        1 <= share(config.max_tcp_flows as int, config.workers as int, index)
            <= config.max_tcp_flows,
        1 <= share(config.max_udp_flows as int, config.workers as int, index)
            <= config.max_udp_flows,
        1 <= share(config.max_udp_associations as int, config.workers as int, index)
            <= config.max_udp_associations,
        MIN_BYTES <= share(config.max_pending_tcp_bytes as int, config.workers as int, index)
            <= config.max_pending_tcp_bytes,
        MIN_BYTES <= share(config.max_retained_tcp_bytes as int, config.workers as int, index)
            <= config.max_retained_tcp_bytes,
{
    let workers = config.workers as int;
    lemma_share_is_at_least(config.max_tcp_flows as int, workers, index, 1);
    lemma_share_is_at_least(config.max_udp_flows as int, workers, index, 1);
    lemma_share_is_at_least(config.max_udp_associations as int, workers, index, 1);
    lemma_share_is_at_least(
        config.max_pending_tcp_bytes as int,
        workers,
        index,
        MIN_BYTES as int,
    );
    lemma_share_is_at_least(
        config.max_retained_tcp_bytes as int,
        workers,
        index,
        MIN_BYTES as int,
    );
}

/// Settings are in order exactly when there is a command and an address family,
/// the MTU is from 1280 to 65520, there are 1 to 256 workers, every limit on
/// flows gives each worker one and is at most 1048576, every limit on buffered
/// octets gives each worker 16 KiB and is at most one TiB, the socket buffers
/// are from 16 KiB to 16 MiB, and a name, if there is one, is a name.
pub proof fn law_settings_have_their_bounds(config: LaunchConfig)
    ensures
        config.fault() is None <==> {
            &&& config.command@.len() > 0
            &&& config.network.target_ipv4 is Some || config.network.target_ipv6 is Some
            &&& 1280 <= config.network.tap_mtu <= 65_520
            &&& 1 <= config.workers <= 256
            &&& config.workers <= config.max_tcp_flows <= 1_048_576
            &&& config.workers <= config.max_udp_flows <= 1_048_576
            &&& config.workers <= config.max_udp_associations <= 1_048_576
            &&& 16_384 * config.workers <= config.max_pending_tcp_bytes <= 1_099_511_627_776
            &&& 16_384 * config.workers <= config.max_retained_tcp_bytes <= 1_099_511_627_776
            &&& 16_384 <= config.tcp_receive_buffer_bytes <= 16_777_216
            &&& 16_384 <= config.tcp_send_buffer_bytes <= 16_777_216
            &&& config.name is Some ==> is_name(config.name->0@)
        },
{
}

/// Each fault is named after what is out of bounds.
pub proof fn law_faults_say_what_is_wrong(config: LaunchConfig)
    ensures
        config.fault() == Some(ConfigError::EmptyCommand) <==> config.command@.len() == 0,
        config.fault() == Some(ConfigError::NoIpFamily) ==> config.network.target_ipv4 is None
            && config.network.target_ipv6 is None,
        config.fault() == Some(ConfigError::InvalidTapMtu) ==> config.network.tap_mtu < 1280
            || config.network.tap_mtu > 65_520,
        config.fault() == Some(ConfigError::InvalidWorkerCount) ==> config.workers == 0
            || config.workers > 256,
        config.fault() == Some(ConfigError::InvalidFlowLimit) ==> {
            ||| config.max_tcp_flows < config.workers
            ||| config.max_udp_flows < config.workers
            ||| config.max_udp_associations < config.workers
            ||| config.max_tcp_flows > 1_048_576
            ||| config.max_udp_flows > 1_048_576
            ||| config.max_udp_associations > 1_048_576
        },
        config.fault() == Some(ConfigError::InvalidGlobalByteLimit) ==> {
            ||| config.max_pending_tcp_bytes < 16_384 * config.workers
            ||| config.max_retained_tcp_bytes < 16_384 * config.workers
            ||| config.max_pending_tcp_bytes > 1_099_511_627_776
            ||| config.max_retained_tcp_bytes > 1_099_511_627_776
        },
        config.fault() == Some(ConfigError::InvalidSocketBufferLimit) ==> {
            ||| config.tcp_receive_buffer_bytes < 16_384
            ||| config.tcp_send_buffer_bytes < 16_384
            ||| config.tcp_receive_buffer_bytes > 16_777_216
            ||| config.tcp_send_buffer_bytes > 16_777_216
        },
        config.fault() == Some(ConfigError::InvalidName) ==> config.name is Some && !is_name(
            config.name->0@,
        ),
{
}

/// A name is made of ASCII letters, digits, `_`, `.` and `-`, and is not empty.
pub proof fn law_names_are_plain(name: Seq<u8>, at: int)
    ensures
        !is_name(Seq::empty()),
        is_name(name) && 0 <= at < name.len() ==> {
            let c = name[at] as char;
            ||| '0' <= c <= '9'
            ||| 'A' <= c <= 'Z'
            ||| 'a' <= c <= 'z'
            ||| c == '_'
            ||| c == '.'
            ||| c == '-'
        },
        name.len() > 0 && (forall|i: int|
            0 <= i < name.len() ==> {
                let c = #[trigger] name[i] as char;
                ||| '0' <= c <= '9'
                ||| 'A' <= c <= 'Z'
                ||| 'a' <= c <= 'z'
                ||| c == '_'
                ||| c == '.'
                ||| c == '-'
            }) ==> is_name(name),
{
    if name.len() > 0 && (forall|i: int|
        0 <= i < name.len() ==> {
            let c = #[trigger] name[i] as char;
            ||| '0' <= c <= '9'
            ||| 'A' <= c <= 'Z'
            ||| 'a' <= c <= 'z'
            ||| c == '_'
            ||| c == '.'
            ||| c == '-'
        }) {
        assert forall|i: int| 0 <= i < name.len() implies is_name_octet(#[trigger] name[i]) by {}
    }
}

/// The synthetic network is that of `192.0.2.0/24` and a private IPv6 prefix of
/// 64 bits: the namespace is number two on each and the gateway number one, and
/// a family that is off has neither.
pub proof fn law_synthetic_network_numbers_its_ends(
    config: NetworkConfig,
    ipv4: bool,
    ipv6: bool,
)
    requires
        config.is_synthetic(ipv4, ipv6),
    ensures
        config.target_ipv4 is Some == ipv4 && config.gateway_ipv4 is Some == ipv4,
        config.target_ipv6 is Some == ipv6 && config.gateway_ipv6 is Some == ipv6,
        ipv4 ==> {
            &&& config.target_ipv4.unwrap().0@ == seq![192u8, 0, 2, 2]
            &&& config.target_ipv4.unwrap().1 == 24
            &&& config.gateway_ipv4.unwrap()@ == seq![192u8, 0, 2, 1]
        },
        ipv6 ==> {
            &&& config.target_ipv6.unwrap().1 == 64
            &&& config.target_ipv6.unwrap().0@.take(15) == config.gateway_ipv6.unwrap()@.take(15)
            &&& config.target_ipv6.unwrap().0@[0] == 0xfd
            &&& config.target_ipv6.unwrap().0@[15] == 2
            &&& config.gateway_ipv6.unwrap()@[15] == 1
        },
        config.target_mac.0@.take(5) == config.gateway_mac.0@.take(5),
        config.target_mac.0@[0] == 2,
        config.target_mac.0@[5] == 2 && config.gateway_mac.0@[5] == 1,
{
    assert(synthetic_ipv6(2).take(15) =~= synthetic_ipv6(1).take(15));
    assert(config.target_mac.0@.take(5) =~= config.gateway_mac.0@.take(5));
}

/// Each worker gets the same part of a total, but for the remainder: that goes
/// out one by one to the first.
pub proof fn law_share_is_an_equal_part(total: int, workers: int, index: int)
    requires
        total >= 0,
        workers > 0,
    ensures
        share(total, workers, index) == total / workers || share(total, workers, index) == total
            / workers + 1,
        share(total, workers, index) == total / workers + 1 <==> index < total % workers,
        share(total, 1, 0) == total,
{
}

} // verus!
