//! How large the buffers of the data plane are.

use super::config::Config;
use super::frame::{Error, GSO_MAX_L3_BYTES, prefix_len, vnet_len};
use super::metrics::Metrics;
use crate::packet::ethernet::ETHERNET_HEADER_LEN;
use crate::sys::resource::budget;
use vstd::prelude::*;

verus! {

/// The most frames that are read from the TAP device at once.
pub const TAP_BUDGET: usize = 32;

/// The most frames that are written to the TAP device at once.
pub const TAP_TX_BUDGET: usize = 32;

pub const TAP_FRAME_POOL_BYTES: usize = 16_777_216;
pub const TAP_FRAME_POOL_MAX_FRAMES: usize = 4096;

/// Byte budget of the super-frame pool; at the maximum frame size this yields
/// about 64 in-flight super-frames before sends degrade to MTU-sized frames.
pub const TAP_GSO_POOL_BYTES: usize = 4_194_304;

pub const EVENT_CAPACITY: usize = 128;

/// The period of the tick that drives retransmissions, zero-window probes and
/// the acknowledgment watchdog.
pub const TIMER_INTERVAL: u64 = 100_000_000;

#[derive(Clone, Copy, Debug, PartialEq, Eq, Structural)]
pub struct Sizes {
    pub vnet_len: usize,
    pub frame_capacity: usize,
    pub frame_pool_frames: usize,
    pub gso_frame_capacity: usize,
    pub gso_pool_frames: usize,
    pub tap_rx_capacity: usize,
}

pub open spec fn clamp(value: int, low: int, high: int) -> int {
    if value < low {
        low
    } else if value > high {
        high
    } else {
        value
    }
}

pub open spec fn capped_product(a: int, b: int, most: int) -> int {
    if a * b <= most {
        a * b
    } else {
        most
    }
}

/// The octets of a frame that holds a packet of the MTU.
pub open spec fn frame_octets(config: Config) -> int {
    config.tap_mtu + ETHERNET_HEADER_LEN + prefix_len(config.tap_offload)
}

/// The sizes for a configuration: the pool of ordinary frames stays within its
/// byte budget and its count, and with offload there are frames for the largest
/// packets.
pub open spec fn sizes_of(config: Config) -> Sizes {
    let capacity = frame_octets(config);
    let largest = prefix_len(config.tap_offload) + ETHERNET_HEADER_LEN + GSO_MAX_L3_BYTES;
    Sizes {
        vnet_len: prefix_len(config.tap_offload) as usize,
        frame_capacity: capacity as usize,
        frame_pool_frames: clamp(
            TAP_FRAME_POOL_BYTES as int / capacity,
            1,
            TAP_FRAME_POOL_MAX_FRAMES as int,
        ) as usize,
        gso_frame_capacity: largest as usize,
        gso_pool_frames: if config.tap_offload {
            (TAP_GSO_POOL_BYTES as int / largest) as usize
        } else {
            0
        },
        tap_rx_capacity: if config.tap_offload {
            largest as usize
        } else {
            capacity as usize
        },
    }
}

/// The counters that a configuration starts with.
pub open spec fn initial_metrics(config: Config) -> Metrics {
    let sizes = sizes_of(config);
    Metrics {
        max_pending_tcp_bytes: config.max_pending_tcp_bytes as u64,
        max_retained_tcp_bytes: config.max_retained_tcp_bytes as u64,
        flow_fd_limit: budget(config.max_tcp_flows as int, 0, 0) as u64,
        tap_mtu: config.tap_mtu as u64,
        tap_offload: if config.tap_offload {
            1
        } else {
            0
        },
        tap_frame_capacity: sizes.frame_capacity as u64,
        tap_frame_pool_frames: sizes.frame_pool_frames as u64,
        tap_frame_pool_bytes: capped_product(
            sizes.frame_pool_frames as int,
            sizes.frame_capacity as int,
            usize::MAX as int,
        ) as u64,
        max_socket_buffer_bytes: capped_product(
            config.max_tcp_flows as int,
            if config.tcp_receive_buffer_bytes + config.tcp_send_buffer_bytes <= usize::MAX {
                config.tcp_receive_buffer_bytes + config.tcp_send_buffer_bytes
            } else {
                usize::MAX as int
            },
            u64::MAX as int,
        ) as u64,
        ..Metrics::zero()
    }
}

/// Why the data plane cannot be set up, if it cannot.
pub open spec fn setup_error(config: Config) -> Option<Error> {
    if frame_octets(config) > usize::MAX {
        Some(Error::Invariant("TAP frame capacity overflow"))
    } else if budget(config.max_tcp_flows as int, 0, 0) > u64::MAX {
        Some(Error::Invariant("descriptor budget overflow"))
    } else {
        None
    }
}

/// Works out the sizes and the first counters.
pub fn plan_sizes(config: &Config) -> (result: Result<(Sizes, Metrics), Error>)
    ensures
        match result {
            Ok((sizes, metrics)) => {
                &&& setup_error(*config) is None
                &&& sizes == sizes_of(*config)
                &&& metrics == initial_metrics(*config)
            },
            Err(error) => setup_error(*config) == Some(error),
        },
{
    let prefix: usize = vnet_len(config.tap_offload);
    let capacity: usize = match (config.tap_mtu as usize).checked_add(
        ETHERNET_HEADER_LEN + prefix,
    ) {
        Some(capacity) => capacity,
        None => return Err(Error::Invariant("TAP frame capacity overflow")),
    };
    let fitting: usize = TAP_FRAME_POOL_BYTES / capacity;
    let frames: usize = if fitting < 1 {
        1
    } else if fitting > TAP_FRAME_POOL_MAX_FRAMES {
        TAP_FRAME_POOL_MAX_FRAMES
    } else {
        fitting
    };
    let flow_fd_limit: u64 = match crate::sys::resource::dataplane_nofile_limit(
        config.max_tcp_flows,
        0,
        0,
    ) {
        Ok(limit) => limit,
        Err(_) => return Err(Error::Invariant("descriptor budget overflow")),
    };
    let largest: usize = prefix + ETHERNET_HEADER_LEN + GSO_MAX_L3_BYTES;
    let gso_frames: usize = if config.tap_offload {
        TAP_GSO_POOL_BYTES / largest
    } else {
        0
    };
    let pool_bytes: usize = match frames.checked_mul(capacity) {
        Some(bytes) => bytes,
        None => usize::MAX,
    };
    let per_flow: usize = config.tcp_receive_buffer_bytes.saturating_add(
        config.tcp_send_buffer_bytes,
    );
    let all_flows: u64 = match (config.max_tcp_flows as u64).checked_mul(per_flow as u64) {
        Some(bytes) => bytes,
        None => u64::MAX,
    };
    let mut metrics = Metrics::default();
    metrics.max_pending_tcp_bytes = config.max_pending_tcp_bytes as u64;
    metrics.max_retained_tcp_bytes = config.max_retained_tcp_bytes as u64;
    metrics.flow_fd_limit = flow_fd_limit;
    metrics.tap_mtu = config.tap_mtu as u64;
    metrics.tap_offload =
    if config.tap_offload {
        1
    } else {
        0
    };
    metrics.tap_frame_capacity = capacity as u64;
    metrics.tap_frame_pool_frames = frames as u64;
    metrics.tap_frame_pool_bytes = pool_bytes as u64;
    metrics.max_socket_buffer_bytes = all_flows;
    let sizes = Sizes {
        vnet_len: prefix,
        frame_capacity: capacity,
        frame_pool_frames: frames,
        gso_frame_capacity: largest,
        gso_pool_frames: gso_frames,
        tap_rx_capacity: if config.tap_offload {
            largest
        } else {
            capacity
        },
    };
    Ok((sizes, metrics))
}

/// There is always a frame to answer with, no pool is larger than its budget
/// unless a single frame is, and with offload there is a super-frame.
pub proof fn law_pools_fit_their_budgets(config: Config)
    requires
        setup_error(config) is None,
    ensures
        sizes_of(config).frame_pool_frames >= 1,
        sizes_of(config).frame_pool_frames > 1 ==> sizes_of(config).frame_pool_frames
            * sizes_of(config).frame_capacity <= TAP_FRAME_POOL_BYTES,
        config.tap_offload ==> sizes_of(config).gso_pool_frames >= 1,
        sizes_of(config).gso_pool_frames * sizes_of(config).gso_frame_capacity
            <= TAP_GSO_POOL_BYTES,
{
    let capacity = frame_octets(config);
    let fitting = TAP_FRAME_POOL_BYTES as int / capacity;
    assert(fitting * capacity <= TAP_FRAME_POOL_BYTES) by (nonlinear_arith)
        requires
            capacity > 0,
            fitting == TAP_FRAME_POOL_BYTES as int / capacity,
    ;
    if config.tap_offload {
        let largest = prefix_len(true) + ETHERNET_HEADER_LEN + GSO_MAX_L3_BYTES;
        assert(largest == 65_559);
        assert(TAP_GSO_POOL_BYTES as int / largest == 63);
        assert(sizes_of(config).gso_pool_frames == 63);
    }
    let frames = sizes_of(config).frame_pool_frames as int;
    if frames > 1 {
        assert(frames * capacity <= fitting * capacity) by (nonlinear_arith)
            requires
                frames <= fitting,
                capacity > 0,
        ;
    }
}

/// An ordinary frame has room for a packet of the MTU behind its headers. The
/// pool of them stays within sixteen mebibytes and 4096 frames, but for the one
/// frame that there always is.
pub proof fn law_pools_stay_within_their_budgets(config: Config)
    requires
        setup_error(config) is None,
    ensures
        ({
            let sizes = sizes_of(config);
            let prefix = if config.tap_offload {
                10int
            } else {
                0
            };
            &&& sizes.vnet_len == prefix
            &&& sizes.frame_capacity == prefix + 14 + config.tap_mtu
            &&& 1 <= sizes.frame_pool_frames <= 4096
            &&& sizes.frame_pool_frames > 1 ==> sizes.frame_pool_frames * sizes.frame_capacity
                <= 16_777_216
            &&& sizes.frame_pool_frames < 4096 ==> (sizes.frame_pool_frames + 1)
                * sizes.frame_capacity > 16_777_216
            &&& sizes.gso_frame_capacity == prefix + 65_549
            &&& config.tap_offload ==> sizes.gso_pool_frames == 63 && sizes.tap_rx_capacity
                == 65_559
            &&& !config.tap_offload ==> sizes.gso_pool_frames == 0 && sizes.tap_rx_capacity
                == sizes.frame_capacity
        }),
{
    let capacity = frame_octets(config);
    let fitting = 16_777_216int / capacity;
    assert(fitting * capacity <= 16_777_216 && (fitting + 1) * capacity > 16_777_216) by (
        nonlinear_arith)
        requires
            capacity > 0,
            fitting == 16_777_216int / capacity,
    ;
    if fitting > 4096 {
        assert(4096 * capacity <= fitting * capacity) by (nonlinear_arith)
            requires
                fitting > 4096,
                capacity > 0,
        ;
    }
    if fitting < 1 {
        assert(2 * capacity > 16_777_216) by (nonlinear_arith)
            requires
                (fitting + 1) * capacity > 16_777_216,
                fitting < 1,
                capacity > 0,
        ;
    }
}

/// The first counters tell the limits that the data plane was set up with, and
/// nothing has happened yet.
pub proof fn law_first_counters_tell_the_limits(config: Config)
    requires
        setup_error(config) is None,
    ensures
        ({
            let metrics = initial_metrics(config);
            &&& metrics.max_pending_tcp_bytes == config.max_pending_tcp_bytes
            &&& metrics.max_retained_tcp_bytes == config.max_retained_tcp_bytes
            &&& metrics.tap_mtu == config.tap_mtu
            &&& metrics.tap_offload == if config.tap_offload {
                1int
            } else {
                0
            }
            &&& metrics.tap_frame_capacity == sizes_of(config).frame_capacity
            &&& metrics.tap_frame_pool_frames == sizes_of(config).frame_pool_frames
            &&& metrics.flow_fd_limit == budget(config.max_tcp_flows as int, 0, 0)
            &&& metrics.tap_tx_packets == 0
            &&& metrics.gso_frames_tx == 0
            &&& metrics.frame_pool_exhaustions == 0
        }),
{
}

} // verus!
