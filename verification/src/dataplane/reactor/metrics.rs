//! The counters of the data plane.

use vstd::prelude::*;

verus! {

/// A counter after one more event. It starts again at zero behind its largest
/// value.
pub open spec fn counted(n: u64) -> u64 {
    if n < u64::MAX {
        (n + 1) as u64
    } else {
        0
    }
}

pub open spec fn larger(a: u64, b: u64) -> u64 {
    if a >= b {
        a
    } else {
        b
    }
}

/// `a` without `b`, or zero if `b` is more.
pub open spec fn less(a: int, b: int) -> int {
    if a >= b {
        a - b
    } else {
        0
    }
}

/// The sum of two counts, or the largest count if it is more.
pub open spec fn capped_sum(a: int, b: int) -> u64 {
    if a + b <= u64::MAX {
        (a + b) as u64
    } else {
        u64::MAX
    }
}

pub fn count(n: u64) -> (next: u64)
    ensures
        next == counted(n),
{
    n.wrapping_add(1)
}

pub fn max(a: u64, b: u64) -> (most: u64)
    ensures
        most == larger(a, b),
{
    if a >= b {
        a
    } else {
        b
    }
}

#[derive(Clone, Copy, Debug, PartialEq, Eq, Structural)]
pub struct Metrics {
    pub tap_rx_packets: u64,
    pub tap_tx_packets: u64,
    pub parse_drops: u64,
    pub tcp_created: u64,
    pub tcp_closed: u64,
    pub tcp_retransmits: u64,
    pub tcp_zero_window_probes: u64,
    pub tcp_resets: u64,
    pub proxy_handshakes: u64,
    pub proxy_failures: u64,
    /// Gateway DNS attempts refused because no resolver is configured.
    pub dns_refused: u64,
    /// Intercepted namespace UDP queries.
    pub dns_queries: u64,
    /// Resolver responses relayed back into the namespace.
    pub dns_responses: u64,
    /// Locally synthesized SERVFAIL/FORMERR answers.
    pub dns_failures: u64,
    /// Responses truncated with TC for the client's UDP capacity.
    pub dns_truncated: u64,
    /// Resolver TCP connections opened.
    pub dns_upstream_connects: u64,
    /// Unparsable intercepted DNS messages dropped without an answer.
    pub dns_dropped: u64,
    /// DNS replies dropped because the TAP frame pool was exhausted. The
    /// client retransmits, so a lost UDP answer is harmless -- unlike a
    /// propagated error, which would tear down the reactor.
    pub dns_reply_drops: u64,
    pub tx_ack_watchdog_advances: u64,
    pub tx_ack_watchdog_tail_recoveries: u64,
    pub active_tcp_flows: u64,
    pub peak_tcp_flows: u64,
    pub pending_tcp_bytes: u64,
    pub peak_pending_tcp_bytes: u64,
    pub max_pending_tcp_bytes: u64,
    pub retained_tcp_bytes: u64,
    pub peak_retained_tcp_bytes: u64,
    pub max_retained_tcp_bytes: u64,
    pub pending_limit_hits: u64,
    pub retained_limit_hits: u64,
    pub pending_high_water_events: u64,
    pub frame_pool_exhaustions: u64,
    pub tap_mtu: u64,
    pub tap_offload: u64,
    pub gso_frames_rx: u64,
    pub gso_frames_tx: u64,
    pub gso_pool_exhaustions: u64,
    pub tap_frame_capacity: u64,
    pub tap_frame_pool_frames: u64,
    pub tap_frame_pool_bytes: u64,
    pub zero_window_events: u64,
    pub zero_window_flows: u64,
    pub peak_zero_window_flows: u64,
    pub socket_receive_buffer_bytes: u64,
    pub peak_socket_receive_buffer_bytes: u64,
    pub socket_send_buffer_bytes: u64,
    pub peak_socket_send_buffer_bytes: u64,
    pub max_socket_buffer_bytes: u64,
    pub flow_fd_limit: u64,
}

impl Metrics {
    pub open spec fn zero() -> Metrics {
        Metrics {
            tap_rx_packets: 0,
            tap_tx_packets: 0,
            parse_drops: 0,
            tcp_created: 0,
            tcp_closed: 0,
            tcp_retransmits: 0,
            tcp_zero_window_probes: 0,
            tcp_resets: 0,
            proxy_handshakes: 0,
            proxy_failures: 0,
            dns_refused: 0,
            dns_queries: 0,
            dns_responses: 0,
            dns_failures: 0,
            dns_truncated: 0,
            dns_upstream_connects: 0,
            dns_dropped: 0,
            dns_reply_drops: 0,
            tx_ack_watchdog_advances: 0,
            tx_ack_watchdog_tail_recoveries: 0,
            active_tcp_flows: 0,
            peak_tcp_flows: 0,
            pending_tcp_bytes: 0,
            peak_pending_tcp_bytes: 0,
            max_pending_tcp_bytes: 0,
            retained_tcp_bytes: 0,
            peak_retained_tcp_bytes: 0,
            max_retained_tcp_bytes: 0,
            pending_limit_hits: 0,
            retained_limit_hits: 0,
            pending_high_water_events: 0,
            frame_pool_exhaustions: 0,
            tap_mtu: 0,
            tap_offload: 0,
            gso_frames_rx: 0,
            gso_frames_tx: 0,
            gso_pool_exhaustions: 0,
            tap_frame_capacity: 0,
            tap_frame_pool_frames: 0,
            tap_frame_pool_bytes: 0,
            zero_window_events: 0,
            zero_window_flows: 0,
            peak_zero_window_flows: 0,
            socket_receive_buffer_bytes: 0,
            peak_socket_receive_buffer_bytes: 0,
            socket_send_buffer_bytes: 0,
            peak_socket_send_buffer_bytes: 0,
            max_socket_buffer_bytes: 0,
            flow_fd_limit: 0,
        }
    }
}

impl Default for Metrics {
    fn default() -> (metrics: Metrics)
        ensures
            metrics == Metrics::zero(),
    {
        Metrics {
            tap_rx_packets: 0,
            tap_tx_packets: 0,
            parse_drops: 0,
            tcp_created: 0,
            tcp_closed: 0,
            tcp_retransmits: 0,
            tcp_zero_window_probes: 0,
            tcp_resets: 0,
            proxy_handshakes: 0,
            proxy_failures: 0,
            dns_refused: 0,
            dns_queries: 0,
            dns_responses: 0,
            dns_failures: 0,
            dns_truncated: 0,
            dns_upstream_connects: 0,
            dns_dropped: 0,
            dns_reply_drops: 0,
            tx_ack_watchdog_advances: 0,
            tx_ack_watchdog_tail_recoveries: 0,
            active_tcp_flows: 0,
            peak_tcp_flows: 0,
            pending_tcp_bytes: 0,
            peak_pending_tcp_bytes: 0,
            max_pending_tcp_bytes: 0,
            retained_tcp_bytes: 0,
            peak_retained_tcp_bytes: 0,
            max_retained_tcp_bytes: 0,
            pending_limit_hits: 0,
            retained_limit_hits: 0,
            pending_high_water_events: 0,
            frame_pool_exhaustions: 0,
            tap_mtu: 0,
            tap_offload: 0,
            gso_frames_rx: 0,
            gso_frames_tx: 0,
            gso_pool_exhaustions: 0,
            tap_frame_capacity: 0,
            tap_frame_pool_frames: 0,
            tap_frame_pool_bytes: 0,
            zero_window_events: 0,
            zero_window_flows: 0,
            peak_zero_window_flows: 0,
            socket_receive_buffer_bytes: 0,
            peak_socket_receive_buffer_bytes: 0,
            socket_send_buffer_bytes: 0,
            peak_socket_send_buffer_bytes: 0,
            max_socket_buffer_bytes: 0,
            flow_fd_limit: 0,
        }
    }
}

/// A counter counts, a peak is the most, a difference stops at zero and a sum at the
/// largest count.
pub proof fn law_counters_count(n: u64, a: u64, b: u64)
    ensures
        n < u64::MAX ==> counted(n) == n + 1,
        larger(a, b) >= a && larger(a, b) >= b,
        larger(a, b) == a || larger(a, b) == b,
        less(a as int, b as int) >= 0,
        a >= b ==> less(a as int, b as int) + b == a,
        a < b ==> less(a as int, b as int) == 0,
        a + b <= u64::MAX ==> capped_sum(a as int, b as int) == a + b,
        a + b > u64::MAX ==> capped_sum(a as int, b as int) == u64::MAX,
{
}

} // verus!
