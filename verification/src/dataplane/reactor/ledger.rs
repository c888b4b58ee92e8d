//! The bytes that the data plane holds for its flows, and the limits on them.

use super::metrics::{Metrics, capped_sum, count, counted, larger, less, max};
use vstd::prelude::*;

verus! {

/// Pressure comes on at seven eighths of the limit and goes off at three
/// quarters.
pub open spec fn pressure(current: bool, bytes: int, limit: int) -> bool {
    let high = (if limit * 7 <= usize::MAX {
        limit * 7
    } else {
        usize::MAX as int
    }) / 8;
    let low = (if limit * 3 <= usize::MAX {
        limit * 3
    } else {
        usize::MAX as int
    }) / 4;
    if current {
        bytes > low
    } else {
        bytes >= high
    }
}

#[must_use]
pub fn pending_pressure_state(current: bool, bytes: usize, limit: usize) -> (pressured: bool)
    ensures
        pressured == pressure(current, bytes as int, limit as int),
{
    let high: usize = (if limit <= usize::MAX / 7 {
        limit * 7
    } else {
        usize::MAX
    }) / 8;
    let low: usize = (if limit <= usize::MAX / 3 {
        limit * 3
    } else {
        usize::MAX
    }) / 4;
    if current {
        bytes > low
    } else {
        bytes >= high
    }
}

#[derive(Clone, Copy, Debug, PartialEq, Eq, Structural)]
pub struct Ledger {
    pub max_pending: usize,
    pub max_retained: usize,
    /// The bytes that wait for room in an upstream socket.
    pub pending: usize,
    /// The bytes sent to the namespace and not acknowledged.
    pub retained: usize,
    /// Whether the flows are told to send no more.
    pub pressured: bool,
    /// Whether `pressured` changed since the flows were last told.
    pub pressure_changed: bool,
    pub metrics: Metrics,
}

impl Ledger {
    /// The limits are kept, and the counters show what is held now and what was
    /// held at most.
    pub open spec fn wf(self) -> bool {
        &&& self.pending <= self.max_pending
        &&& self.retained <= self.max_retained
        &&& self.metrics.pending_tcp_bytes == self.pending
        &&& self.metrics.retained_tcp_bytes == self.retained
        &&& self.metrics.peak_pending_tcp_bytes >= self.pending
        &&& self.metrics.peak_retained_tcp_bytes >= self.retained
    }

    /// The ledger with the pressure that its bytes ask for.
    pub open spec fn weighed(self) -> Ledger {
        let pressured = pressure(self.pressured, self.pending as int, self.max_pending as int);
        if pressured == self.pressured {
            self
        } else {
            Ledger {
                pressured,
                pressure_changed: true,
                metrics: if pressured {
                    Metrics {
                        pending_high_water_events: counted(
                            self.metrics.pending_high_water_events,
                        ),
                        ..self.metrics
                    }
                } else {
                    self.metrics
                },
                ..self
            }
        }
    }

    /// The ledger with `pending` bytes that wait.
    pub open spec fn with_pending(self, pending: int) -> Ledger {
        Ledger {
            pending: pending as usize,
            metrics: Metrics { pending_tcp_bytes: pending as u64, ..self.metrics },
            ..self
        }
    }

    /// The ledger after `length` more bytes began to wait.
    pub open spec fn enqueued(self, length: int) -> Ledger {
        let held = self.with_pending(self.pending + length);
        Ledger {
            metrics: Metrics {
                peak_pending_tcp_bytes: larger(
                    held.metrics.peak_pending_tcp_bytes,
                    held.metrics.pending_tcp_bytes,
                ),
                ..held.metrics
            },
            ..held
        }.weighed()
    }

    /// The ledger after `length` bytes stopped waiting.
    pub open spec fn consumed(self, length: int) -> Ledger {
        self.with_pending(less(self.pending as int, length)).weighed()
    }

    /// Whether `length` more bytes may be held for the namespace.
    pub open spec fn admits(self, length: int) -> bool {
        length <= less(self.max_retained as int, self.retained as int)
    }

    /// The ledger after `length` more bytes were held for the namespace.
    pub open spec fn reserved(self, length: int) -> Ledger {
        let retained = (self.retained + length) as u64;
        Ledger {
            retained: retained as usize,
            metrics: Metrics {
                retained_tcp_bytes: retained,
                peak_retained_tcp_bytes: larger(self.metrics.peak_retained_tcp_bytes, retained),
                ..self.metrics
            },
            ..self
        }
    }

    /// The ledger after a reservation was turned down.
    pub open spec fn refused(self) -> Ledger {
        Ledger {
            metrics: Metrics {
                retained_limit_hits: counted(self.metrics.retained_limit_hits),
                ..self.metrics
            },
            ..self
        }
    }

    /// The ledger after `length` bytes were let go.
    pub open spec fn released(self, length: int) -> Ledger {
        let retained = less(self.retained as int, length);
        Ledger {
            retained: retained as usize,
            metrics: Metrics { retained_tcp_bytes: retained as u64, ..self.metrics },
            ..self
        }
    }

    /// The ledger after a flow was opened whose socket has these buffers.
    pub open spec fn opened(self, receive_buffer: usize, send_buffer: usize) -> Ledger {
        let active = counted(self.metrics.active_tcp_flows);
        let receive = capped_sum(
            self.metrics.socket_receive_buffer_bytes as int,
            receive_buffer as int,
        );
        let send = capped_sum(self.metrics.socket_send_buffer_bytes as int, send_buffer as int);
        Ledger {
            metrics: Metrics {
                active_tcp_flows: active,
                peak_tcp_flows: larger(self.metrics.peak_tcp_flows, active),
                socket_receive_buffer_bytes: receive,
                peak_socket_receive_buffer_bytes: larger(
                    self.metrics.peak_socket_receive_buffer_bytes,
                    receive,
                ),
                socket_send_buffer_bytes: send,
                peak_socket_send_buffer_bytes: larger(
                    self.metrics.peak_socket_send_buffer_bytes,
                    send,
                ),
                ..self.metrics
            },
            ..self
        }
    }

    /// The ledger after a flow was closed that held this.
    pub open spec fn closed(
        self,
        pending: int,
        retained: int,
        receive_buffer: usize,
        send_buffer: usize,
        zero_window: bool,
    ) -> Ledger {
        let held = self.consumed(pending).released(retained);
        Ledger {
            metrics: Metrics {
                active_tcp_flows: less(held.metrics.active_tcp_flows as int, 1) as u64,
                socket_receive_buffer_bytes: less(
                    held.metrics.socket_receive_buffer_bytes as int,
                    receive_buffer as int,
                ) as u64,
                socket_send_buffer_bytes: less(
                    held.metrics.socket_send_buffer_bytes as int,
                    send_buffer as int,
                ) as u64,
                zero_window_flows: if zero_window {
                    less(held.metrics.zero_window_flows as int, 1) as u64
                } else {
                    held.metrics.zero_window_flows
                },
                ..held.metrics
            },
            ..held
        }
    }

    /// An empty ledger under the given limits, with the given counters.
    #[must_use]
    pub fn new(max_pending: usize, max_retained: usize, metrics: Metrics) -> (ledger: Ledger)
        requires
            metrics.pending_tcp_bytes == 0,
            metrics.retained_tcp_bytes == 0,
        ensures
            ledger == (Ledger {
                max_pending,
                max_retained,
                pending: 0,
                retained: 0,
                pressured: false,
                pressure_changed: false,
                metrics,
            }),
            ledger.wf(),
    {
        Ledger {
            max_pending,
            max_retained,
            pending: 0,
            retained: 0,
            pressured: false,
            pressure_changed: false,
            metrics,
        }
    }

    /// Puts the pressure on or off as the waiting bytes ask for it.
    pub fn update_pending_pressure_state(&mut self)
        ensures
            *final(self) == old(self).weighed(),
    {
        let pressured = pending_pressure_state(self.pressured, self.pending, self.max_pending);
        if pressured != self.pressured {
            self.pressured = pressured;
            self.pressure_changed = true;
            if pressured {
                self.metrics.pending_high_water_events =
                count(self.metrics.pending_high_water_events);
            }
        }
    }

    pub fn note_enqueued(&mut self, length: usize)
        requires
            old(self).wf(),
            length <= old(self).max_pending - old(self).pending,
        ensures
            *final(self) == old(self).enqueued(length as int),
            final(self).wf(),
    {
        self.pending = self.pending + length;
        self.metrics.pending_tcp_bytes = self.pending as u64;
        self.metrics.peak_pending_tcp_bytes =
        max(self.metrics.peak_pending_tcp_bytes, self.metrics.pending_tcp_bytes);
        self.update_pending_pressure_state();
    }

    pub fn note_consumed(&mut self, length: usize)
        requires
            old(self).wf(),
        ensures
            *final(self) == old(self).consumed(length as int),
            final(self).wf(),
    {
        self.pending = self.pending.saturating_sub(length);
        self.metrics.pending_tcp_bytes = self.pending as u64;
        self.update_pending_pressure_state();
    }

    /// Holds `length` bytes for the namespace, unless the limit is in the way.
    pub fn reserve_retained_bytes(&mut self, length: usize) -> (reserved: bool)
        requires
            old(self).wf(),
        ensures
            final(self).wf(),
            reserved == old(self).admits(length as int),
            *final(self) == if reserved {
                old(self).reserved(length as int)
            } else {
                old(self).refused()
            },
    {
        if length > self.max_retained.saturating_sub(self.retained) {
            self.metrics.retained_limit_hits = count(self.metrics.retained_limit_hits);
            return false;
        }
        self.retained = self.retained + length;
        self.metrics.retained_tcp_bytes = self.retained as u64;
        self.metrics.peak_retained_tcp_bytes =
        max(self.metrics.peak_retained_tcp_bytes, self.metrics.retained_tcp_bytes);
        true
    }

    pub fn release_retained_bytes(&mut self, length: usize)
        requires
            old(self).wf(),
        ensures
            final(self).wf(),
            *final(self) == old(self).released(length as int),
    {
        self.retained = self.retained.saturating_sub(length);
        self.metrics.retained_tcp_bytes = self.retained as u64;
    }

    pub fn note_opened(&mut self, receive_buffer: usize, send_buffer: usize)
        requires
            old(self).wf(),
        ensures
            final(self).wf(),
            *final(self) == old(self).opened(receive_buffer, send_buffer),
    {
        self.metrics.active_tcp_flows = count(self.metrics.active_tcp_flows);
        self.metrics.peak_tcp_flows =
        max(self.metrics.peak_tcp_flows, self.metrics.active_tcp_flows);
        self.metrics.socket_receive_buffer_bytes =
        self.metrics.socket_receive_buffer_bytes.saturating_add(receive_buffer as u64);
        self.metrics.peak_socket_receive_buffer_bytes =
        max(
            self.metrics.peak_socket_receive_buffer_bytes,
            self.metrics.socket_receive_buffer_bytes,
        );
        self.metrics.socket_send_buffer_bytes =
        self.metrics.socket_send_buffer_bytes.saturating_add(send_buffer as u64);
        self.metrics.peak_socket_send_buffer_bytes =
        max(
            self.metrics.peak_socket_send_buffer_bytes,
            self.metrics.socket_send_buffer_bytes,
        );
    }

    pub fn note_closed(
        &mut self,
        pending: usize,
        retained: usize,
        receive_buffer: usize,
        send_buffer: usize,
        zero_window: bool,
    )
        requires
            old(self).wf(),
        ensures
            final(self).wf(),
            *final(self) == old(self).closed(
                pending as int,
                retained as int,
                receive_buffer,
                send_buffer,
                zero_window,
            ),
    {
        self.note_consumed(pending);
        self.release_retained_bytes(retained);
        self.metrics.active_tcp_flows = self.metrics.active_tcp_flows.saturating_sub(1);
        self.metrics.socket_receive_buffer_bytes =
        self.metrics.socket_receive_buffer_bytes.saturating_sub(receive_buffer as u64);
        self.metrics.socket_send_buffer_bytes =
        self.metrics.socket_send_buffer_bytes.saturating_sub(send_buffer as u64);
        if zero_window {
            self.metrics.zero_window_flows = self.metrics.zero_window_flows.saturating_sub(1);
        }
    }
}

/// Pressure does not flicker: between three quarters and seven eighths of the
/// limit it stays as it is, above it is on, and below it is off.
pub proof fn law_pressure_has_hysteresis(current: bool, bytes: int, limit: int)
    requires
        0 <= bytes,
        0 <= limit,
        limit * 7 <= usize::MAX,
    ensures
        limit * 3 / 4 < bytes < limit * 7 / 8 ==> pressure(current, bytes, limit) == current,
        bytes >= limit * 7 / 8 && bytes > limit * 3 / 4 ==> pressure(current, bytes, limit),
        bytes <= limit * 3 / 4 && bytes < limit * 7 / 8 ==> !pressure(current, bytes, limit),
{
}

/// Bytes that were reserved and then let go leave the ledger with as many as
/// before.
pub proof fn law_release_undoes_reserve(ledger: Ledger, length: int)
    requires
        ledger.wf(),
        0 <= length,
        ledger.admits(length),
    ensures
        ledger.reserved(length).released(length).retained == ledger.retained,
        ledger.reserved(length).retained <= ledger.max_retained,
{
}

/// Bytes that waited and were then consumed leave as many waiting as before.
pub proof fn law_consume_undoes_enqueue(ledger: Ledger, length: int)
    requires
        ledger.wf(),
        0 <= length <= ledger.max_pending - ledger.pending,
    ensures
        ledger.enqueued(length).consumed(length).pending == ledger.pending,
        ledger.enqueued(length).pending <= ledger.max_pending,
{
}

/// Waiting bytes are counted one for one, and so are the bytes that are held for the
/// namespace; the peaks never fall.
pub proof fn law_ledger_counts_bytes(ledger: Ledger, length: int)
    requires
        ledger.wf(),
        0 <= length,
    ensures
        length <= ledger.max_pending - ledger.pending ==> {
            let next = ledger.enqueued(length);
            &&& next.pending == ledger.pending + length
            &&& next.retained == ledger.retained
            &&& next.metrics.pending_tcp_bytes == next.pending
            &&& next.metrics.peak_pending_tcp_bytes >= next.pending
            &&& next.metrics.peak_pending_tcp_bytes >= ledger.metrics.peak_pending_tcp_bytes
            &&& next.max_pending == ledger.max_pending
        },
        length <= ledger.pending ==> {
            let next = ledger.consumed(length);
            &&& next.pending == ledger.pending - length
            &&& next.retained == ledger.retained
            &&& next.metrics.peak_pending_tcp_bytes == ledger.metrics.peak_pending_tcp_bytes
        },
        ledger.admits(length) <==> ledger.retained + length <= ledger.max_retained,
        ledger.retained + length <= ledger.max_retained ==> {
            let next = ledger.reserved(length);
            &&& next.retained == ledger.retained + length
            &&& next.pending == ledger.pending
            &&& next.metrics.retained_tcp_bytes == next.retained
            &&& next.metrics.peak_retained_tcp_bytes >= next.retained
            &&& next.metrics.peak_retained_tcp_bytes >= ledger.metrics.peak_retained_tcp_bytes
        },
        length <= ledger.retained ==> {
            let next = ledger.released(length);
            &&& next.retained == ledger.retained - length
            &&& next.pending == ledger.pending
        },
{
}

/// A refusal is counted and changes nothing else of what is held.
pub proof fn law_refusal_holds_nothing(ledger: Ledger)
    ensures
        ledger.refused().retained == ledger.retained,
        ledger.refused().pending == ledger.pending,
        ledger.refused().pressured == ledger.pressured,
        ledger.metrics.retained_limit_hits < u64::MAX
            ==> ledger.refused().metrics.retained_limit_hits == ledger.metrics.retained_limit_hits
            + 1,
{
}

/// Opening a flow and closing it again leaves as many flows and socket buffers, and
/// closing lets go of what the flow held.
pub proof fn law_closing_undoes_opening(
    ledger: Ledger,
    pending: int,
    retained: int,
    receive_buffer: usize,
    send_buffer: usize,
)
    requires
        ledger.wf(),
        0 <= pending <= ledger.pending,
        0 <= retained <= ledger.retained,
        ledger.metrics.active_tcp_flows < u64::MAX,
        ledger.metrics.socket_receive_buffer_bytes + receive_buffer <= u64::MAX,
        ledger.metrics.socket_send_buffer_bytes + send_buffer <= u64::MAX,
    ensures
        ({
            let opened = ledger.opened(receive_buffer, send_buffer);
            let closed = opened.closed(pending, retained, receive_buffer, send_buffer, false);
            &&& opened.metrics.active_tcp_flows == ledger.metrics.active_tcp_flows + 1
            &&& opened.metrics.peak_tcp_flows >= opened.metrics.active_tcp_flows
            &&& opened.metrics.socket_receive_buffer_bytes
                == ledger.metrics.socket_receive_buffer_bytes + receive_buffer
            &&& opened.metrics.socket_send_buffer_bytes == ledger.metrics.socket_send_buffer_bytes
                + send_buffer
            &&& closed.metrics.active_tcp_flows == ledger.metrics.active_tcp_flows
            &&& closed.metrics.socket_receive_buffer_bytes
                == ledger.metrics.socket_receive_buffer_bytes
            &&& closed.metrics.socket_send_buffer_bytes == ledger.metrics.socket_send_buffer_bytes
            &&& closed.pending == ledger.pending - pending
            &&& closed.retained == ledger.retained - retained
        }),
{
}

/// A change of the pressure is noted for the flows to be told, and so is nothing
/// else; pressure that comes on is counted.
pub proof fn law_pressure_changes_are_noted(ledger: Ledger)
    ensures
        ({
            let next = ledger.weighed();
            &&& next.pressured == ledger.pressured ==> next == ledger
            &&& next.pressured != ledger.pressured ==> next.pressure_changed
            &&& next.pending == ledger.pending
            &&& next.pressured && !ledger.pressured
                && ledger.metrics.pending_high_water_events < u64::MAX
                ==> next.metrics.pending_high_water_events
                == ledger.metrics.pending_high_water_events + 1
        }),
{
}

} // verus!
