//! One adapted TCP connection.

use super::sequence::{advanced, ahead, precedes};
use crate::net::SocketAddress;
use vstd::prelude::*;

verus! {

#[derive(Clone, Copy, Debug, PartialEq, Eq, Structural)]
pub enum FlowInterface {
    NamespaceTap,
    HostSocket,
    ProxyTunnel,
}

#[derive(Clone, Copy, Debug, PartialEq, Eq)]
pub struct FlowSide {
    pub interface: FlowInterface,
    pub local_endpoint: SocketAddress,
    pub logical_peer: SocketAddress,
    pub transport_peer: SocketAddress,
}

#[derive(Clone, Copy, Debug, PartialEq, Eq)]
pub struct FlowSides {
    pub initiating: FlowSide,
    pub target: FlowSide,
}

impl FlowSides {
    /// The endpoints that the namespace sees.
    pub open spec fn key(self) -> FlowKey {
        FlowKey {
            namespace: self.initiating.logical_peer,
            target: self.initiating.local_endpoint,
        }
    }

    #[must_use]
    pub fn namespace_key(self) -> (key: FlowKey)
        ensures
            key == self.key(),
    {
        FlowKey {
            namespace: self.initiating.logical_peer,
            target: self.initiating.local_endpoint,
        }
    }
}

#[derive(Clone, Copy, Debug, PartialEq, Eq, Structural)]
pub enum FlowType {
    Tcp,
}

#[derive(Clone, Copy, Debug, PartialEq, Eq, Structural)]
pub enum ConstructionState {
    New,
    Initiated,
    Targeted,
    Typed,
    Active,
}

/// The steps that bring a flow up, in their order.
#[derive(Clone, Copy, Debug, PartialEq, Eq)]
pub struct FlowConstruction {
    state: ConstructionState,
    initiating: Option<FlowSide>,
    target: Option<FlowSide>,
    flow_type: Option<FlowType>,
}

impl Default for FlowConstruction {
    fn default() -> (construction: FlowConstruction)
        ensures
            construction@ == (ConstructionState::New, None::<FlowSide>, None::<FlowSide>),
    {
        FlowConstruction::new()
    }
}

impl View for FlowConstruction {
    type V = (ConstructionState, Option<FlowSide>, Option<FlowSide>);

    /// The step that was reached, and the two sides as far as they are set.
    closed spec fn view(&self) -> (ConstructionState, Option<FlowSide>, Option<FlowSide>) {
        (self.state, self.initiating, self.target)
    }
}

impl FlowConstruction {
    #[verifier::type_invariant]
    spec fn in_order(self) -> bool {
        &&& self.initiating is Some <==> self.state != ConstructionState::New
        &&& self.target is Some <==> self.state != ConstructionState::New && self.state
            != ConstructionState::Initiated
        &&& self.flow_type is Some <==> self.state == ConstructionState::Typed || self.state
            == ConstructionState::Active
    }

    /// Both sides, once the flow is active.
    pub open spec fn sides(&self) -> Option<FlowSides> {
        if self@.0 == ConstructionState::Active && self@.1 is Some && self@.2 is Some {
            Some(FlowSides { initiating: self@.1.unwrap(), target: self@.2.unwrap() })
        } else {
            None
        }
    }

    #[must_use]
    pub fn new() -> (construction: FlowConstruction)
        ensures
            construction@ == (ConstructionState::New, None::<FlowSide>, None::<FlowSide>),
    {
        FlowConstruction {
            state: ConstructionState::New,
            initiating: None,
            target: None,
            flow_type: None,
        }
    }

    #[must_use]
    pub fn state(&self) -> (state: ConstructionState)
        ensures
            state == self@.0,
    {
        self.state
    }

    pub fn set_initiating(&mut self, side: FlowSide) -> (result: Result<(), ConstructionState>)
        ensures
            match result {
                Ok(()) => {
                    &&& old(self)@.0 == ConstructionState::New
                    &&& final(self)@ == (
                        ConstructionState::Initiated,
                        Some(side),
                        None::<FlowSide>,
                    )
                },
                Err(state) => {
                    &&& old(self)@.0 != ConstructionState::New
                    &&& state == old(self)@.0
                    &&& *final(self) == *old(self)
                },
            },
    {
        proof {
            use_type_invariant(&*self);
        }
        if self.state != ConstructionState::New {
            return Err(self.state);
        }
        *self =
        FlowConstruction {
            state: ConstructionState::Initiated,
            initiating: Some(side),
            target: None,
            flow_type: None,
        };
        Ok(())
    }

    pub fn set_target(&mut self, side: FlowSide) -> (result: Result<(), ConstructionState>)
        ensures
            match result {
                Ok(()) => {
                    &&& old(self)@.0 == ConstructionState::Initiated
                    &&& final(self)@ == (ConstructionState::Targeted, old(self)@.1, Some(side))
                },
                Err(state) => {
                    &&& old(self)@.0 != ConstructionState::Initiated
                    &&& state == old(self)@.0
                    &&& *final(self) == *old(self)
                },
            },
    {
        proof {
            use_type_invariant(&*self);
        }
        if self.state != ConstructionState::Initiated {
            return Err(self.state);
        }
        *self =
        FlowConstruction {
            state: ConstructionState::Targeted,
            initiating: self.initiating,
            target: Some(side),
            flow_type: None,
        };
        Ok(())
    }

    pub fn set_type(&mut self, flow_type: FlowType) -> (result: Result<(), ConstructionState>)
        ensures
            match result {
                Ok(()) => {
                    &&& old(self)@.0 == ConstructionState::Targeted
                    &&& final(self)@ == (ConstructionState::Typed, old(self)@.1, old(self)@.2)
                },
                Err(state) => {
                    &&& old(self)@.0 != ConstructionState::Targeted
                    &&& state == old(self)@.0
                    &&& *final(self) == *old(self)
                },
            },
    {
        proof {
            use_type_invariant(&*self);
        }
        if self.state != ConstructionState::Targeted {
            return Err(self.state);
        }
        *self =
        FlowConstruction {
            state: ConstructionState::Typed,
            initiating: self.initiating,
            target: self.target,
            flow_type: Some(flow_type),
        };
        Ok(())
    }

    pub fn activate(&mut self) -> (result: Result<FlowSides, ConstructionState>)
        ensures
            match result {
                Ok(sides) => {
                    &&& old(self)@.0 == ConstructionState::Typed
                    &&& final(self)@ == (ConstructionState::Active, old(self)@.1, old(self)@.2)
                    &&& final(self).sides() == Some(sides)
                },
                Err(state) => {
                    &&& old(self)@.0 != ConstructionState::Typed
                    &&& state == old(self)@.0
                    &&& *final(self) == *old(self)
                },
            },
    {
        proof {
            use_type_invariant(&*self);
        }
        if self.state != ConstructionState::Typed {
            return Err(self.state);
        }
        let sides = FlowSides {
            initiating: self.initiating.unwrap(),
            target: self.target.unwrap(),
        };
        *self =
        FlowConstruction {
            state: ConstructionState::Active,
            initiating: self.initiating,
            target: self.target,
            flow_type: self.flow_type,
        };
        Ok(sides)
    }

    #[must_use]
    pub fn active_sides(&self) -> (sides: Option<FlowSides>)
        ensures
            sides == self.sides(),
            sides is Some <==> self@.0 == ConstructionState::Active,
    {
        proof {
            use_type_invariant(self);
        }
        if self.state == ConstructionState::Active {
            Some(
                FlowSides {
                    initiating: self.initiating.unwrap(),
                    target: self.target.unwrap(),
                },
            )
        } else {
            None
        }
    }
}

#[derive(Clone, Copy, Debug, Eq, Hash)]
pub struct FlowKey {
    pub namespace: SocketAddress,
    pub target: SocketAddress,
}

impl PartialEq for FlowKey {
    fn eq(&self, other: &Self) -> (same: bool) {
        self.namespace == other.namespace && self.target == other.target
    }
}

impl vstd::std_specs::cmp::PartialEqSpecImpl for FlowKey {
    open spec fn obeys_eq_spec() -> bool {
        true
    }

    open spec fn eq_spec(&self, other: &Self) -> bool {
        *self == *other
    }
}

#[derive(Clone, Copy, Debug, PartialEq, Eq, Structural)]
pub enum State {
    Connecting,
    SynReceived,
    Established,
    NamespaceFinReceived,
    SocketFinReceived,
    Closing,
    TimeWait,
    Closed,
}

#[derive(Clone, Copy, Debug, PartialEq, Eq, Structural)]
pub enum ReceiveDisposition {
    InOrder { payload_len: usize, fin: bool },
    Duplicate,
    OutOfOrder,
    OutsideWindow,
    Reset,
    Invalid,
}

#[derive(Clone, Copy, Debug, PartialEq, Eq, Structural)]
pub struct SendPlan {
    pub sequence: u32,
    pub acknowledgment: u32,
    pub length: usize,
    pub syn: bool,
    pub fin: bool,
}

/// Everything a flow keeps track of.
#[derive(Clone, Copy, Debug)]
pub struct FlowState {
    pub state: State,
    /// The sequence number of the namespace SYN.
    pub namespace_initial: u32,
    /// The next sequence number expected from the namespace.
    pub namespace_next: u32,
    /// The acknowledgment number sent to the namespace.
    pub namespace_acked: u32,
    /// The sequence number of the SYN sent to the namespace.
    pub local_initial: u32,
    /// The first sequence number that the namespace has not acknowledged.
    pub local_unacked: u32,
    /// The next sequence number sent to the namespace.
    pub local_next: u32,
    /// The window that the namespace offers, in bytes.
    pub peer_window: u32,
    /// The window that is offered to the namespace, in bytes.
    pub advertised_window: u32,
    /// How far window fields from the namespace are shifted.
    pub peer_window_shift: u8,
    /// How far window fields to the namespace are shifted.
    pub local_window_shift: u8,
    pub mss: u16,
    /// The upstream acknowledgment counter when the flow came up.
    pub upstream_ack_baseline: u64,
    /// The bytes handed to the upstream socket.
    pub upstream_submitted: u64,
    /// Of those, the bytes that the upstream peer acknowledged.
    pub upstream_acked: u64,
    pub namespace_fin: bool,
    pub socket_fin: bool,
    /// The sequence number of the FIN sent to the namespace.
    pub local_fin_sequence: Option<u32>,
}

pub open spec fn min(a: int, b: int) -> int {
    if a <= b {
        a
    } else {
        b
    }
}

/// `window` in bytes, for a field that is shifted by `shift`.
pub open spec fn scaled_window(window: u16, shift: u8) -> u32 {
    (window as u32) << (shift as u32)
}

impl FlowState {
    pub open spec fn start(
        namespace_initial: u32,
        local_initial: u32,
        mss: u16,
        peer_window_shift: u8,
        local_window_shift: u8,
    ) -> FlowState {
        FlowState {
            state: State::Connecting,
            namespace_initial,
            namespace_next: advanced(namespace_initial, 1),
            namespace_acked: advanced(namespace_initial, 1),
            local_initial,
            local_unacked: local_initial,
            local_next: local_initial,
            peer_window: u16::MAX as u32,
            advertised_window: u16::MAX as u32,
            peer_window_shift,
            local_window_shift,
            mss,
            upstream_ack_baseline: 0,
            upstream_submitted: 0,
            upstream_acked: 0,
            namespace_fin: false,
            socket_fin: false,
            local_fin_sequence: None,
        }
    }

    /// What holds of every flow: no more is acknowledged upstream than was
    /// submitted, the window shifts are in range, and until the namespace has
    /// closed its side it is told of exactly the bytes that are acknowledged
    /// upstream.
    pub open spec fn wf(self) -> bool {
        &&& self.upstream_acked <= self.upstream_submitted
        &&& self.peer_window_shift <= 14
        &&& self.local_window_shift <= 14
        &&& !self.namespace_fin ==> self.namespace_acked == advanced(
            self.namespace_initial,
            1 + self.upstream_acked,
        )
    }

    /// The bytes and flags sent to the namespace and not acknowledged.
    pub open spec fn in_flight(self) -> int {
        ahead(self.local_unacked, self.local_next)
    }

    /// The bytes that the namespace still takes.
    pub open spec fn room(self) -> int {
        if self.peer_window > self.in_flight() {
            self.peer_window - self.in_flight()
        } else {
            0
        }
    }

    /// The flow after an acknowledgment from the namespace. One that does not
    /// lie in what is in flight moves nothing.
    pub open spec fn acknowledged(self, acknowledgment: u32) -> FlowState {
        FlowState {
            local_unacked: if precedes(self.local_unacked, acknowledgment) && (acknowledgment
                == self.local_next || precedes(acknowledgment, self.local_next)) {
                acknowledgment
            } else {
                self.local_unacked
            },
            state: if self.namespace_fin && self.local_fin_sequence is Some && precedes(
                self.local_fin_sequence.unwrap(),
                acknowledgment,
            ) {
                State::TimeWait
            } else {
                self.state
            },
            ..self
        }
    }

    /// The flow after the window and acknowledgment fields of a segment.
    pub open spec fn updated(self, acknowledgment: Option<u32>, window: u16) -> FlowState {
        let widened = FlowState {
            peer_window: scaled_window(window, self.peer_window_shift),
            ..self
        };
        match acknowledgment {
            None => widened,
            Some(ack) => {
                let moved = widened.acknowledged(ack);
                if moved.state == State::SynReceived && ack == advanced(self.local_initial, 1) {
                    FlowState { state: State::Established, ..moved }
                } else {
                    moved
                }
            },
        }
    }

    /// The flow after the next `length` bytes from the namespace, and its FIN
    /// if it is set.
    pub open spec fn taken(self, length: int, fin: bool) -> FlowState {
        let next = advanced(self.namespace_next, length);
        let narrowed = FlowState {
            namespace_next: next,
            advertised_window: (self.advertised_window - length) as u32,
            ..self
        };
        if !fin {
            narrowed
        } else {
            FlowState {
                namespace_next: advanced(next, 1),
                namespace_fin: true,
                namespace_acked: if self.upstream_acked == self.upstream_submitted {
                    advanced(next, 1)
                } else {
                    self.namespace_acked
                },
                state: if !self.socket_fin {
                    State::NamespaceFinReceived
                } else if self.local_unacked == self.local_next {
                    State::TimeWait
                } else {
                    State::Closing
                },
                ..narrowed
            }
        }
    }

    /// What becomes of a segment from the namespace, and the flow after it.
    pub open spec fn received(
        self,
        sequence_number: u32,
        acknowledgment: Option<u32>,
        window: u16,
        payload_len: usize,
        fin: bool,
        rst: bool,
    ) -> (FlowState, ReceiveDisposition) {
        let heard = self.updated(acknowledgment, window);
        if rst {
            (FlowState { state: State::Closed, ..self }, ReceiveDisposition::Reset)
        } else if sequence_number != self.namespace_next {
            (
                heard,
                if precedes(sequence_number, self.namespace_next) {
                    ReceiveDisposition::Duplicate
                } else {
                    ReceiveDisposition::OutOfOrder
                },
            )
        } else if payload_len > self.advertised_window {
            (heard, ReceiveDisposition::OutsideWindow)
        } else if payload_len == 0 && !fin {
            (heard, ReceiveDisposition::InOrder { payload_len: 0, fin: false })
        } else {
            (
                heard.taken(payload_len as int, fin),
                ReceiveDisposition::InOrder { payload_len, fin },
            )
        }
    }

    /// The flow after `length` more bytes were handed to the upstream socket.
    pub open spec fn submitted(self, length: usize) -> FlowState {
        FlowState {
            upstream_submitted: min(
                u64::MAX as int,
                self.upstream_submitted + length as u64,
            ) as u64,
            ..self
        }
    }

    /// The submitted bytes that an upstream counter of `bytes_acked` covers.
    pub open spec fn covered(self, bytes_acked: u64) -> int {
        min(
            if bytes_acked > self.upstream_ack_baseline {
                bytes_acked - self.upstream_ack_baseline
            } else {
                0
            },
            self.upstream_submitted as int,
        )
    }

    /// The flow after the upstream acknowledgment counter was read.
    pub open spec fn upstream_acknowledged(self, bytes_acked: u64) -> FlowState {
        let covered = self.covered(bytes_acked);
        if covered <= self.upstream_acked {
            self
        } else {
            FlowState {
                upstream_acked: covered as u64,
                namespace_acked: if self.namespace_fin && covered == self.upstream_submitted {
                    advanced(self.namespace_initial, 2 + covered)
                } else {
                    advanced(self.namespace_initial, 1 + covered)
                },
                ..self
            }
        }
    }

    /// The flow after `plan` was sent to the namespace.
    pub open spec fn sent(self, plan: SendPlan) -> FlowState {
        let next = advanced(self.local_next, (plan.length as u32) as int);
        if !plan.fin {
            FlowState { local_next: next, ..self }
        } else {
            FlowState {
                local_fin_sequence: Some(next),
                local_next: advanced(next, 1),
                socket_fin: true,
                state: if self.namespace_fin {
                    State::Closing
                } else {
                    State::SocketFinReceived
                },
                ..self
            }
        }
    }

    /// The payload bytes that the acknowledgment moved over since it stood at
    /// `previous_ack`: neither the SYN nor the FIN counts.
    ///
    /// The count holds only while the stream is shorter than half of the sequence
    /// space: an acknowledgment further behind the start counts as one before it,
    /// and nothing as acknowledged.
    pub open spec fn newly_acked(self, previous_ack: u32) -> int {
        let payload_start = advanced(self.local_initial, 1);
        let payload_end = match self.local_fin_sequence {
            Some(sequence) => sequence,
            None => self.local_next,
        };
        let start = if precedes(previous_ack, payload_start) {
            payload_start
        } else {
            previous_ack
        };
        let end = if precedes(payload_end, self.local_unacked) {
            payload_end
        } else {
            self.local_unacked
        };
        if precedes(start, end) {
            ahead(start, end)
        } else {
            0
        }
    }

    /// The window field of a segment to the namespace. A SYN carries the window
    /// unscaled.
    pub open spec fn field(self, syn: bool) -> u16 {
        if syn {
            min(self.advertised_window as int, 0xffff) as u16
        } else {
            min((self.advertised_window >> (self.local_window_shift as u32)) as int, 0xffff) as u16
        }
    }
}

#[derive(Debug)]
pub struct Flow {
    inner: FlowState,
}

impl View for Flow {
    type V = FlowState;

    closed spec fn view(&self) -> FlowState {
        self.inner
    }
}

impl Flow {
    #[verifier::type_invariant]
    spec fn inv(self) -> bool {
        self.inner.wf()
    }

    /// A flow without window scaling.
    #[must_use]
    pub fn new(namespace_initial: u32, local_initial: u32, mss: u16) -> (flow: Flow)
        ensures
            flow@ == FlowState::start(namespace_initial, local_initial, mss, 0, 0),
            flow@.wf(),
    {
        Flow::with_window_scaling(namespace_initial, local_initial, mss, 0, 0)
    }

    /// A flow whose SYNs both carried the window-scale option (RFC 7323).
    #[must_use]
    pub fn with_window_scaling(
        namespace_initial: u32,
        local_initial: u32,
        mss: u16,
        peer_window_shift: u8,
        local_window_shift: u8,
    ) -> (flow: Flow)
        requires
            peer_window_shift <= 14,
            local_window_shift <= 14,
        ensures
            flow@ == FlowState::start(
                namespace_initial,
                local_initial,
                mss,
                peer_window_shift,
                local_window_shift,
            ),
            flow@.wf(),
    {
        Flow {
            inner: FlowState {
                state: State::Connecting,
                namespace_initial,
                namespace_next: namespace_initial.wrapping_add(1),
                namespace_acked: namespace_initial.wrapping_add(1),
                local_initial,
                local_unacked: local_initial,
                local_next: local_initial,
                peer_window: 0xffff,
                advertised_window: 0xffff,
                peer_window_shift,
                local_window_shift,
                mss,
                upstream_ack_baseline: 0,
                upstream_submitted: 0,
                upstream_acked: 0,
                namespace_fin: false,
                socket_fin: false,
                local_fin_sequence: None,
            },
        }
    }

    #[must_use]
    pub fn state(&self) -> (state: State)
        ensures
            state == self@.state,
    {
        self.inner.state
    }

    #[must_use]
    pub fn mss(&self) -> (mss: u16)
        ensures
            mss == self@.mss,
    {
        self.inner.mss
    }

    #[must_use]
    pub fn namespace_ack(&self) -> (acknowledgment: u32)
        ensures
            acknowledgment == self@.namespace_acked,
    {
        self.inner.namespace_acked
    }

    #[must_use]
    pub fn local_unacked(&self) -> (sequence: u32)
        ensures
            sequence == self@.local_unacked,
    {
        self.inner.local_unacked
    }

    #[must_use]
    pub fn local_next(&self) -> (sequence: u32)
        ensures
            sequence == self@.local_next,
    {
        self.inner.local_next
    }

    #[must_use]
    pub fn peer_window(&self) -> (window: u32)
        ensures
            window == self@.peer_window,
    {
        self.inner.peer_window
    }

    #[must_use]
    pub fn advertised_window(&self) -> (window: u32)
        ensures
            window == self@.advertised_window,
    {
        self.inner.advertised_window
    }

    /// The widest window that the window field can express.
    #[must_use]
    pub fn max_advertised_window(&self) -> (window: u32)
        ensures
            window == scaled_window(0xffff, self@.local_window_shift),
    {
        proof {
            use_type_invariant(self);
        }
        0xffffu32 << (self.inner.local_window_shift as u32)
    }

    #[must_use]
    pub fn local_window_shift(&self) -> (shift: u8)
        ensures
            shift == self@.local_window_shift,
    {
        self.inner.local_window_shift
    }

    #[must_use]
    pub fn window_field(&self, syn: bool) -> (field: u16)
        ensures
            field == self@.field(syn),
    {
        proof {
            use_type_invariant(self);
        }
        let window: u32 = if syn {
            self.inner.advertised_window
        } else {
            self.inner.advertised_window >> (self.inner.local_window_shift as u32)
        };
        if window > 0xffff {
            0xffff
        } else {
            window as u16
        }
    }

    /// Offers another window; says whether it differs from the one before.
    pub fn set_advertised_window(&mut self, window: u32) -> (changed: bool)
        ensures
            changed == (old(self)@.advertised_window != window),
            final(self)@ == (FlowState { advertised_window: window, ..old(self)@ }),
    {
        proof {
            use_type_invariant(&*self);
        }
        if self.inner.advertised_window == window {
            return false;
        }
        self.inner = FlowState { advertised_window: window, ..self.inner };
        true
    }

    #[must_use]
    pub fn unacked_to_namespace(&self) -> (length: u32)
        ensures
            length == self@.in_flight(),
    {
        super::sequence::distance(self.inner.local_unacked, self.inner.local_next)
    }

    #[must_use]
    pub fn available_namespace_window(&self) -> (length: usize)
        ensures
            length == self@.room(),
    {
        let used: usize = self.unacked_to_namespace() as usize;
        (self.inner.peer_window as usize).saturating_sub(used)
    }

    /// Answers the namespace SYN once the upstream socket is connected.
    pub fn socket_connected(&mut self, bytes_acked: u64) -> (plan: SendPlan)
        ensures
            final(self)@ == (FlowState {
                upstream_ack_baseline: bytes_acked,
                state: State::SynReceived,
                local_next: advanced(old(self)@.local_initial, 1),
                ..old(self)@
            }),
            plan == (SendPlan {
                sequence: old(self)@.local_initial,
                acknowledgment: old(self)@.namespace_next,
                length: 0,
                syn: true,
                fin: false,
            }),
    {
        proof {
            use_type_invariant(&*self);
        }
        let plan = SendPlan {
            sequence: self.inner.local_initial,
            acknowledgment: self.inner.namespace_next,
            length: 0,
            syn: true,
            fin: false,
        };
        self.inner =
        FlowState {
            upstream_ack_baseline: bytes_acked,
            state: State::SynReceived,
            local_next: self.inner.local_initial.wrapping_add(1),
            ..self.inner
        };
        plan
    }

    /// Takes a segment from the namespace.
    pub fn receive(
        &mut self,
        sequence_number: u32,
        acknowledgment: Option<u32>,
        window: u16,
        payload_len: usize,
        fin: bool,
        rst: bool,
    ) -> (disposition: ReceiveDisposition)
        ensures
            (final(self)@, disposition) == old(self)@.received(
                sequence_number,
                acknowledgment,
                window,
                payload_len,
                fin,
                rst,
            ),
            final(self)@.wf(),
    {
        proof {
            use_type_invariant(&*self);
        }
        let mut inner = self.inner;
        if rst {
            inner.state = State::Closed;
            self.inner = inner;
            return ReceiveDisposition::Reset;
        }
        inner.peer_window = (window as u32) << (inner.peer_window_shift as u32);
        if let Some(ack) = acknowledgment {
            acknowledge_local(&mut inner, ack);
            if inner.state == State::SynReceived && ack == inner.local_initial.wrapping_add(1) {
                inner.state = State::Established;
            }
        }
        self.inner = inner;
        if sequence_number != inner.namespace_next {
            return if super::sequence::before(sequence_number, inner.namespace_next) {
                ReceiveDisposition::Duplicate
            } else {
                ReceiveDisposition::OutOfOrder
            };
        }
        if payload_len > inner.advertised_window as usize {
            return ReceiveDisposition::OutsideWindow;
        }
        if payload_len == 0 && !fin {
            return ReceiveDisposition::InOrder { payload_len: 0, fin: false };
        }
        let length: u32 = payload_len as u32;
        let ghost heard = inner;
        inner.namespace_next = inner.namespace_next.wrapping_add(length);
        inner.advertised_window = inner.advertised_window - length;
        if fin {
            inner.namespace_next = inner.namespace_next.wrapping_add(1);
            inner.namespace_fin = true;
            if inner.upstream_acked == inner.upstream_submitted {
                inner.namespace_acked = inner.namespace_next;
            }
            inner.state =
            if inner.socket_fin && inner.local_unacked == inner.local_next {
                State::TimeWait
            } else if inner.socket_fin {
                State::Closing
            } else {
                State::NamespaceFinReceived
            };
        }
        self.inner = inner;
        ReceiveDisposition::InOrder { payload_len, fin }
    }

    pub fn record_upstream_submitted(&mut self, length: usize)
        ensures
            final(self)@ == old(self)@.submitted(length),
    {
        proof {
            use_type_invariant(&*self);
        }
        let submitted: u64 = self.inner.upstream_submitted.saturating_add(length as u64);
        self.inner = FlowState { upstream_submitted: submitted, ..self.inner };
    }

    #[must_use]
    pub fn upstream_submitted(&self) -> (submitted: u64)
        ensures
            submitted == self@.upstream_submitted,
    {
        self.inner.upstream_submitted
    }

    /// The submitted bytes that the upstream peer has not acknowledged.
    #[must_use]
    pub fn upstream_unacked(&self) -> (unacked: u64)
        ensures
            self@.upstream_acked <= self@.upstream_submitted,
            unacked == self@.upstream_submitted - self@.upstream_acked,
    {
        proof {
            use_type_invariant(self);
        }
        self.inner.upstream_submitted - self.inner.upstream_acked
    }

    /// Takes a reading of the upstream acknowledgment counter; says whether it
    /// moved the acknowledgment on.
    pub fn record_upstream_ack(&mut self, bytes_acked: u64) -> (advanced_now: bool)
        ensures
            final(self)@ == old(self)@.upstream_acknowledged(bytes_acked),
            advanced_now == (old(self)@.covered(bytes_acked) > old(self)@.upstream_acked),
    {
        proof {
            use_type_invariant(&*self);
        }
        let grown: u64 = bytes_acked.saturating_sub(self.inner.upstream_ack_baseline);
        let acknowledged: u64 = if grown < self.inner.upstream_submitted {
            grown
        } else {
            self.inner.upstream_submitted
        };
        if acknowledged <= self.inner.upstream_acked {
            return false;
        }
        let truncated: u32 = acknowledged as u32;
        assert(truncated == acknowledged % 0x1_0000_0000) by (bit_vector)
            requires
                truncated == acknowledged as u32,
        ;
        let mut namespace_acked: u32 = self.inner.namespace_initial.wrapping_add(1).wrapping_add(
            truncated,
        );
        if self.inner.namespace_fin && acknowledged == self.inner.upstream_submitted {
            namespace_acked = namespace_acked.wrapping_add(1);
        }
        self.inner =
        FlowState { upstream_acked: acknowledged, namespace_acked, ..self.inner };
        true
    }

    /// The next segment to the namespace, if its window and segment size admit
    /// it.
    pub fn plan_send(&self, length: usize, fin: bool) -> (plan: Option<SendPlan>)
        ensures
            plan == if length > self@.room() || length > self@.mss {
                None
            } else {
                Some(
                    SendPlan {
                        sequence: self@.local_next,
                        acknowledgment: self@.namespace_acked,
                        length,
                        syn: false,
                        fin,
                    },
                )
            },
    {
        if length > self.available_namespace_window() || length > self.inner.mss as usize {
            return None;
        }
        Some(
            SendPlan {
                sequence: self.inner.local_next,
                acknowledgment: self.inner.namespace_acked,
                length,
                syn: false,
                fin,
            },
        )
    }

    /// The next payload to the namespace where the kernel cuts it into
    /// segments: only the window bounds it.
    pub fn plan_offloaded_send(&self, length: usize) -> (plan: Option<SendPlan>)
        ensures
            plan == if length > self@.room() {
                None
            } else {
                Some(
                    SendPlan {
                        sequence: self@.local_next,
                        acknowledgment: self@.namespace_acked,
                        length,
                        syn: false,
                        fin: false,
                    },
                )
            },
    {
        if length > self.available_namespace_window() {
            return None;
        }
        Some(
            SendPlan {
                sequence: self.inner.local_next,
                acknowledgment: self.inner.namespace_acked,
                length,
                syn: false,
                fin: false,
            },
        )
    }

    pub fn commit_send(&mut self, plan: SendPlan)
        ensures
            final(self)@ == old(self)@.sent(plan),
    {
        proof {
            use_type_invariant(&*self);
        }
        let mut inner = self.inner;
        inner.local_next = inner.local_next.wrapping_add(plan.length as u32);
        if plan.fin {
            inner.local_fin_sequence = Some(inner.local_next);
            inner.local_next = inner.local_next.wrapping_add(1);
            inner.socket_fin = true;
            inner.state =
            if inner.namespace_fin {
                State::Closing
            } else {
                State::SocketFinReceived
            };
        }
        self.inner = inner;
    }

    #[must_use]
    pub fn newly_acked_payload(&self, previous_ack: u32) -> (length: usize)
        ensures
            length == self@.newly_acked(previous_ack),
    {
        let payload_start: u32 = self.inner.local_initial.wrapping_add(1);
        let payload_end: u32 = match self.inner.local_fin_sequence {
            Some(sequence) => sequence,
            None => self.inner.local_next,
        };
        let start: u32 = if super::sequence::before(previous_ack, payload_start) {
            payload_start
        } else {
            previous_ack
        };
        let end: u32 = if super::sequence::after(self.inner.local_unacked, payload_end) {
            payload_end
        } else {
            self.inner.local_unacked
        };
        if super::sequence::after(end, start) {
            super::sequence::distance(start, end) as usize
        } else {
            0
        }
    }

    pub fn mark_socket_fin(&mut self)
        ensures
            final(self)@ == (FlowState { socket_fin: true, ..old(self)@ }),
    {
        proof {
            use_type_invariant(&*self);
        }
        self.inner = FlowState { socket_fin: true, ..self.inner };
    }

    pub fn close(&mut self)
        ensures
            final(self)@ == (FlowState { state: State::Closed, ..old(self)@ }),
    {
        proof {
            use_type_invariant(&*self);
        }
        self.inner = FlowState { state: State::Closed, ..self.inner };
    }
}

fn acknowledge_local(inner: &mut FlowState, acknowledgment: u32)
    ensures
        *final(inner) == old(inner).acknowledged(acknowledgment),
{
    if super::sequence::after(acknowledgment, inner.local_unacked)
        && super::sequence::before_or_equal(acknowledgment, inner.local_next) {
        inner.local_unacked = acknowledgment;
    }
    if let Some(fin_sequence) = inner.local_fin_sequence {
        if super::sequence::after(acknowledgment, fin_sequence) && inner.namespace_fin {
            inner.state = State::TimeWait;
        }
    }
}

/// An acknowledgment never makes more count as in flight, as long as less than
/// half of the sequence space is, and the acknowledgment is not exactly half of
/// the space away, where the order says nothing.
pub proof fn law_acknowledgment_shrinks_flight(flow: FlowState, acknowledgment: u32)
    requires
        flow.in_flight() < 0x8000_0000,
        ahead(flow.local_unacked, acknowledgment) != 0x8000_0000,
    ensures
        flow.acknowledged(acknowledgment).in_flight() <= flow.in_flight(),
        flow.acknowledged(acknowledgment).local_next == flow.local_next,
{
}

/// A planned payload never exceeds the window that the namespace offers: with
/// it in flight, everything in flight still fits.
pub proof fn law_plan_fits_window(flow: FlowState, plan: SendPlan)
    requires
        !plan.fin,
        plan.length <= flow.room(),
        flow.peer_window < 0x8000_0000,
        plan.length > 0,
    ensures
        flow.sent(plan).in_flight() == flow.in_flight() + plan.length,
        flow.sent(plan).in_flight() <= flow.peer_window,
{
}

/// A segment that was taken in order is a duplicate when it comes again.
pub proof fn law_duplicate_is_not_taken_twice(
    flow: FlowState,
    sequence_number: u32,
    acknowledgment: Option<u32>,
    window: u16,
    payload_len: usize,
    fin: bool,
)
    requires
        sequence_number == flow.namespace_next,
        0 < payload_len <= flow.advertised_window,
        payload_len < 0x7fff_ffff,
    ensures
        ({
            let (next, first) = flow.received(
                sequence_number,
                acknowledgment,
                window,
                payload_len,
                fin,
                false,
            );
            let (after, second) = next.received(
                sequence_number,
                acknowledgment,
                window,
                payload_len,
                fin,
                false,
            );
            &&& first == ReceiveDisposition::InOrder { payload_len, fin }
            &&& second == ReceiveDisposition::Duplicate
            &&& after.namespace_next == next.namespace_next
            &&& after.upstream_submitted == flow.upstream_submitted
        }),
{
}

/// Until the namespace closes its side, the bytes that it is told of are the
/// bytes that are acknowledged upstream: reading the upstream counter keeps it
/// so.
pub proof fn law_namespace_ack_follows_upstream(flow: FlowState, bytes_acked: u64)
    requires
        flow.wf(),
        !flow.namespace_fin,
    ensures
        ({
            let next = flow.upstream_acknowledged(bytes_acked);
            &&& next.wf()
            &&& next.upstream_acked >= flow.upstream_acked
            &&& next.namespace_acked == advanced(
                flow.namespace_initial,
                1 + next.upstream_acked,
            )
        }),
{
}

/// Two completed half-closes end in `TimeWait`: when the FIN to the namespace
/// is sent, the namespace acknowledges it, and its own FIN comes in order.
pub proof fn law_half_closes_enter_time_wait(flow: FlowState, window: u16)
    requires
        !flow.namespace_fin,
        flow.local_unacked == flow.local_next,
    ensures
        ({
            let plan = SendPlan {
                sequence: flow.local_next,
                acknowledgment: flow.namespace_acked,
                length: 0,
                syn: false,
                fin: true,
            };
            let closed = flow.sent(plan);
            let done = closed.received(
                flow.namespace_next,
                Some(closed.local_next),
                window,
                0,
                true,
                false,
            ).0;
            done.state == State::TimeWait
        }),
{
}

/// The FIN of the namespace is acknowledged as soon as everything in front of it
/// is: where the namespace sent `upstream_submitted` bytes and its FIN, all of the
/// bytes were handed on, and the upstream counter covers them, the acknowledgment
/// to the namespace is the number behind the FIN, and stays there.
pub proof fn law_fin_is_acknowledged(flow: FlowState, bytes_acked: u64)
    requires
        flow.upstream_acked <= flow.upstream_submitted,
        flow.upstream_acked == flow.upstream_submitted ==> flow.namespace_acked
            == flow.namespace_next,
        flow.namespace_fin,
        flow.namespace_next == (flow.namespace_initial + 1 + flow.upstream_submitted + 1)
            % 0x1_0000_0000,
        bytes_acked >= flow.upstream_ack_baseline + flow.upstream_submitted,
    ensures
        flow.upstream_acknowledged(bytes_acked).namespace_acked == flow.namespace_next,
        flow.upstream_acknowledged(bytes_acked).upstream_acked == flow.upstream_submitted,
{
}

/// A client that closes behind its request is told that all of it arrived: the
/// last bytes come with the FIN, are handed on, and the upstream peer acknowledges
/// them; then the acknowledgment lies one behind the bytes.
pub proof fn law_half_closed_request_is_acknowledged(
    flow: FlowState,
    acknowledgment: Option<u32>,
    window: u16,
    payload_len: usize,
    bytes_acked: u64,
)
    requires
        flow.wf(),
        !flow.namespace_fin,
        flow.namespace_next == (flow.namespace_initial + 1 + flow.upstream_submitted)
            % 0x1_0000_0000,
        payload_len <= flow.advertised_window,
        flow.upstream_submitted + payload_len <= u64::MAX,
        bytes_acked >= flow.upstream_ack_baseline + flow.upstream_submitted + payload_len,
    ensures
        ({
            let closed = flow.received(
                flow.namespace_next,
                acknowledgment,
                window,
                payload_len,
                true,
                false,
            ).0;
            let told = closed.submitted(payload_len).upstream_acknowledged(bytes_acked);
            told.namespace_acked == (flow.namespace_next + payload_len + 1) % 0x1_0000_0000
        }),
{
    let closed = flow.received(
        flow.namespace_next,
        acknowledgment,
        window,
        payload_len,
        true,
        false,
    ).0;
    law_next_bytes_are_taken(flow, acknowledgment, window, payload_len, true);
    if flow.upstream_acked == flow.upstream_submitted {
        lemma_fin_behind_everything(flow, acknowledgment, window, payload_len);
    }
    let handed = closed.submitted(payload_len);
    assert(handed.upstream_submitted == flow.upstream_submitted + payload_len);
    lemma_behind_both(
        flow.namespace_initial as int,
        flow.upstream_submitted as int,
        payload_len as int,
    );
    law_fin_is_acknowledged(handed, bytes_acked);
}

proof fn lemma_fin_behind_everything(
    flow: FlowState,
    acknowledgment: Option<u32>,
    window: u16,
    payload_len: usize,
)
    requires
        payload_len <= flow.advertised_window,
        flow.upstream_acked == flow.upstream_submitted,
    ensures
        ({
            let closed = flow.received(
                flow.namespace_next,
                acknowledgment,
                window,
                payload_len,
                true,
                false,
            ).0;
            closed.namespace_acked == closed.namespace_next
        }),
{
}

proof fn lemma_behind_both(initial: int, submitted: int, more: int)
    ensures
        ((initial + 1 + submitted) % 0x1_0000_0000 + more + 1) % 0x1_0000_0000 == (initial + 1 + (
        submitted + more) + 1) % 0x1_0000_0000,
{
}

/// The next bytes of the namespace are taken where they fit into the window: the
/// next number expected moves behind them and their FIN, the window shrinks by
/// them, and nothing else of the stream changes.
pub proof fn law_next_bytes_are_taken(
    flow: FlowState,
    acknowledgment: Option<u32>,
    window: u16,
    payload_len: usize,
    fin: bool,
)
    requires
        payload_len <= flow.advertised_window,
    ensures
        ({
            let (next, disposition) = flow.received(
                flow.namespace_next,
                acknowledgment,
                window,
                payload_len,
                fin,
                false,
            );
            let end = if fin {
                1int
            } else {
                0
            };
            &&& disposition == ReceiveDisposition::InOrder { payload_len, fin }
            &&& next.namespace_next == (flow.namespace_next + payload_len + end) % 0x1_0000_0000
            &&& next.advertised_window == flow.advertised_window - payload_len
            &&& next.namespace_fin == (flow.namespace_fin || fin)
            &&& !fin ==> next.namespace_acked == flow.namespace_acked
            &&& next.upstream_submitted == flow.upstream_submitted
            &&& next.upstream_acked == flow.upstream_acked
            &&& next.upstream_ack_baseline == flow.upstream_ack_baseline
            &&& next.namespace_initial == flow.namespace_initial
            &&& next.local_initial == flow.local_initial
            &&& next.local_next == flow.local_next
            &&& next.local_fin_sequence == flow.local_fin_sequence
            &&& next.socket_fin == flow.socket_fin
            &&& next.mss == flow.mss
            &&& next.peer_window_shift == flow.peer_window_shift
            &&& next.local_window_shift == flow.local_window_shift
        }),
{
}

/// Bytes that are not the next ones, or that do not fit into the window, are not
/// taken. Those less than half of the sequence space behind are duplicates, those
/// ahead are out of order.
pub proof fn law_other_bytes_are_not_taken(
    flow: FlowState,
    sequence_number: u32,
    acknowledgment: Option<u32>,
    window: u16,
    payload_len: usize,
    fin: bool,
)
    requires
        sequence_number != flow.namespace_next || payload_len > flow.advertised_window,
    ensures
        ({
            let (next, disposition) = flow.received(
                sequence_number,
                acknowledgment,
                window,
                payload_len,
                fin,
                false,
            );
            &&& next.namespace_next == flow.namespace_next
            &&& next.namespace_acked == flow.namespace_acked
            &&& next.advertised_window == flow.advertised_window
            &&& next.namespace_fin == flow.namespace_fin
            &&& next.upstream_submitted == flow.upstream_submitted
            &&& next.upstream_acked == flow.upstream_acked
            &&& next.local_next == flow.local_next
            &&& sequence_number == flow.namespace_next ==> disposition
                == ReceiveDisposition::OutsideWindow
            &&& forall|step: int|
                #![trigger advanced(sequence_number, step)]
                0 < step < 0x8000_0000 && flow.namespace_next == (sequence_number + step)
                    % 0x1_0000_0000 ==> disposition == ReceiveDisposition::Duplicate
            &&& forall|step: int|
                #![trigger advanced(flow.namespace_next, step)]
                0 < step < 0x8000_0000 && sequence_number == (flow.namespace_next + step)
                    % 0x1_0000_0000 ==> disposition == ReceiveDisposition::OutOfOrder
        }),
{
}

/// A reset closes the flow, whatever else the segment carries, and changes nothing
/// more; no other segment does.
pub proof fn law_only_a_reset_closes(
    flow: FlowState,
    sequence_number: u32,
    acknowledgment: Option<u32>,
    window: u16,
    payload_len: usize,
    fin: bool,
)
    ensures
        flow.received(sequence_number, acknowledgment, window, payload_len, fin, true) == (
            (FlowState { state: State::Closed, ..flow }),
            ReceiveDisposition::Reset,
        ),
        ({
            let (next, disposition) = flow.received(
                sequence_number,
                acknowledgment,
                window,
                payload_len,
                fin,
                false,
            );
            &&& disposition != ReceiveDisposition::Reset
            &&& disposition != ReceiveDisposition::Invalid
            &&& next.state == State::Closed ==> flow.state == State::Closed
        }),
{
}

/// Every segment tells the window of the namespace: its field times two to the
/// power of the shift that the SYNs agreed on.
pub proof fn law_segment_tells_the_window(
    flow: FlowState,
    sequence_number: u32,
    acknowledgment: Option<u32>,
    window: u16,
    payload_len: usize,
    fin: bool,
)
    requires
        flow.peer_window_shift <= 14,
    ensures
        flow.received(
            sequence_number,
            acknowledgment,
            window,
            payload_len,
            fin,
            false,
        ).0.peer_window == window * vstd::arithmetic::power2::pow2(flow.peer_window_shift as nat),
{
    lemma_scaled(window, flow.peer_window_shift);
}

proof fn lemma_scaled(window: u16, shift: u8)
    requires
        shift <= 14,
    ensures
        scaled_window(window, shift) == window * vstd::arithmetic::power2::pow2(shift as nat),
{
    let wide = window as u32;
    let by = shift as u32;
    vstd::arithmetic::power2::lemma2_to64();
    vstd::arithmetic::power2::lemma_pow2_strictly_increases(shift as nat, 15);
    assert(wide * vstd::arithmetic::power2::pow2(by as nat) <= 0xffff * 0x8000)
        by (nonlinear_arith)
        requires
            wide <= 0xffff,
            0 <= vstd::arithmetic::power2::pow2(by as nat) <= 0x8000,
    ;
    vstd::bits::lemma_u32_shl_is_mul(wide, by);
}

/// The window field that the namespace is sent stands for the window, rounded down
/// to what the shift can express, and for no more than a field can hold. On a SYN
/// it is not shifted.
pub proof fn law_window_field_stands_for_the_window(flow: FlowState)
    requires
        flow.local_window_shift <= 14,
    ensures
        flow.field(true) == if flow.advertised_window <= 0xffff {
            flow.advertised_window as int
        } else {
            0xffff
        },
        ({
            let unit = vstd::arithmetic::power2::pow2(flow.local_window_shift as nat);
            &&& flow.field(false) * unit <= flow.advertised_window
            &&& flow.field(false) == 0xffff || flow.advertised_window < (flow.field(false) + 1)
                * unit
        }),
{
    let window = flow.advertised_window;
    let by = flow.local_window_shift as u32;
    let unit = vstd::arithmetic::power2::pow2(by as nat) as int;
    vstd::arithmetic::power2::lemma_pow2_pos(by as nat);
    vstd::bits::lemma_u32_shr_is_div(window, by);
    let quotient = window as int / unit;
    let field = flow.field(false) as int;
    assert(quotient * unit <= window < (quotient + 1) * unit) by (nonlinear_arith)
        requires
            unit > 0,
            quotient == window as int / unit,
    ;
    assert(field * unit <= quotient * unit) by (nonlinear_arith)
        requires
            unit > 0,
            field <= quotient,
    ;
}

/// An acknowledgment of something that is in flight takes it out of flight; any
/// other moves nothing. Either way no more is in flight than before.
pub proof fn law_acknowledgment_takes_out_of_flight(
    flow: FlowState,
    sequence_number: u32,
    acknowledgment: u32,
    window: u16,
    payload_len: usize,
    fin: bool,
    flight: int,
    step: int,
)
    requires
        0 <= flight < 0x4000_0000,
        flow.local_next == (flow.local_unacked + flight) % 0x1_0000_0000,
        -0x4000_0000 < step < 0x4000_0000,
        acknowledgment == (flow.local_unacked + step) % 0x1_0000_0000,
    ensures
        ({
            let next = flow.received(
                sequence_number,
                Some(acknowledgment),
                window,
                payload_len,
                fin,
                false,
            ).0;
            &&& next.local_next == flow.local_next
            &&& next.local_unacked == if 0 < step <= flight {
                acknowledgment
            } else {
                flow.local_unacked
            }
        }),
{
}

/// Without an acknowledgment nothing leaves the flight.
pub proof fn law_no_acknowledgment_moves_nothing(
    flow: FlowState,
    sequence_number: u32,
    window: u16,
    payload_len: usize,
    fin: bool,
)
    ensures
        flow.received(sequence_number, None, window, payload_len, fin, false).0.local_unacked
            == flow.local_unacked,
{
}

/// The connection is established by the acknowledgment of the SYN, and by nothing
/// else.
pub proof fn law_established_by_the_acknowledged_syn(
    flow: FlowState,
    sequence_number: u32,
    acknowledgment: Option<u32>,
    window: u16,
    payload_len: usize,
)
    requires
        flow.state == State::SynReceived,
        flow.local_fin_sequence is None,
    ensures
        flow.received(
            sequence_number,
            acknowledgment,
            window,
            payload_len,
            false,
            false,
        ).0.state == if acknowledgment is Some && acknowledgment->0 == (flow.local_initial + 1)
            % 0x1_0000_0000 {
            State::Established
        } else {
            State::SynReceived
        },
{
}

/// The FIN of the namespace closes its half: the flow is closing if the other half
/// is closed too, and is done if the namespace has acknowledged everything.
pub proof fn law_namespace_fin_closes_its_half(
    flow: FlowState,
    window: u16,
    payload_len: usize,
)
    requires
        payload_len <= flow.advertised_window,
    ensures
        ({
            let next = flow.received(
                flow.namespace_next,
                None,
                window,
                payload_len,
                true,
                false,
            ).0;
            &&& !flow.socket_fin ==> next.state == State::NamespaceFinReceived
            &&& flow.socket_fin && flow.local_unacked == flow.local_next ==> next.state
                == State::TimeWait
            &&& flow.socket_fin && flow.local_unacked != flow.local_next ==> next.state
                == State::Closing
        }),
{
}

/// Bytes that are handed to the upstream socket are counted, and the upstream
/// counter, read from where it stood when the flow came up, tells how many of them
/// arrived: never more than were handed over, and never fewer than before.
pub proof fn law_upstream_bytes_are_counted(flow: FlowState, length: usize, bytes_acked: u64)
    requires
        flow.upstream_acked <= flow.upstream_submitted,
        flow.upstream_submitted + length <= u64::MAX,
    ensures
        ({
            let handed = flow.submitted(length);
            let told = handed.upstream_acknowledged(bytes_acked);
            let arrived = bytes_acked - flow.upstream_ack_baseline;
            &&& handed.upstream_submitted == flow.upstream_submitted + length
            &&& handed.upstream_acked == flow.upstream_acked
            &&& handed.namespace_acked == flow.namespace_acked
            &&& told.upstream_submitted == handed.upstream_submitted
            &&& arrived <= flow.upstream_acked ==> told == handed
            &&& flow.upstream_acked < arrived <= handed.upstream_submitted
                ==> told.upstream_acked == arrived
            &&& arrived > handed.upstream_submitted ==> told.upstream_acked
                == handed.upstream_submitted
        }),
{
}

/// The acknowledgment to the namespace covers exactly the bytes that arrived
/// upstream while its FIN is outstanding or has not come.
pub proof fn law_only_what_arrived_is_acknowledged(flow: FlowState, bytes_acked: u64)
    requires
        flow.upstream_acked < bytes_acked - flow.upstream_ack_baseline
            <= flow.upstream_submitted,
        !flow.namespace_fin || bytes_acked - flow.upstream_ack_baseline
            < flow.upstream_submitted,
    ensures
        flow.upstream_acknowledged(bytes_acked).namespace_acked == (flow.namespace_initial + 1 + (
        bytes_acked - flow.upstream_ack_baseline)) % 0x1_0000_0000,
{
}

/// What is sent to the namespace is behind everything sent before: the next number
/// moves on by the bytes and by the FIN.
pub proof fn law_sent_bytes_move_the_stream(flow: FlowState, plan: SendPlan)
    requires
        plan.length <= u32::MAX,
    ensures
        ({
            let next = flow.sent(plan);
            let behind = (flow.local_next + plan.length) % 0x1_0000_0000;
            &&& !plan.fin ==> next == (FlowState { local_next: behind as u32, ..flow })
            &&& plan.fin ==> {
                &&& next.local_next == (flow.local_next + plan.length + 1) % 0x1_0000_0000
                &&& next.local_fin_sequence == Some(behind as u32)
                &&& next.socket_fin
                &&& next.state == if flow.namespace_fin {
                    State::Closing
                } else {
                    State::SocketFinReceived
                }
                &&& next.local_unacked == flow.local_unacked
                &&& next.namespace_next == flow.namespace_next
                &&& next.namespace_acked == flow.namespace_acked
            }
        }),
{
}

/// The room that the namespace leaves is its window less what is in flight.
pub proof fn law_room_is_what_the_window_leaves(flow: FlowState, flight: int)
    requires
        0 <= flight < 0x1_0000_0000,
        flow.local_next == (flow.local_unacked + flight) % 0x1_0000_0000,
    ensures
        flow.in_flight() == flight,
        flight <= flow.peer_window ==> flow.room() == flow.peer_window - flight,
        flight >= flow.peer_window ==> flow.room() == 0,
{
}

/// A new flow expects the number behind the SYN of the namespace, has told of
/// nothing more, and has nothing in flight.
pub proof fn law_new_flow_starts_behind_the_syn(
    namespace_initial: u32,
    local_initial: u32,
    mss: u16,
    peer_window_shift: u8,
    local_window_shift: u8,
)
    ensures
        ({
            let flow = FlowState::start(
                namespace_initial,
                local_initial,
                mss,
                peer_window_shift,
                local_window_shift,
            );
            &&& flow.state == State::Connecting
            &&& flow.namespace_initial == namespace_initial
            &&& flow.local_initial == local_initial
            &&& flow.namespace_next == (namespace_initial + 1) % 0x1_0000_0000
            &&& flow.namespace_acked == (namespace_initial + 1) % 0x1_0000_0000
            &&& flow.local_unacked == local_initial
            &&& flow.local_next == local_initial
            &&& flow.mss == mss
            &&& flow.peer_window_shift == peer_window_shift
            &&& flow.local_window_shift == local_window_shift
            &&& flow.advertised_window == 0xffff
            &&& flow.peer_window == 0xffff
            &&& flow.upstream_submitted == 0
            &&& flow.upstream_acked == 0
            &&& !flow.namespace_fin
            &&& !flow.socket_fin
            &&& flow.local_fin_sequence is None
        }),
{
}

/// Acknowledged octets are the payload that the acknowledgment moved over: the SYN
/// in front of it and the FIN behind it do not count. Places are counted from the
/// SYN, and the stream is shorter than half of the sequence space.
pub proof fn law_acknowledged_payload_is_counted(
    flow: FlowState,
    previous_ack: u32,
    from: int,
    to: int,
    end: int,
)
    requires
        0 <= from <= to <= end,
        1 <= end < 0x4000_0000,
        previous_ack == (flow.local_initial + from) % 0x1_0000_0000,
        flow.local_unacked == (flow.local_initial + to) % 0x1_0000_0000,
        flow.local_next == (flow.local_initial + end) % 0x1_0000_0000,
        flow.local_fin_sequence is Some ==> end >= 2 && flow.local_fin_sequence->0 == (
        flow.local_initial + end - 1) % 0x1_0000_0000,
    ensures
        ({
            let last = if flow.local_fin_sequence is Some {
                end - 1
            } else {
                end
            };
            let first = if from < 1 {
                1
            } else {
                from
            };
            let reached = if to > last {
                last
            } else {
                to
            };
            flow.newly_acked(previous_ack) == if reached > first {
                reached - first
            } else {
                0
            }
        }),
{
    let initial = flow.local_initial;
    let last = if flow.local_fin_sequence is Some {
        end - 1
    } else {
        end
    };
    assert(previous_ack == advanced(initial, from));
    assert(flow.local_unacked == advanced(initial, to));
    lemma_counted(initial, from, to, last);
}

proof fn lemma_counted(initial: u32, from: int, to: int, last: int)
    requires
        0 <= from <= to <= last + 1,
        1 <= last < 0x4000_0000,
    ensures
        ({
            let payload_start = advanced(initial, 1);
            let payload_end = advanced(initial, last);
            let start = if precedes(advanced(initial, from), payload_start) {
                payload_start
            } else {
                advanced(initial, from)
            };
            let end = if precedes(payload_end, advanced(initial, to)) {
                payload_end
            } else {
                advanced(initial, to)
            };
            let first = if from < 1 {
                1
            } else {
                from
            };
            let reached = if to > last {
                last
            } else {
                to
            };
            (if precedes(start, end) {
                ahead(start, end)
            } else {
                0
            }) == if reached > first {
                reached - first
            } else {
                0
            }
        }),
{
    let first = if from < 1 {
        1
    } else {
        from
    };
    let reached = if to > last {
        last
    } else {
        to
    };
    super::sequence::lemma_places(initial, from, 1);
    super::sequence::lemma_places(initial, last, to);
    super::sequence::lemma_places(initial, first, reached);
}

/// Once both sides have ended their streams, the acknowledgment of this side's
/// FIN leaves only the final wait; one that falls short of the FIN, or comes
/// while the namespace may still send, does not.
pub proof fn law_acknowledged_fin_leaves_the_final_wait(flow: FlowState, acknowledgment: u32)
    ensures
        flow.local_fin_sequence is Some ==> ({
            let beyond = (acknowledgment - flow.local_fin_sequence.unwrap()) % 0x1_0000_0000;
            &&& flow.namespace_fin && 1 <= beyond <= 0x8000_0000 ==> flow.acknowledged(
                acknowledgment,
            ).state == State::TimeWait
            &&& beyond == 0 || beyond > 0x8000_0000 ==> flow.acknowledged(acknowledgment).state
                == flow.state
        }),
        flow.local_fin_sequence is None || !flow.namespace_fin ==> flow.acknowledged(
            acknowledgment,
        ).state == flow.state,
{
}

/// A flow has its sides exactly when it is active and both are known, and they
/// name it: the namespace is the peer of the initiating side, the target its own
/// end.
pub proof fn law_active_flow_has_its_sides(construction: FlowConstruction)
    ensures
        construction.sides() is Some <==> construction@.0 == ConstructionState::Active
            && construction@.1 is Some && construction@.2 is Some,
        construction.sides() is Some ==> {
            let sides = construction.sides().unwrap();
            &&& Some(sides.initiating) == construction@.1
            &&& Some(sides.target) == construction@.2
            &&& sides.key().namespace == sides.initiating.logical_peer
            &&& sides.key().target == sides.initiating.local_endpoint
        },
{
}

} // verus!
