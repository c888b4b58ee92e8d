//! Which part of the data plane an event is for.

use crate::dataplane::flow_table::{EpollToken, FlowId, Resource, decoded};
use crate::sys::reactor::{ERROR, READABLE, READ_HANGUP, WRITABLE, has, holds};
use vstd::prelude::*;

verus! {

#[derive(Clone, Copy, Debug, PartialEq, Eq, Structural)]
pub enum Dispatch {
    /// The token was never given out.
    Invalid,
    /// Nothing is done about it.
    Ignore,
    Tap { read: bool, write: bool },
    Timer,
    Control,
    DnsUpstream,
    Flow(FlowId),
}

/// What an event with this token is for.
pub open spec fn dispatched(token: u64, events: u32) -> Dispatch {
    match decoded(token) {
        None => Dispatch::Invalid,
        Some((flow, resource, _)) => match (flow, resource) {
            (None, Resource::Tap) => Dispatch::Tap {
                read: has(events, READABLE),
                write: has(events, WRITABLE),
            },
            (None, Resource::Timer) => Dispatch::Timer,
            (None, Resource::Control) => Dispatch::Control,
            (None, Resource::DnsUpstream) => Dispatch::DnsUpstream,
            (Some(id), Resource::UpstreamSocket) => Dispatch::Flow(id),
            _ => Dispatch::Ignore,
        },
    }
}

#[must_use]
pub fn dispatch(token: u64, events: u32) -> (target: Dispatch)
    ensures
        target == dispatched(token, events),
{
    match EpollToken::from_raw(token).decode() {
        None => Dispatch::Invalid,
        Some((flow, resource, _)) => match (flow, resource) {
            (None, Resource::Tap) => Dispatch::Tap {
                read: holds(events, READABLE),
                write: holds(events, WRITABLE),
            },
            (None, Resource::Timer) => Dispatch::Timer,
            (None, Resource::Control) => Dispatch::Control,
            (None, Resource::DnsUpstream) => Dispatch::DnsUpstream,
            (Some(id), Resource::UpstreamSocket) => Dispatch::Flow(id),
            _ => Dispatch::Ignore,
        },
    }
}

/// The data plane runs until it is told to stop and its last flow is gone.
#[must_use]
pub fn keeps_running(shutting_down: bool, active_flows: usize) -> (runs: bool)
    ensures
        runs == (!shutting_down || active_flows > 0),
{
    !shutting_down || active_flows > 0
}

/// How far the handling of a socket event has come.
#[derive(Clone, Copy, Debug, PartialEq, Eq, Structural)]
pub enum Stage {
    Errors,
    Connect,
    ProxyOutput,
    ProxyInput,
    Queue,
    Acknowledge,
    Read,
    Done,
}

impl Stage {
    pub open spec fn rank(self) -> nat {
        match self {
            Stage::Errors => 7,
            Stage::Connect => 6,
            Stage::ProxyOutput => 5,
            Stage::ProxyInput => 4,
            Stage::Queue => 3,
            Stage::Acknowledge => 2,
            Stage::Read => 1,
            Stage::Done => 0,
        }
    }
}

/// What a flow is like when a stage of its event begins.
#[derive(Clone, Copy, Debug, PartialEq, Eq, Structural)]
pub struct SocketFacts {
    /// The flow is gone or closed.
    pub closed: bool,
    /// The upstream connection is there.
    pub connected: bool,
    /// A proxy handshake is under way.
    pub handshaking: bool,
}

/// What is done next for a socket event.
#[derive(Clone, Copy, Debug, PartialEq, Eq, Structural)]
pub enum SocketAction {
    /// A pending error, or an error notice that is no timestamp, ends the flow.
    CheckErrors,
    FinishConnect,
    FlushProxyOutput,
    ReceiveProxyInput,
    FlushQueue,
    RefreshAck,
    SendData,
    Nothing,
}

/// Whether there is something to read, or the end of the stream.
pub open spec fn readable(events: u32) -> bool {
    has(events, READABLE | READ_HANGUP)
}

/// The action of a stage, and the stage behind it. Proxy stages are for flows in
/// a handshake, the later ones for flows past it.
pub open spec fn staged(stage: Stage, events: u32, facts: SocketFacts) -> (SocketAction, Stage) {
    if facts.closed || stage == Stage::Done {
        (SocketAction::Nothing, Stage::Done)
    } else {
        match stage {
            Stage::Errors => (
                if has(events, ERROR) {
                    SocketAction::CheckErrors
                } else {
                    SocketAction::Nothing
                },
                Stage::Connect,
            ),
            Stage::Connect => (
                if !facts.connected && has(events, WRITABLE) {
                    SocketAction::FinishConnect
                } else {
                    SocketAction::Nothing
                },
                Stage::ProxyOutput,
            ),
            Stage::ProxyOutput => if !facts.handshaking {
                (SocketAction::Nothing, Stage::Queue)
            } else {
                (
                    if has(events, WRITABLE) {
                        SocketAction::FlushProxyOutput
                    } else {
                        SocketAction::Nothing
                    },
                    Stage::ProxyInput,
                )
            },
            Stage::ProxyInput => (
                if readable(events) {
                    SocketAction::ReceiveProxyInput
                } else {
                    SocketAction::Nothing
                },
                Stage::Queue,
            ),
            Stage::Queue => if facts.handshaking {
                (SocketAction::Nothing, Stage::Done)
            } else {
                (
                    if has(events, WRITABLE) {
                        SocketAction::FlushQueue
                    } else {
                        SocketAction::Nothing
                    },
                    Stage::Acknowledge,
                )
            },
            Stage::Acknowledge => (SocketAction::RefreshAck, Stage::Read),
            Stage::Read => (
                if readable(events) {
                    SocketAction::SendData
                } else {
                    SocketAction::Nothing
                },
                Stage::Done,
            ),
            Stage::Done => (SocketAction::Nothing, Stage::Done),
        }
    }
}

/// Decides on one stage of a socket event.
#[must_use]
pub fn handle_socket_stage(stage: Stage, events: u32, facts: SocketFacts) -> (step: (
    SocketAction,
    Stage,
))
    ensures
        step == staged(stage, events, facts),
{
    if facts.closed {
        return (SocketAction::Nothing, Stage::Done);
    }
    match stage {
        Stage::Errors => {
            if holds(events, ERROR) {
                (SocketAction::CheckErrors, Stage::Connect)
            } else {
                (SocketAction::Nothing, Stage::Connect)
            }
        },
        Stage::Connect => {
            if !facts.connected && holds(events, WRITABLE) {
                (SocketAction::FinishConnect, Stage::ProxyOutput)
            } else {
                (SocketAction::Nothing, Stage::ProxyOutput)
            }
        },
        Stage::ProxyOutput => {
            if !facts.handshaking {
                (SocketAction::Nothing, Stage::Queue)
            } else if holds(events, WRITABLE) {
                (SocketAction::FlushProxyOutput, Stage::ProxyInput)
            } else {
                (SocketAction::Nothing, Stage::ProxyInput)
            }
        },
        Stage::ProxyInput => {
            if holds(events, READABLE | READ_HANGUP) {
                (SocketAction::ReceiveProxyInput, Stage::Queue)
            } else {
                (SocketAction::Nothing, Stage::Queue)
            }
        },
        Stage::Queue => {
            if facts.handshaking {
                (SocketAction::Nothing, Stage::Done)
            } else if holds(events, WRITABLE) {
                (SocketAction::FlushQueue, Stage::Acknowledge)
            } else {
                (SocketAction::Nothing, Stage::Acknowledge)
            }
        },
        Stage::Acknowledge => (SocketAction::RefreshAck, Stage::Read),
        Stage::Read => {
            if holds(events, READABLE | READ_HANGUP) {
                (SocketAction::SendData, Stage::Done)
            } else {
                (SocketAction::Nothing, Stage::Done)
            }
        },
        Stage::Done => (SocketAction::Nothing, Stage::Done),
    }
}

/// Every stage leads to a later one, so an event is handled in at most seven
/// steps; nothing is done for a closed flow; and no payload moves while a proxy
/// handshake is under way.
pub proof fn law_stages_advance(stage: Stage, events: u32, facts: SocketFacts)
    ensures
        stage != Stage::Done ==> staged(stage, events, facts).1.rank() < stage.rank(),
        facts.closed ==> staged(stage, events, facts) == (SocketAction::Nothing, Stage::Done),
        stage == Stage::Queue && facts.handshaking ==> staged(stage, events, facts).1
            == Stage::Done,
{
}

/// What happens at a socket leads to what answers it: an error to a look at it, room
/// to the connect, to handshake output or to the waiting payload, and input or its
/// end to the handshake or to the namespace, in each case by how far the flow is.
pub proof fn law_events_lead_to_their_answers(events: u32, facts: SocketFacts)
    requires
        !facts.closed,
    ensures
        ({
            let readable = events & 0x2001 != 0;
            let writable = events & 0x4 != 0;
            let failed = events & 0x8 != 0;
            &&& staged(Stage::Errors, events, facts) == (
                if failed {
                    SocketAction::CheckErrors
                } else {
                    SocketAction::Nothing
                },
                Stage::Connect,
            )
            &&& staged(Stage::Connect, events, facts) == (
                if writable && !facts.connected {
                    SocketAction::FinishConnect
                } else {
                    SocketAction::Nothing
                },
                Stage::ProxyOutput,
            )
            &&& facts.handshaking ==> {
                &&& staged(Stage::ProxyOutput, events, facts).0 == if writable {
                    SocketAction::FlushProxyOutput
                } else {
                    SocketAction::Nothing
                }
                &&& staged(Stage::ProxyOutput, events, facts).1 == Stage::ProxyInput
                &&& staged(Stage::ProxyInput, events, facts).0 == if readable {
                    SocketAction::ReceiveProxyInput
                } else {
                    SocketAction::Nothing
                }
                &&& staged(Stage::Queue, events, facts) == (SocketAction::Nothing, Stage::Done)
            }
            &&& !facts.handshaking ==> {
                &&& staged(Stage::ProxyOutput, events, facts) == (
                    SocketAction::Nothing,
                    Stage::Queue,
                )
                &&& staged(Stage::Queue, events, facts).0 == if writable {
                    SocketAction::FlushQueue
                } else {
                    SocketAction::Nothing
                }
                &&& staged(Stage::Queue, events, facts).1 == Stage::Acknowledge
            }
            &&& staged(Stage::Acknowledge, events, facts) == (
                SocketAction::RefreshAck,
                Stage::Read,
            )
            &&& staged(Stage::Read, events, facts) == (
                if readable {
                    SocketAction::SendData
                } else {
                    SocketAction::Nothing
                },
                Stage::Done,
            )
        }),
{
    assert(0x0001u32 | 0x2000u32 == 0x2001u32) by (bit_vector);
}

/// An event reaches what its token was made for: a flow's socket its flow, and the
/// device, the timer, the control channel and the resolver themselves.
pub proof fn law_events_reach_their_owner(id: FlowId, side: bool, events: u32)
    requires
        id.slot < 0x10_0000,
        id.generation != 0,
    ensures
        dispatched(
            crate::dataplane::flow_table::flow_token(id, Resource::UpstreamSocket, side) as u64,
            events,
        ) == Dispatch::Flow(id),
        dispatched((Resource::Timer.number() * 0x10_0000) as u64, events) == Dispatch::Timer,
        dispatched((Resource::Control.number() * 0x10_0000) as u64, events) == Dispatch::Control,
        dispatched((Resource::DnsUpstream.number() * 0x10_0000) as u64, events)
            == Dispatch::DnsUpstream,
        dispatched((Resource::Tap.number() * 0x10_0000) as u64, events) == (Dispatch::Tap {
            read: events & 0x1 != 0,
            write: events & 0x4 != 0,
        }),
{
    crate::dataplane::flow_table::law_token_round_trip(id, Resource::UpstreamSocket, side);
    crate::dataplane::flow_table::law_token_round_trip(id, Resource::Timer, side);
    crate::dataplane::flow_table::law_token_round_trip(id, Resource::Control, side);
    crate::dataplane::flow_table::law_token_round_trip(id, Resource::DnsUpstream, side);
    crate::dataplane::flow_table::law_token_round_trip(id, Resource::Tap, side);
}

} // verus!
