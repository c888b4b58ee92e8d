//! The proxy handshake of a flow.

use super::entry::FlowEntry;
use super::metrics::{Metrics, count, counted};
use crate::proxy_proto::handshake::State;
use crate::proxy_proto::{Error, Handshake};
use vstd::prelude::*;

verus! {

/// The most octets of a proxy's answer that are looked at together.
pub const PROXY_RESPONSE_CAPACITY: usize = 8192;

/// How a send went.
#[derive(Clone, Copy, Debug, PartialEq, Eq, Structural)]
pub enum SendOutcome {
    Sent(usize),
    WouldBlock,
    Failed,
}

/// What follows a send of handshake output.
#[derive(Clone, Copy, Debug, PartialEq, Eq, Structural)]
pub enum OutputStep {
    /// There is more to send.
    Again,
    /// All is sent, or the socket takes no more.
    Stop,
    /// The handshake has failed.
    Fail,
    /// More was reported sent than there was.
    Broken,
}

/// What follows `outcome` when `length` octets were to be sent.
pub open spec fn output_step(length: nat, outcome: SendOutcome) -> OutputStep {
    match outcome {
        SendOutcome::Sent(sent) => if sent == 0 {
            OutputStep::Fail
        } else if sent > length {
            OutputStep::Broken
        } else if sent < length {
            OutputStep::Again
        } else {
            OutputStep::Stop
        },
        SendOutcome::WouldBlock => OutputStep::Stop,
        SendOutcome::Failed => OutputStep::Fail,
    }
}

/// Takes note of a send of handshake output.
pub fn advance_proxy_output(handshake: &mut Handshake, outcome: SendOutcome) -> (step: OutputStep)
    requires
        old(handshake).wf(),
        old(handshake)@.output.len() > 0,
    ensures
        final(handshake).wf(),
        step == output_step(old(handshake)@.output.len(), outcome),
        final(handshake)@ == match outcome {
            SendOutcome::Sent(sent) => if 0 < sent <= old(handshake)@.output.len() {
                old(handshake)@.sent(sent as int)
            } else {
                old(handshake)@
            },
            _ => old(handshake)@,
        },
{
    match outcome {
        SendOutcome::Sent(sent) => {
            if sent == 0 {
                return OutputStep::Fail;
            }
            let length: usize = handshake.output().len();
            match handshake.advance_output(sent) {
                Err(_) => OutputStep::Broken,
                Ok(()) => if sent < length {
                    OutputStep::Again
                } else {
                    OutputStep::Stop
                },
            }
        },
        SendOutcome::WouldBlock => OutputStep::Stop,
        SendOutcome::Failed => OutputStep::Fail,
    }
}

/// Hands a proxy's answer to the handshake of the flow, and tells how many
/// octets are to be taken from the socket.
pub fn receive_proxy_input(entry: &mut FlowEntry, input: &[u8]) -> (result: Result<usize, Error>)
    requires
        old(entry).wf(),
        old(entry).handshake is Some,
    ensures
        final(entry).wf(),
        final(entry).handshake is Some,
        *final(entry) == (FlowEntry { handshake: final(entry).handshake, ..*old(entry) }),
        final(entry).handshake.unwrap()@ == old(entry).handshake.unwrap()@.received(input@).1,
        match result {
            Ok(length) => {
                &&& old(entry).handshake.unwrap()@.received(input@).0 == Ok::<int, Error>(
                    length as int,
                )
                &&& length <= input@.len()
            },
            Err(error) => old(entry).handshake.unwrap()@.received(input@).0 == Err::<int, Error>(
                error,
            ),
        },
{
    match &mut entry.handshake {
        Some(handshake) => handshake.receive(input),
        None => Err(Error::InvalidState),
    }
}

/// What follows an answer of the proxy.
#[derive(Clone, Copy, Debug, PartialEq, Eq, Structural)]
pub enum InputStep {
    /// The socket gave back another length than the handshake took.
    Fail,
    /// The tunnel is there: the flow is activated.
    Activate,
    /// The handshake goes on with its next message.
    Flush,
}

/// Settles an answer once its octets were taken from the socket.
pub fn settle_proxy_input(
    entry: &mut FlowEntry,
    metrics: &mut Metrics,
    consumed: usize,
    discarded: usize,
) -> (step: InputStep)
    requires
        old(entry).wf(),
        old(entry).handshake is Some,
    ensures
        final(entry).wf(),
        ({
            let complete = old(entry).handshake.unwrap()@.state == State::Complete;
            &&& step == if consumed != discarded {
                InputStep::Fail
            } else if complete {
                InputStep::Activate
            } else {
                InputStep::Flush
            }
            &&& *final(entry) == if step == InputStep::Activate {
                FlowEntry { handshake: None, ..*old(entry) }
            } else {
                *old(entry)
            }
            &&& *final(metrics) == if step == InputStep::Activate {
                Metrics {
                    proxy_handshakes: counted(old(metrics).proxy_handshakes),
                    ..*old(metrics)
                }
            } else {
                *old(metrics)
            }
        }),
{
    if consumed != discarded {
        return InputStep::Fail;
    }
    let complete = match &entry.handshake {
        Some(handshake) => handshake.is_complete(),
        None => false,
    };
    if !complete {
        return InputStep::Flush;
    }
    entry.handshake = None;
    metrics.proxy_handshakes = count(metrics.proxy_handshakes);
    InputStep::Activate
}

/// The upstream connection of the flow is there. Tells whether the handshake
/// comes next, otherwise the flow is activated.
pub fn finish_transport_connect(entry: &mut FlowEntry) -> (handshakes: bool)
    requires
        old(entry).wf(),
    ensures
        final(entry).wf(),
        handshakes == (old(entry).handshake is Some),
        *final(entry) == (FlowEntry { transport_connected: true, ..*old(entry) }),
{
    entry.transport_connected = true;
    entry.handshake.is_some()
}

/// What was sent of a handshake message decides what follows: more of it, its answer,
/// or the end of the handshake where nothing was taken or more than there was.
pub proof fn law_handshake_output_is_sent_whole(length: nat, sent: usize)
    requires
        length > 0,
    ensures
        output_step(length, SendOutcome::WouldBlock) == OutputStep::Stop,
        output_step(length, SendOutcome::Failed) == OutputStep::Fail,
        output_step(length, SendOutcome::Sent(0)) == OutputStep::Fail,
        0 < sent < length ==> output_step(length, SendOutcome::Sent(sent)) == OutputStep::Again,
        sent == length ==> output_step(length, SendOutcome::Sent(sent)) == OutputStep::Stop,
        sent > length ==> output_step(length, SendOutcome::Sent(sent)) == OutputStep::Broken,
{
}

} // verus!
