//! The connection to the resolver behind DNS interception. It never carries
//! flow traffic, reconnects on demand, and closes after an idle period.

use super::config::{Config, Upstream};
use super::events::readable;
use super::frame::{Error, prefix_len};
use super::interest::{interest, socket_interest};
use super::metrics::{Metrics, count, counted};
use super::proxy::SendOutcome;
use crate::bytes::{be16, be16_bytes};
use crate::dataplane::dns;
use crate::dataplane::dns::{
    QueryDisposition, Reply, Transaction, local_answer, query_forwarded, query_withdrawn,
    response_taken,
};
use crate::net::SocketAddress;
use crate::packet::ethernet::ETHERNET_HEADER_LEN;
use crate::packet::udp::UDP_HEADER_LEN;
use crate::proxy_proto::handshake::State;
use crate::proxy_proto::{Command, Handshake};
use crate::sys::reactor::{ERROR, READABLE, READ_HANGUP, WRITABLE, has, holds};
use crate::time::{Duration, Instant};
use vstd::prelude::*;

verus! {

/// Socket buffers for the single resolver connection.
pub const DNS_SOCKET_BUFFER_BYTES: usize = 65_536;

/// Bound on length-prefixed queries queued toward the resolver; overflow
/// answers the query SERVFAIL instead of growing without limit.
pub const DNS_WRITE_BUFFER_LIMIT: usize = 65_536;

/// Bound on the buffered upstream response stream (one maximum frame plus
/// its length prefix, with read-chunk slack).
pub const DNS_READ_BUFFER_LIMIT: usize = 131_072;

/// The resolver connection is closed after this quiet period with no
/// outstanding transactions.
pub const DNS_IDLE_TIMEOUT: Duration = 15_000_000_000;

/// A message with its length in front, as DNS over TCP carries it.
pub open spec fn framed(message: Seq<u8>) -> Seq<u8> {
    be16_bytes(message.len() as u16) + message
}

/// A query under another identifier.
pub open spec fn renumbered(message: Seq<u8>, id: u16) -> Seq<u8> {
    be16_bytes(id) + message.skip(2)
}

/// The first message of a stream, if all of it has come.
pub open spec fn first_message(stream: Seq<u8>) -> Option<Seq<u8>> {
    if stream.len() < 2 || stream.len() < 2 + be16(stream, 0) {
        None
    } else {
        Some(stream.subrange(2, 2 + be16(stream, 0)))
    }
}

/// The stream behind its first message.
pub open spec fn behind_first(stream: Seq<u8>) -> Seq<u8> {
    stream.skip(2 + be16(stream, 0))
}

/// A message that is written to the stream is the first one read from it, with
/// nothing of what follows.
pub proof fn law_framing_round_trip(message: Seq<u8>, rest: Seq<u8>)
    requires
        message.len() <= 0xffff,
    ensures
        first_message(framed(message) + rest) == Some(message),
        behind_first(framed(message) + rest) == rest,
{
    let stream = framed(message) + rest;
    assert(stream[0] == be16_bytes(message.len() as u16)[0]);
    assert(stream[1] == be16_bytes(message.len() as u16)[1]);
    assert(be16(stream, 0) == message.len());
    assert(stream.subrange(2, 2int + message.len()) =~= message);
    assert(stream.skip(2int + message.len()) =~= rest);
}

pub enum DnsState {
    Idle,
    Connecting { connected: bool, handshake: Option<Handshake> },
    Ready,
}

pub struct DnsLink {
    pub state: DnsState,
    /// Length-prefixed queries that wait for the resolver stream.
    pub write_buffer: Vec<u8>,
    /// The response stream as far as it is not taken apart.
    pub read_buffer: Vec<u8>,
    pub last_activity: Instant,
}

impl DnsLink {
    /// The buffers are within their bounds, and a handshake is in order.
    pub open spec fn wf(&self) -> bool {
        &&& self.write_buffer@.len() <= DNS_WRITE_BUFFER_LIMIT
        &&& self.read_buffer@.len() <= DNS_READ_BUFFER_LIMIT
        &&& match self.state {
            DnsState::Connecting { handshake, .. } => handshake is Some
                ==> handshake.unwrap().wf(),
            _ => true,
        }
    }

    #[must_use]
    pub fn new(now: Instant) -> (link: DnsLink)
        ensures
            link.wf(),
            link.state is Idle,
            link.write_buffer@.len() == 0,
            link.read_buffer@.len() == 0,
            link.last_activity == now,
    {
        DnsLink {
            state: DnsState::Idle,
            write_buffer: Vec::new(),
            read_buffer: Vec::new(),
            last_activity: now,
        }
    }

    /// Appends a query to the resolver stream under its own identifier, unless
    /// there is no room for it.
    pub fn push_query(&mut self, upstream_id: u16, message: &[u8], now: Instant) -> (queued: bool)
        requires
            old(self).wf(),
            message@.len() >= 2,
        ensures
            final(self).wf(),
            queued == query_fits(*old(self), message@),
            final(self).state == old(self).state,
            final(self).read_buffer == old(self).read_buffer,
            final(self).write_buffer@ == if queued {
                old(self).write_buffer@ + framed(renumbered(message@, upstream_id))
            } else {
                old(self).write_buffer@
            },
            final(self).last_activity == if queued {
                now
            } else {
                old(self).last_activity
            },
    {
        let used: usize = self.write_buffer.len();
        let length: usize = message.len();
        if length > 0xffff || used + 2 + length > DNS_WRITE_BUFFER_LIMIT {
            return false;
        }
        let ghost before = self.write_buffer@;
        crate::text::push_all(&mut self.write_buffer, &crate::bytes::be16_octets(length as u16));
        crate::text::push_all(&mut self.write_buffer, &crate::bytes::be16_octets(upstream_id));
        crate::text::push_all(
            &mut self.write_buffer,
            vstd::slice::slice_subrange(message, 2, length),
        );
        assert(message@.subrange(2, length as int) =~= message@.skip(2));
        assert(renumbered(message@, upstream_id).len() == length);
        assert(self.write_buffer@ =~= before + framed(renumbered(message@, upstream_id)));
        self.last_activity = now;
        true
    }

    /// Takes note that the resolver socket took `sent` octets.
    pub fn note_written(&mut self, sent: usize)
        requires
            old(self).wf(),
            sent <= old(self).write_buffer@.len(),
        ensures
            final(self).wf(),
            final(self).write_buffer@ == old(self).write_buffer@.skip(sent as int),
            final(self).state == old(self).state,
            final(self).read_buffer == old(self).read_buffer,
            final(self).last_activity == old(self).last_activity,
    {
        let rest = vstd::slice::slice_to_vec(
            vstd::slice::slice_subrange(
                self.write_buffer.as_slice(),
                sent,
                self.write_buffer.len(),
            ),
        );
        assert(rest@ =~= self.write_buffer@.skip(sent as int));
        self.write_buffer = rest;
    }

    /// Takes octets from the resolver, unless they are more than are kept: the
    /// connection has then to go.
    pub fn note_read(&mut self, chunk: &[u8]) -> (kept: bool)
        requires
            old(self).wf(),
        ensures
            final(self).wf(),
            kept == (old(self).read_buffer@.len() + chunk@.len() <= DNS_READ_BUFFER_LIMIT),
            final(self).read_buffer@ == if kept {
                old(self).read_buffer@ + chunk@
            } else {
                old(self).read_buffer@
            },
            final(self).state == old(self).state,
            final(self).write_buffer == old(self).write_buffer,
            final(self).last_activity == old(self).last_activity,
    {
        if chunk.len() > DNS_READ_BUFFER_LIMIT - self.read_buffer.len() {
            return false;
        }
        crate::text::push_all(&mut self.read_buffer, chunk);
        true
    }

    /// Takes the first whole message out of the stream.
    pub fn take_message(&mut self) -> (message: Option<Vec<u8>>)
        requires
            old(self).wf(),
        ensures
            final(self).wf(),
            final(self).state == old(self).state,
            final(self).write_buffer == old(self).write_buffer,
            final(self).last_activity == old(self).last_activity,
            match message {
                Some(message) => {
                    &&& first_message(old(self).read_buffer@) == Some(message@)
                    &&& final(self).read_buffer@ == behind_first(old(self).read_buffer@)
                    &&& final(self).read_buffer@.len() < old(self).read_buffer@.len()
                },
                None => {
                    &&& first_message(old(self).read_buffer@) is None
                    &&& final(self).read_buffer@ == old(self).read_buffer@
                },
            },
    {
        let size: usize = self.read_buffer.len();
        if size < 2 {
            return None;
        }
        let length: usize = crate::bytes::read_be16(self.read_buffer.as_slice(), 0) as usize;
        if size < 2 + length {
            return None;
        }
        let message = vstd::slice::slice_to_vec(
            vstd::slice::slice_subrange(self.read_buffer.as_slice(), 2, 2 + length),
        );
        let rest = vstd::slice::slice_to_vec(
            vstd::slice::slice_subrange(self.read_buffer.as_slice(), 2 + length, size),
        );
        assert(rest@ =~= behind_first(self.read_buffer@));
        self.read_buffer = rest;
        Some(message)
    }

    /// Gives the connection up: what was queued or half read is gone.
    pub fn tear_down(&mut self)
        requires
            old(self).wf(),
        ensures
            final(self).wf(),
            final(self).state is Idle,
            final(self).write_buffer@.len() == 0,
            final(self).read_buffer@.len() == 0,
            final(self).last_activity == old(self).last_activity,
    {
        self.state = DnsState::Idle;
        self.write_buffer.clear();
        self.read_buffer.clear();
    }

    /// Whether the connection is closed because nothing has used it for a while.
    pub open spec fn idles(&self, engine_idle: bool, now: Instant) -> bool {
        &&& engine_idle
        &&& self.write_buffer@.len() == 0
        &&& !(self.state is Idle)
        &&& now >= self.last_activity
        &&& now - self.last_activity >= DNS_IDLE_TIMEOUT
    }

    /// Closes the connection after its quiet period.
    pub fn close_if_idle(&mut self, engine_idle: bool, now: Instant) -> (closed: bool)
        requires
            old(self).wf(),
        ensures
            final(self).wf(),
            closed == old(self).idles(engine_idle, now),
            final(self).write_buffer == old(self).write_buffer,
            final(self).last_activity == old(self).last_activity,
            closed ==> final(self).state is Idle && final(self).read_buffer@.len() == 0,
            !closed ==> *final(self) == *old(self),
    {
        let active = match self.state {
            DnsState::Idle => false,
            _ => true,
        };
        if engine_idle && self.write_buffer.len() == 0 && active && now.saturating_sub(
            self.last_activity,
        ) >= DNS_IDLE_TIMEOUT {
            self.state = DnsState::Idle;
            self.read_buffer.clear();
            return true;
        }
        false
    }

    /// The events that the resolver socket is watched for, if there is one.
    pub open spec fn wanted_interest(&self) -> Option<u32> {
        match self.state {
            DnsState::Idle => None,
            DnsState::Connecting { connected, handshake } => Some(
                interest(
                    !connected,
                    handshake is Some && handshake.unwrap()@.output.len() > 0,
                    false,
                ),
            ),
            DnsState::Ready => Some(interest(false, false, self.write_buffer@.len() > 0)),
        }
    }

    #[must_use]
    pub fn interest(&self) -> (events: Option<u32>)
        requires
            self.wf(),
        ensures
            events == self.wanted_interest(),
    {
        match &self.state {
            DnsState::Idle => None,
            DnsState::Connecting { connected, handshake } => {
                let output_pending = match handshake {
                    Some(pending) => pending.output().len() > 0,
                    None => false,
                };
                Some(socket_interest(!*connected, output_pending, false))
            },
            DnsState::Ready => Some(
                socket_interest(false, false, self.write_buffer.len() > 0),
            ),
        }
    }
}

/// What drives the resolver connection on while it comes up.
#[derive(Clone, Copy, Debug, PartialEq, Eq, Structural)]
pub enum DnsHandshakeStep {
    /// There is no connection coming up.
    Nothing,
    /// Nothing is left to exchange: queries may flow.
    Promote,
    /// The next message of the handshake is sent.
    Send,
    /// The answer is read.
    Receive,
}

/// The next step of the resolver connection.
#[must_use]
pub fn drive_dns_handshake(state: &DnsState) -> (step: DnsHandshakeStep)
    requires
        match *state {
            DnsState::Connecting { handshake, .. } => handshake is Some
                ==> handshake.unwrap().wf(),
            _ => true,
        },
    ensures
        step == match *state {
            DnsState::Connecting { handshake, .. } => if handshake is None
                || handshake.unwrap()@.state == State::Complete {
                DnsHandshakeStep::Promote
            } else if handshake.unwrap()@.output.len() > 0 {
                DnsHandshakeStep::Send
            } else {
                DnsHandshakeStep::Receive
            },
            _ => DnsHandshakeStep::Nothing,
        },
{
    match state {
        DnsState::Connecting { handshake, .. } => match handshake {
            None => DnsHandshakeStep::Promote,
            Some(pending) => {
                if pending.is_complete() {
                    DnsHandshakeStep::Promote
                } else if pending.output().len() > 0 {
                    DnsHandshakeStep::Send
                } else {
                    DnsHandshakeStep::Receive
                }
            },
        },
        _ => DnsHandshakeStep::Nothing,
    }
}

/// Where the resolver is reached, and the handshake on the way: through the
/// proxy with a tunnel of its own, or directly.
pub fn dns_route(config: &Config) -> (result: Result<(SocketAddress, Option<Handshake>), Error>)
    ensures
        match result {
            Ok((transport, handshake)) => {
                &&& config.dns_upstream is Some
                &&& handshake is Some ==> handshake.unwrap().wf()
                &&& match config.upstream {
                    Upstream::Proxy { protocol, address, credentials } => {
                        &&& transport == address
                        &&& handshake is Some
                        &&& handshake.unwrap()@
                            == crate::proxy_proto::handshake::HandshakeModel::start(
                            protocol,
                            Command::Connect,
                            config.dns_upstream.unwrap(),
                            credentials,
                        )
                    },
                    Upstream::Direct { .. } => {
                        &&& transport == config.dns_upstream.unwrap()
                        &&& handshake is None
                    },
                }
            },
            Err(error) => {
                &&& config.dns_upstream is None
                &&& error == Error::Invariant("DNS forward without a resolver")
            },
        },
{
    let resolver = match config.dns_upstream {
        Some(resolver) => resolver,
        None => return Err(Error::Invariant("DNS forward without a resolver")),
    };
    let handshake = super::admission::proxy_handshake(config, resolver);
    let transport = match &config.upstream {
        Upstream::Proxy { address, .. } => *address,
        Upstream::Direct { .. } => resolver,
    };
    Ok((transport, handshake))
}

/// The longest reply that fits one frame. The larger IPv6 header is reckoned
/// with, so the bound holds for both families.
pub open spec fn reply_room(mtu_frame_capacity: int, offload: bool) -> int {
    mtu_frame_capacity - prefix_len(offload) - ETHERNET_HEADER_LEN - 40 - UDP_HEADER_LEN
}

#[must_use]
pub fn dns_frame_limit(mtu_frame_capacity: usize, offload: bool) -> (limit: usize)
    requires
        reply_room(mtu_frame_capacity as int, offload) >= 0,
    ensures
        limit == reply_room(mtu_frame_capacity as int, offload),
{
    mtu_frame_capacity - super::frame::vnet_len(offload) - ETHERNET_HEADER_LEN - 40
        - UDP_HEADER_LEN
}

/// What is done about a UDP datagram from the namespace.
pub enum DnsAction {
    /// It is not for the intercepted resolver.
    Ignore,
    /// It is no query.
    Drop,
    /// It is answered at once.
    Reply(Vec<u8>),
    /// It goes to the resolver under this identifier.
    Forward { upstream_id: u16 },
}

/// Decides on a UDP datagram from the namespace. Only queries to the
/// intercepted resolver are served.
pub fn handle_udp(
    config: &Config,
    engine: &mut dns::Engine,
    metrics: &mut Metrics,
    client: SocketAddress,
    gateway: SocketAddress,
    message: &[u8],
    now: Instant,
) -> (action: DnsAction)
    requires
        old(engine).wf(),
        now + old(engine).timeout() <= u64::MAX,
    ensures
        final(engine).wf(),
        final(engine).timeout() == old(engine).timeout(),
        ({
            let intercepted = super::admission::intercepts(*config, gateway);
            let resolver = config.dns_upstream is Some;
            let asked = Metrics { dns_queries: counted(old(metrics).dns_queries), ..*old(metrics) };
            match action {
                DnsAction::Ignore => {
                    &&& !intercepted
                    &&& *final(metrics) == *old(metrics)
                    &&& *final(engine) == *old(engine)
                },
                DnsAction::Drop => {
                    &&& intercepted
                    &&& message@.len() < 12 || be16(message@, 2) >= dns::FLAG_RESPONSE
                    &&& final(engine).entries() == old(engine).entries()
                    &&& final(engine).next() == old(engine).next()
                    &&& *final(metrics) == (Metrics {
                        dns_dropped: counted(asked.dns_dropped),
                        ..asked
                    })
                },
                DnsAction::Reply(reply) => {
                    &&& intercepted
                    &&& message@.len() >= 12 && be16(message@, 2) < dns::FLAG_RESPONSE
                    &&& local_answer(message@, resolver, old(engine).entries().len()) == Some(
                        reply@,
                    )
                    &&& final(engine).entries() == old(engine).entries()
                    &&& final(engine).next() == old(engine).next()
                    &&& *final(metrics) == (Metrics {
                        dns_failures: counted(asked.dns_failures),
                        dns_refused: if resolver {
                            asked.dns_refused
                        } else {
                            counted(asked.dns_refused)
                        },
                        ..asked
                    })
                },
                DnsAction::Forward { upstream_id } => {
                    &&& intercepted
                    &&& local_answer(message@, resolver, old(engine).entries().len()) is None
                    &&& query_forwarded(
                        *old(engine),
                        *final(engine),
                        upstream_id,
                        client,
                        gateway,
                        message@,
                        now,
                    )
                    &&& *final(metrics) == asked
                },
            }
        }),
{
    if !super::admission::dns_intercepts(config, gateway) {
        return DnsAction::Ignore;
    }
    metrics.dns_queries = count(metrics.dns_queries);
    let resolver_available = config.dns_upstream.is_some();
    match engine.accept_query(client, gateway, message, resolver_available, now) {
        QueryDisposition::Drop => {
            metrics.dns_dropped = count(metrics.dns_dropped);
            DnsAction::Drop
        },
        QueryDisposition::Respond(reply) => {
            metrics.dns_failures = count(metrics.dns_failures);
            if !resolver_available {
                metrics.dns_refused = count(metrics.dns_refused);
            }
            DnsAction::Reply(reply)
        },
        QueryDisposition::Forward { upstream_id } => DnsAction::Forward { upstream_id },
    }
}

/// What became of a query on its way to the resolver.
pub enum Forwarded {
    Queued,
    /// There is no room for it: its client is told so.
    Refused(Option<(Transaction, Vec<u8>)>),
}

/// Whether the query fits into what is kept for the resolver.
pub open spec fn query_fits(link: DnsLink, message: Seq<u8>) -> bool {
    message.len() <= 0xffff && link.write_buffer@.len() + 2 + message.len()
        <= DNS_WRITE_BUFFER_LIMIT
}

/// Queues a query for the resolver, or withdraws it.
pub fn forward_dns_query(
    link: &mut DnsLink,
    engine: &mut dns::Engine,
    metrics: &mut Metrics,
    upstream_id: u16,
    message: &[u8],
    now: Instant,
) -> (forwarded: Forwarded)
    requires
        old(link).wf(),
        old(engine).wf(),
        message@.len() >= 2,
    ensures
        final(link).wf(),
        final(engine).wf(),
        final(engine).timeout() == old(engine).timeout(),
        final(engine).next() == old(engine).next(),
        final(link).state == old(link).state,
        final(link).read_buffer == old(link).read_buffer,
        match forwarded {
            Forwarded::Queued => {
                &&& query_fits(*old(link), message@)
                &&& final(link).write_buffer@ == old(link).write_buffer@ + framed(
                    renumbered(message@, upstream_id),
                )
                &&& final(link).last_activity == now
                &&& *final(engine) == *old(engine)
                &&& *final(metrics) == *old(metrics)
            },
            Forwarded::Refused(failure) => {
                &&& !query_fits(*old(link), message@)
                &&& final(link).write_buffer@ == old(link).write_buffer@
                &&& final(link).last_activity == old(link).last_activity
                &&& query_withdrawn(*old(engine), *final(engine), upstream_id, failure)
                &&& *final(metrics) == if failure is Some {
                    Metrics { dns_failures: counted(old(metrics).dns_failures), ..*old(metrics) }
                } else {
                    *old(metrics)
                }
            },
        },
{
    if link.push_query(upstream_id, message, now) {
        return Forwarded::Queued;
    }
    let failure = engine.abort(upstream_id);
    if failure.is_some() {
        metrics.dns_failures = count(metrics.dns_failures);
    }
    Forwarded::Refused(failure)
}

/// What follows a send to the resolver or its proxy.
#[derive(Clone, Copy, Debug, PartialEq, Eq, Structural)]
pub enum DnsExchange {
    /// It goes on.
    Again,
    /// The socket takes no more for now.
    Wait,
    /// The connection is given up.
    Fail,
}

/// What follows a send of `length` octets.
pub open spec fn exchange_after(length: nat, outcome: SendOutcome) -> DnsExchange {
    match outcome {
        SendOutcome::Sent(sent) => if 0 < sent <= length {
            DnsExchange::Again
        } else {
            DnsExchange::Fail
        },
        SendOutcome::WouldBlock => DnsExchange::Wait,
        SendOutcome::Failed => DnsExchange::Fail,
    }
}

/// Settles a send of the handshake with the proxy before the resolver.
pub fn settle_dns_output(handshake: &mut Handshake, outcome: SendOutcome) -> (exchange:
    DnsExchange)
    requires
        old(handshake).wf(),
        old(handshake)@.output.len() > 0,
    ensures
        final(handshake).wf(),
        exchange == exchange_after(old(handshake)@.output.len(), outcome),
        final(handshake)@ == if exchange == DnsExchange::Again {
            old(handshake)@.sent(outcome->Sent_0 as int)
        } else {
            old(handshake)@
        },
{
    match outcome {
        SendOutcome::Sent(sent) => {
            if sent == 0 || handshake.advance_output(sent).is_err() {
                DnsExchange::Fail
            } else {
                DnsExchange::Again
            }
        },
        SendOutcome::WouldBlock => DnsExchange::Wait,
        SendOutcome::Failed => DnsExchange::Fail,
    }
}

/// What follows an answer of the proxy before the resolver.
#[derive(Clone, Copy, Debug, PartialEq, Eq, Structural)]
pub enum DnsAnswer {
    /// It is not all there yet.
    Wait,
    /// Its `length` octets are taken from the socket.
    Take { length: usize },
    /// The connection is given up.
    Fail,
}

/// Hands an answer of the proxy to the handshake. An empty one means that the
/// proxy has gone.
pub fn take_dns_answer(handshake: &mut Handshake, answer: &[u8]) -> (step: DnsAnswer)
    requires
        old(handshake).wf(),
    ensures
        final(handshake).wf(),
        answer@.len() == 0 ==> {
            &&& step == DnsAnswer::Fail
            &&& final(handshake)@ == old(handshake)@
        },
        answer@.len() > 0 ==> {
            let received = old(handshake)@.received(answer@);
            &&& final(handshake)@ == received.1
            &&& match received.0 {
                Ok(length) => if length == 0 {
                    step == DnsAnswer::Wait
                } else {
                    step is Take && step->length == length
                },
                Err(_) => step == DnsAnswer::Fail,
            }
        },
{
    if answer.len() == 0 {
        return DnsAnswer::Fail;
    }
    match handshake.receive(answer) {
        Ok(length) => if length == 0 {
            DnsAnswer::Wait
        } else {
            DnsAnswer::Take { length }
        },
        Err(_) => DnsAnswer::Fail,
    }
}

/// Settles a send of queries to the resolver.
pub fn settle_dns_write(link: &mut DnsLink, outcome: SendOutcome) -> (exchange: DnsExchange)
    requires
        old(link).wf(),
        old(link).write_buffer@.len() > 0,
    ensures
        final(link).wf(),
        exchange == exchange_after(old(link).write_buffer@.len(), outcome),
        final(link).write_buffer@ == if exchange == DnsExchange::Again {
            old(link).write_buffer@.skip(outcome->Sent_0 as int)
        } else {
            old(link).write_buffer@
        },
        final(link).state == old(link).state,
        final(link).read_buffer == old(link).read_buffer,
        final(link).last_activity == old(link).last_activity,
{
    match outcome {
        SendOutcome::Sent(sent) => {
            if sent == 0 || sent > link.write_buffer.len() {
                return DnsExchange::Fail;
            }
            link.note_written(sent);
            DnsExchange::Again
        },
        SendOutcome::WouldBlock => DnsExchange::Wait,
        SendOutcome::Failed => DnsExchange::Fail,
    }
}

/// Takes a message of the resolver. One that answers a query is counted and
/// goes back to its client.
pub fn take_dns_response(
    link: &mut DnsLink,
    engine: &mut dns::Engine,
    metrics: &mut Metrics,
    message: &[u8],
    frame_limit: usize,
    now: Instant,
) -> (reply: Option<Reply>)
    requires
        old(link).wf(),
        old(engine).wf(),
    ensures
        final(link).wf(),
        final(engine).wf(),
        final(engine).timeout() == old(engine).timeout(),
        final(engine).next() == old(engine).next(),
        response_taken(*old(engine), *final(engine), message@, frame_limit, reply),
        *final(link) == (DnsLink {
            last_activity: if reply is Some {
                now
            } else {
                old(link).last_activity
            },
            ..*old(link)
        }),
        *final(metrics) == match reply {
            Some(reply) => response_counted(*old(metrics), reply.truncated),
            None => *old(metrics),
        },
{
    let reply = engine.accept_response(message, frame_limit);
    if let Some(reply) = &reply {
        note_response(metrics, reply.truncated);
        link.last_activity = now;
    }
    reply
}

/// The counters after a reply of the resolver went back to its client.
pub open spec fn response_counted(metrics: Metrics, truncated: bool) -> Metrics {
    Metrics {
        dns_responses: counted(metrics.dns_responses),
        dns_truncated: if truncated {
            counted(metrics.dns_truncated)
        } else {
            metrics.dns_truncated
        },
        ..metrics
    }
}

/// Counts a reply of the resolver that goes back to its client.
pub fn note_response(metrics: &mut Metrics, truncated: bool)
    ensures
        *final(metrics) == response_counted(*old(metrics), truncated),
{
    metrics.dns_responses = count(metrics.dns_responses);
    if truncated {
        metrics.dns_truncated = count(metrics.dns_truncated);
    }
}

/// The stages in which an event of the resolver connection is handled, in their
/// order.
#[derive(Clone, Copy, Debug, PartialEq, Eq, Structural)]
pub enum DnsStage {
    Errors,
    Connect,
    Handshake,
    Write,
    Read,
    Interest,
    Done,
}

impl DnsStage {
    /// How many stages are left at most.
    pub open spec fn rank(self) -> nat {
        match self {
            DnsStage::Errors => 6,
            DnsStage::Connect => 5,
            DnsStage::Handshake => 4,
            DnsStage::Write => 3,
            DnsStage::Read => 2,
            DnsStage::Interest => 1,
            DnsStage::Done => 0,
        }
    }
}

/// What a stage does with the resolver connection.
#[derive(Clone, Copy, Debug, PartialEq, Eq, Structural)]
pub enum DnsStep {
    Nothing,
    /// A pending error ends the connection.
    CheckErrors,
    /// The connection is there, unless an error is pending.
    FinishConnect,
    ShakeHands,
    Flush,
    Read,
    UpdateInterest,
}

/// What a stage does, and which one comes next.
pub open spec fn dns_staged(stage: DnsStage, events: u32, state: DnsState) -> (DnsStep, DnsStage) {
    if state is Idle {
        (DnsStep::Nothing, DnsStage::Done)
    } else {
        match stage {
            DnsStage::Errors => (
                if has(events, ERROR) {
                    DnsStep::CheckErrors
                } else {
                    DnsStep::Nothing
                },
                DnsStage::Connect,
            ),
            DnsStage::Connect => if state is Connecting && !state->connected {
                if has(events, WRITABLE) {
                    (DnsStep::FinishConnect, DnsStage::Handshake)
                } else {
                    (DnsStep::Nothing, DnsStage::Done)
                }
            } else {
                (DnsStep::Nothing, DnsStage::Handshake)
            },
            DnsStage::Handshake => (
                if state is Connecting {
                    DnsStep::ShakeHands
                } else {
                    DnsStep::Nothing
                },
                DnsStage::Write,
            ),
            DnsStage::Write => (
                if state is Ready && has(events, WRITABLE) {
                    DnsStep::Flush
                } else {
                    DnsStep::Nothing
                },
                DnsStage::Read,
            ),
            DnsStage::Read => (
                if state is Ready && readable(events) {
                    DnsStep::Read
                } else {
                    DnsStep::Nothing
                },
                DnsStage::Interest,
            ),
            DnsStage::Interest => (DnsStep::UpdateInterest, DnsStage::Done),
            DnsStage::Done => (DnsStep::Nothing, DnsStage::Done),
        }
    }
}

/// Decides on one stage of an event of the resolver connection.
#[must_use]
pub fn handle_dns_stage(stage: DnsStage, events: u32, state: &DnsState) -> (step: (
    DnsStep,
    DnsStage,
))
    ensures
        step == dns_staged(stage, events, *state),
{
    let (connecting, connected, ready) = match state {
        DnsState::Idle => return (DnsStep::Nothing, DnsStage::Done),
        DnsState::Connecting { connected, .. } => (true, *connected, false),
        DnsState::Ready => (false, false, true),
    };
    match stage {
        DnsStage::Errors => {
            if holds(events, ERROR) {
                (DnsStep::CheckErrors, DnsStage::Connect)
            } else {
                (DnsStep::Nothing, DnsStage::Connect)
            }
        },
        DnsStage::Connect => {
            if !connecting || connected {
                (DnsStep::Nothing, DnsStage::Handshake)
            } else if holds(events, WRITABLE) {
                (DnsStep::FinishConnect, DnsStage::Handshake)
            } else {
                (DnsStep::Nothing, DnsStage::Done)
            }
        },
        DnsStage::Handshake => {
            if connecting {
                (DnsStep::ShakeHands, DnsStage::Write)
            } else {
                (DnsStep::Nothing, DnsStage::Write)
            }
        },
        DnsStage::Write => {
            if ready && holds(events, WRITABLE) {
                (DnsStep::Flush, DnsStage::Read)
            } else {
                (DnsStep::Nothing, DnsStage::Read)
            }
        },
        DnsStage::Read => {
            if ready && holds(events, READABLE | READ_HANGUP) {
                (DnsStep::Read, DnsStage::Interest)
            } else {
                (DnsStep::Nothing, DnsStage::Interest)
            }
        },
        DnsStage::Interest => (DnsStep::UpdateInterest, DnsStage::Done),
        DnsStage::Done => (DnsStep::Nothing, DnsStage::Done),
    }
}

/// Every stage leads to a later one, nothing is done without a connection, and
/// no query or answer moves before the connection is ready.
pub proof fn law_dns_stages_advance(stage: DnsStage, events: u32, state: DnsState)
    ensures
        stage != DnsStage::Done ==> dns_staged(stage, events, state).1.rank() < stage.rank(),
        state is Idle ==> dns_staged(stage, events, state) == (DnsStep::Nothing, DnsStage::Done),
        dns_staged(stage, events, state).0 == DnsStep::Flush || dns_staged(stage, events, state).0
            == DnsStep::Read ==> state is Ready,
{
}

/// A message travels with its length in two octets in front, the higher one
/// first, and a forwarded query differs from the client's in its first two
/// octets only, which hold the new identifier.
pub proof fn law_message_travels_with_its_length(message: Seq<u8>, id: u16)
    requires
        2 <= message.len() <= 0xffff,
    ensures
        framed(message).len() == 2 + message.len(),
        256 * framed(message)[0] + framed(message)[1] == message.len(),
        framed(message).skip(2) == message,
        renumbered(message, id).len() == message.len(),
        256 * renumbered(message, id)[0] + renumbered(message, id)[1] == id,
        renumbered(message, id).skip(2) == message.skip(2),
{
    crate::bytes::law_octet_orders(message, 0, message.len() as u16, 0);
    crate::bytes::law_octet_orders(message, 0, id, 0);
    assert(framed(message).skip(2) =~= message);
    assert(renumbered(message, id).skip(2) =~= message.skip(2));
}

/// The first message of a stream is read exactly when all the octets that its
/// length promises have come, and what follows is left for the next.
pub proof fn law_stream_is_cut_at_its_lengths(stream: Seq<u8>)
    ensures
        stream.len() < 2 ==> first_message(stream) is None,
        stream.len() >= 2 ==> ({
            let length = 256 * stream[0] + stream[1];
            &&& first_message(stream) is Some <==> stream.len() >= 2 + length
            &&& first_message(stream) is Some ==> {
                &&& first_message(stream).unwrap().len() == length
                &&& stream == stream.take(2) + first_message(stream).unwrap() + behind_first(stream)
            }
        }),
{
    if stream.len() >= 2 {
        crate::bytes::law_octet_orders(stream, 0, 0, 0);
        if first_message(stream) is Some {
            assert(stream =~= stream.take(2) + first_message(stream).unwrap() + behind_first(
                stream,
            ));
        }
    }
}

/// The resolver connection is closed once it was quiet for fifteen seconds with
/// nothing outstanding or queued, and not before.
pub proof fn law_quiet_connection_is_closed(link: DnsLink, engine_idle: bool, now: Instant)
    ensures
        link.idles(engine_idle, now) ==> {
            &&& engine_idle
            &&& link.write_buffer@.len() == 0
            &&& link.last_activity + 15_000_000_000 <= now
            &&& !(link.state is Idle)
        },
        engine_idle && link.write_buffer@.len() == 0 && !(link.state is Idle)
            && link.last_activity + 15_000_000_000 <= now ==> link.idles(engine_idle, now),
{
}

/// A connected resolver link is watched for room exactly while queries wait, one
/// that comes up while it is not connected or has something to say, and one that
/// is not there for nothing.
pub proof fn law_link_is_watched_while_it_has_something_to_send(link: DnsLink)
    ensures
        link.state is Idle <==> link.wanted_interest() is None,
        link.state is Ready ==> link.wanted_interest() == Some(
            interest(false, false, link.write_buffer@.len() > 0),
        ),
        link.state is Connecting && !link.state->connected ==> link.wanted_interest() == Some(
            interest(true, false, false),
        ),
        link.state is Connecting && link.state->connected && link.state->handshake is None
            ==> link.wanted_interest() == Some(interest(false, false, false)),
        link.state is Connecting && link.state->connected && link.state->handshake is Some
            ==> link.wanted_interest() == Some(
            interest(false, link.state->handshake.unwrap()@.output.len() > 0, false),
        ),
{
}

/// A query is queued exactly when its length fits two octets and the queue stays
/// within 65536 octets.
pub proof fn law_queue_is_bounded(link: DnsLink, message: Seq<u8>)
    ensures
        query_fits(link, message) <==> message.len() <= 65_535 && link.write_buffer@.len()
            + message.len() <= 65_534,
{
}

/// A reply may be as long as a frame leaves room behind the Ethernet header, the
/// larger IP header and the UDP header.
pub proof fn law_reply_leaves_room_for_the_headers(capacity: int)
    ensures
        reply_room(capacity, true) == capacity - 72,
        reply_room(capacity, false) == capacity - 62,
{
}

/// A send goes on after any progress, waits while the socket is full, and gives
/// the connection up on a failure or when it took nothing or too much.
pub proof fn law_exchange_goes_on_with_progress(length: nat, sent: usize)
    ensures
        1 <= sent <= length ==> exchange_after(length, SendOutcome::Sent(sent))
            == DnsExchange::Again,
        sent == 0 || sent > length ==> exchange_after(length, SendOutcome::Sent(sent))
            == DnsExchange::Fail,
        exchange_after(length, SendOutcome::WouldBlock) == DnsExchange::Wait,
        exchange_after(length, SendOutcome::Failed) == DnsExchange::Fail,
{
}

/// Each reply of the resolver counts once, and again among the cut ones exactly
/// when it was cut.
pub proof fn law_responses_are_counted(metrics: Metrics, truncated: bool)
    requires
        metrics.dns_responses < u64::MAX,
        metrics.dns_truncated < u64::MAX,
    ensures
        response_counted(metrics, truncated).dns_responses == metrics.dns_responses + 1,
        response_counted(metrics, truncated).dns_truncated == metrics.dns_truncated + if truncated {
            1int
        } else {
            0
        },
        response_counted(metrics, truncated).dns_queries == metrics.dns_queries,
{
}

/// With a connection that is ready, room leads to queries being written and
/// input to answers being read; with one that comes up, room finishes the
/// connect and the handshake goes on; an error is looked at in any state.
pub proof fn law_resolver_events_are_served(stage: DnsStage, events: u32, state: DnsState)
    requires
        !(state is Idle),
    ensures
        stage is Errors ==> (dns_staged(stage, events, state).0 == DnsStep::CheckErrors <==> events
            & 8 != 0),
        stage is Connect && state is Connecting && !state->connected ==> {
            &&& dns_staged(stage, events, state).0 == DnsStep::FinishConnect <==> events & 4 != 0
            &&& dns_staged(stage, events, state).1 == DnsStage::Done <==> events & 4 == 0
        },
        stage is Handshake ==> (dns_staged(stage, events, state).0 == DnsStep::ShakeHands
            <==> state is Connecting),
        stage is Write ==> (dns_staged(stage, events, state).0 == DnsStep::Flush <==> state is Ready
            && events & 4 != 0),
        stage is Read ==> (dns_staged(stage, events, state).0 == DnsStep::Read <==> state is Ready
            && readable(events)),
        stage is Interest ==> dns_staged(stage, events, state).0 == DnsStep::UpdateInterest,
        stage is Errors ==> dns_staged(stage, events, state).1 == DnsStage::Connect,
        stage is Handshake ==> dns_staged(stage, events, state).1 == DnsStage::Write,
        stage is Write ==> dns_staged(stage, events, state).1 == DnsStage::Read,
        stage is Read ==> dns_staged(stage, events, state).1 == DnsStage::Interest,
        stage is Connect && (state is Ready || state->connected) ==> dns_staged(
            stage,
            events,
            state,
        ).1 == DnsStage::Handshake,
{
}

} // verus!
