//! The DNS transaction engine.
//!
//! UDP queries are validated, given a private upstream transaction identifier,
//! and forwarded as DNS over TCP. Responses are matched, validated against the
//! stored question, and translated back to UDP with the original identifier,
//! truncated with TC when the client's advertised payload limit is exceeded.

use crate::bytes::{be16, be16_bytes, zeros};
use crate::net::SocketAddress;
use crate::time::{Duration, Instant};
use vstd::prelude::*;

verus! {

/// Hard bound on concurrently outstanding queries; excess answers SERVFAIL.
pub const MAX_TRANSACTIONS: usize = 512;

/// RFC 1035 UDP payload limit for clients without EDNS0.
pub const DEFAULT_UDP_PAYLOAD_LIMIT: usize = 512;

/// Question sections longer than this are treated as malformed.
pub const MAX_QUESTION_BYTES: usize = 512;

/// Per-query deadline before a SERVFAIL is synthesized.
pub const QUERY_TIMEOUT: Duration = 5_000_000_000;

pub const HEADER_LEN: usize = 12;
pub const FLAG_RESPONSE: u16 = 0x8000;
pub const FLAG_TRUNCATED: u16 = 0x0200;
pub const FLAG_RECURSION_DESIRED: u16 = 0x0100;
pub const FLAG_RECURSION_AVAILABLE: u16 = 0x0080;
pub const RCODE_FORMERR: u16 = 1;
pub const RCODE_SERVFAIL: u16 = 2;
pub const OPT_RECORD_TYPE: u16 = 41;

/// Where the name at `offset` ends, if it does within `labels` labels. A
/// compression pointer ends a name in place.
pub open spec fn name_end(message: Seq<u8>, offset: int, labels: nat) -> Option<int>
    decreases labels,
{
    if labels == 0 || offset >= message.len() {
        None
    } else if message[offset] == 0 {
        Some(offset + 1)
    } else if message[offset] >= 0xc0 {
        if offset + 2 <= message.len() {
            Some(offset + 2)
        } else {
            None
        }
    } else if message[offset] >= 0x40 {
        None
    } else {
        name_end(message, offset + message[offset] + 1, (labels - 1) as nat)
    }
}

/// The question section of a message with exactly one question.
pub open spec fn question_of(message: Seq<u8>) -> Option<Seq<u8>> {
    match name_end(message, 12, 128) {
        Some(end) => if be16(message, 4) == 1 && end + 4 <= message.len() {
            Some(message.subrange(12, end + 4))
        } else {
            None
        },
        None => None,
    }
}

/// The UDP payload capacity that the first OPT record among the next `records`
/// records advertises, and the default where there is none.
pub open spec fn edns_limit(message: Seq<u8>, offset: int, records: nat) -> int
    decreases records,
{
    if records == 0 {
        512
    } else {
        match name_end(message, offset, 128) {
            None => 512,
            Some(end) => {
                let next = end + 10 + be16(message, end + 8);
                if end + 10 > message.len() {
                    512
                } else if be16(message, end) == OPT_RECORD_TYPE {
                    if be16(message, end + 2) > 512 {
                        be16(message, end + 2) as int
                    } else {
                        512
                    }
                } else if next > message.len() {
                    512
                } else {
                    edns_limit(message, next, (records - 1) as nat)
                }
            },
        }
    }
}

/// The records behind the question that are searched: at most 32.
pub open spec fn searched_records(message: Seq<u8>) -> nat {
    let records = be16(message, 6) + be16(message, 8) + be16(message, 10);
    if records > 32 {
        32
    } else {
        records as nat
    }
}

/// The client's UDP payload capacity that a query advertises.
pub open spec fn payload_limit_of(message: Seq<u8>, question: Seq<u8>) -> int {
    edns_limit(message, 12int + question.len(), searched_records(message))
}

/// The flags of a synthesized failure.
pub open spec fn failure_flags(query_flags: u16, rcode: u16) -> u16 {
    (0x8000 + query_flags / 0x100 % 2 * 0x100 + 0x80 + rcode % 16) as u16
}

/// A minimal answer with the given RCODE, echoing the question when there is
/// one.
pub open spec fn failure_message(id: u16, query_flags: u16, question: Seq<u8>, rcode: u16) -> Seq<
    u8,
> {
    be16_bytes(id) + be16_bytes(failure_flags(query_flags, rcode)) + be16_bytes(
        if question.len() == 0 {
            0
        } else {
            1
        },
    ) + zeros(6) + question
}

/// An octet with ASCII letters in lower case.
pub open spec fn lower(octet: u8) -> u8 {
    if 0x41 <= octet <= 0x5a {
        (octet + 0x20) as u8
    } else {
        octet
    }
}

/// Whether two question sections ask for the same: the name without regard to
/// ASCII case (clients randomize it), type and class exactly.
pub open spec fn same_question(stored: Seq<u8>, received: Seq<u8>) -> bool {
    &&& stored.len() == received.len()
    &&& stored.len() >= 4
    &&& forall|i: int|
        0 <= i < stored.len() - 4 ==> lower(#[trigger] stored[i]) == lower(received[i])
    &&& forall|i: int| stored.len() - 4 <= i < stored.len() ==> #[trigger] stored[i] == received[i]
}

#[derive(Debug)]
pub struct Transaction {
    /// Namespace endpoint the query came from and the reply returns to.
    pub client: SocketAddress,
    /// Gateway endpoint the query was addressed to (reply source).
    pub gateway: SocketAddress,
    pub original_id: u16,
    pub query_flags: u16,
    pub question: Vec<u8>,
    /// Client-advertised UDP payload capacity (EDNS0 or the default).
    pub payload_limit: usize,
    pub deadline: Instant,
}

impl Transaction {
    /// The SERVFAIL that the client is owed.
    pub open spec fn servfail(&self) -> Seq<u8> {
        failure_message(self.original_id, self.query_flags, self.question@, RCODE_SERVFAIL)
    }
}

#[derive(Debug, PartialEq, Eq)]
pub enum QueryDisposition {
    /// Forward the query upstream after rewriting its identifier.
    Forward { upstream_id: u16 },
    /// Answer the client immediately with this DNS message.
    Respond(Vec<u8>),
    /// Not a well-formed query; drop it silently.
    Drop,
}

/// A response translated for the original client.
#[derive(Debug)]
pub struct Reply {
    pub transaction: Transaction,
    pub payload: Vec<u8>,
    pub truncated: bool,
}

/// The identifiers in use.
pub open spec fn ids_of(entries: Seq<(u16, Transaction)>) -> Seq<u16> {
    Seq::new(entries.len(), |i: int| entries[i].0)
}

/// Whether `id` is in use.
pub open spec fn in_use(entries: Seq<(u16, Transaction)>, id: u16) -> bool {
    exists|i: int| 0 <= i < entries.len() && (#[trigger] entries[i]).0 == id
}

/// `start` moved on by `steps`, modulo 2^16.
pub open spec fn id_after(start: u16, steps: int) -> u16 {
    ((start + steps) % 0x1_0000) as u16
}

/// The answer that a query gets without being forwarded, if it gets one; an
/// empty one where it is dropped.
pub open spec fn local_answer(
    message: Seq<u8>,
    resolver_available: bool,
    outstanding: nat,
) -> Option<Seq<u8>> {
    if message.len() < 12 || be16(message, 2) >= FLAG_RESPONSE {
        Some(Seq::empty())
    } else {
        match question_of(message) {
            None => Some(
                failure_message(
                    be16(message, 0),
                    be16(message, 2),
                    Seq::empty(),
                    RCODE_FORMERR,
                ),
            ),
            Some(question) => if question.len() > MAX_QUESTION_BYTES {
                Some(
                    failure_message(
                        be16(message, 0),
                        be16(message, 2),
                        Seq::empty(),
                        RCODE_FORMERR,
                    ),
                )
            } else if !resolver_available || outstanding >= MAX_TRANSACTIONS {
                Some(
                    failure_message(
                        be16(message, 0),
                        be16(message, 2),
                        question,
                        RCODE_SERVFAIL,
                    ),
                )
            } else {
                None
            },
        }
    }
}

/// The place of the transaction that a response answers, if it answers one.
pub open spec fn answers(entries: Seq<(u16, Transaction)>, message: Seq<u8>, at: int) -> bool {
    &&& message.len() >= 12
    &&& be16(message, 2) >= FLAG_RESPONSE
    &&& 0 <= at < entries.len()
    &&& entries[at].0 == be16(message, 0)
    &&& question_of(message) is Some
    &&& same_question(entries[at].1.question@, question_of(message).unwrap())
}

/// The flags of a response with TC set.
pub open spec fn truncated_flags(flags: u16) -> u16 {
    if flags / 0x200 % 2 == 0 {
        (flags + 0x200) as u16
    } else {
        flags
    }
}

/// The response as the client gets it: with its own identifier and, where it is
/// longer than `limit`, cut down to the question with TC set.
pub open spec fn translated(message: Seq<u8>, original_id: u16, limit: int) -> Seq<u8> {
    if message.len() > limit {
        be16_bytes(original_id) + be16_bytes(truncated_flags(be16(message, 2))) + be16_bytes(1)
            + zeros(6) + question_of(message).unwrap()
    } else {
        be16_bytes(original_id) + message.skip(2)
    }
}

/// What forwarding a query does: it waits for its answer under the first free
/// identifier from where the search starts.
pub open spec fn query_forwarded(
    before: Engine,
    after: Engine,
    upstream_id: u16,
    client: SocketAddress,
    gateway: SocketAddress,
    message: Seq<u8>,
    now: Instant,
) -> bool {
    let added = after.entries().last().1;
    let question = question_of(message).unwrap();
    &&& message.len() >= 12
    &&& !in_use(before.entries(), upstream_id)
    &&& exists|steps: int|
        {
            &&& 0 <= steps < 0x1_0000
            &&& upstream_id == #[trigger] id_after(before.next(), steps)
            &&& forall|k: int|
                0 <= k < steps ==> in_use(
                    before.entries(),
                    #[trigger] id_after(before.next(), k),
                )
        }
    &&& after.next() == id_after(upstream_id, 1)
    &&& after.entries().len() == before.entries().len() + 1
    &&& after.entries().drop_last() == before.entries()
    &&& after.entries().last().0 == upstream_id
    &&& added.client == client
    &&& added.gateway == gateway
    &&& added.original_id == be16(message, 0)
    &&& added.query_flags == be16(message, 2)
    &&& added.question@ == question
    &&& added.payload_limit == payload_limit_of(message, question)
    &&& added.deadline == now + before.timeout()
}

/// What a response of the resolver does: the transaction that it answers ends,
/// and its client gets the response. One that answers none changes nothing.
pub open spec fn response_taken(
    before: Engine,
    after: Engine,
    message: Seq<u8>,
    frame_limit: usize,
    reply: Option<Reply>,
) -> bool {
    match reply {
        Some(reply) => exists|at: int|
            {
                &&& #[trigger] answers(before.entries(), message, at)
                &&& reply.transaction == before.entries()[at].1
                &&& after.entries() == before.entries().remove(at)
                &&& ({
                    let limit = if reply.transaction.payload_limit < frame_limit {
                        reply.transaction.payload_limit
                    } else {
                        frame_limit
                    };
                    &&& reply.truncated == (message.len() > limit)
                    &&& reply.payload@ == translated(
                        message,
                        reply.transaction.original_id,
                        limit as int,
                    )
                })
            },
        None => {
            &&& forall|at: int| !#[trigger] answers(before.entries(), message, at)
            &&& after.entries() == before.entries()
        },
    }
}

/// What withdrawing a query does: its transaction ends with a SERVFAIL.
pub open spec fn query_withdrawn(
    before: Engine,
    after: Engine,
    upstream_id: u16,
    failure: Option<(Transaction, Vec<u8>)>,
) -> bool {
    match failure {
        Some((transaction, reply)) => exists|at: int|
            {
                &&& 0 <= at < before.entries().len()
                &&& #[trigger] before.entries()[at] == (upstream_id, transaction)
                &&& after.entries() == before.entries().remove(at)
                &&& reply@ == transaction.servfail()
            },
        None => {
            &&& !in_use(before.entries(), upstream_id)
            &&& after.entries() == before.entries()
        },
    }
}

pub struct Engine {
    transactions: Vec<(u16, Transaction)>,
    next_id: u16,
    query_timeout: Duration,
}

impl Default for Engine {
    fn default() -> (engine: Engine)
        ensures
            engine.wf(),
            engine.entries().len() == 0,
            engine.timeout() == QUERY_TIMEOUT,
            engine.next() == 0,
    {
        Engine::with_query_timeout(QUERY_TIMEOUT)
    }
}

impl Engine {
    /// The outstanding transactions under their upstream identifiers, the
    /// oldest first.
    pub closed spec fn entries(&self) -> Seq<(u16, Transaction)> {
        self.transactions@
    }

    /// Where the search for an identifier starts.
    pub closed spec fn next(&self) -> u16 {
        self.next_id
    }

    pub closed spec fn timeout(&self) -> Duration {
        self.query_timeout
    }

    /// No identifier is in use twice, and the bound is kept.
    pub open spec fn wf(&self) -> bool {
        &&& self.entries().len() <= MAX_TRANSACTIONS
        &&& forall|i: int, j: int|
            0 <= i < j < self.entries().len() ==> (#[trigger] self.entries()[i]).0 != (
            #[trigger] self.entries()[j]).0
    }

    #[must_use]
    pub fn with_query_timeout(query_timeout: Duration) -> (engine: Engine)
        ensures
            engine.wf(),
            engine.entries().len() == 0,
            engine.timeout() == query_timeout,
            engine.next() == 0,
    {
        Engine { transactions: Vec::new(), next_id: 0, query_timeout }
    }

    /// Classifies a namespace UDP query. `resolver_available` says whether an
    /// upstream resolver is configured; without one every valid query is
    /// answered SERVFAIL.
    pub fn accept_query(
        &mut self,
        client: SocketAddress,
        gateway: SocketAddress,
        message: &[u8],
        resolver_available: bool,
        now: Instant,
    ) -> (disposition: QueryDisposition)
        requires
            old(self).wf(),
            now + old(self).timeout() <= u64::MAX,
        ensures
            final(self).wf(),
            final(self).timeout() == old(self).timeout(),
            disposition is Forward <==> {
                &&& message@.len() >= 12
                &&& message@[2] < 0x80
                &&& question_of(message@) is Some
                &&& question_of(message@)->0.len() <= 512
                &&& resolver_available
                &&& old(self).entries().len() < 512
            },
            disposition is Drop <==> message@.len() < 12 || message@[2] >= 0x80,
            match disposition {
                QueryDisposition::Drop => {
                    &&& message@.len() < 12 || be16(message@, 2) >= FLAG_RESPONSE
                    &&& final(self).entries() == old(self).entries()
                    &&& final(self).next() == old(self).next()
                },
                QueryDisposition::Respond(reply) => {
                    &&& message@.len() >= 12
                    &&& be16(message@, 2) < FLAG_RESPONSE
                    &&& local_answer(
                        message@,
                        resolver_available,
                        old(self).entries().len(),
                    ) == Some(reply@)
                    &&& final(self).entries() == old(self).entries()
                    &&& final(self).next() == old(self).next()
                },
                QueryDisposition::Forward { upstream_id } => {
                    &&& local_answer(
                        message@,
                        resolver_available,
                        old(self).entries().len(),
                    ) is None
                    &&& query_forwarded(
                        *old(self),
                        *final(self),
                        upstream_id,
                        client,
                        gateway,
                        message@,
                        now,
                    )
                },
            },
    {
        if message.len() < HEADER_LEN {
            return QueryDisposition::Drop;
        }
        let id: u16 = crate::bytes::read_be16(message, 0);
        let flags: u16 = crate::bytes::read_be16(message, 2);
        if flags >= FLAG_RESPONSE {
            return QueryDisposition::Drop;
        }
        let question = match question_section(message) {
            Some(question) => question,
            None => {
                let nothing: [u8; 0] = [];
                assert(nothing@ =~= Seq::<u8>::empty());
                return QueryDisposition::Respond(
                    synthesize_failure(id, flags, &nothing, RCODE_FORMERR),
                );
            },
        };
        if question.len() > MAX_QUESTION_BYTES {
            let nothing: [u8; 0] = [];
            assert(nothing@ =~= Seq::<u8>::empty());
            return QueryDisposition::Respond(
                synthesize_failure(id, flags, &nothing, RCODE_FORMERR),
            );
        }
        if !resolver_available || self.transactions.len() >= MAX_TRANSACTIONS {
            return QueryDisposition::Respond(
                synthesize_failure(id, flags, question, RCODE_SERVFAIL),
            );
        }
        let payload_limit: usize = edns_payload_limit(message, HEADER_LEN + question.len());
        let ghost before = *self;
        let upstream_id: u16 = self.allocate_id();
        let stored = vstd::slice::slice_to_vec(question);
        self.transactions.push(
            (
                upstream_id,
                Transaction {
                    client,
                    gateway,
                    original_id: id,
                    query_flags: flags,
                    question: stored,
                    payload_limit,
                    deadline: now + self.query_timeout,
                },
            ),
        );
        assert(self.entries().drop_last() =~= before.entries());
        assert forall|i: int, j: int| 0 <= i < j < self.entries().len() implies (
        #[trigger] self.entries()[i]).0 != (#[trigger] self.entries()[j]).0 by {
            assert(self.entries()[i] == before.entries()[i]);
            if j < before.entries().len() {
                assert(self.entries()[j] == before.entries()[j]);
            }
        }
        QueryDisposition::Forward { upstream_id }
    }

    /// Matches an upstream response to its transaction, restores the original
    /// identifier, and truncates against the smaller of the client's capacity
    /// and `frame_limit`. A response that answers no transaction, or another
    /// question, is ignored: the transaction stays pending until its deadline.
    pub fn accept_response(&mut self, message: &[u8], frame_limit: usize) -> (reply: Option<Reply>)
        requires
            old(self).wf(),
        ensures
            final(self).wf(),
            final(self).timeout() == old(self).timeout(),
            final(self).next() == old(self).next(),
            response_taken(*old(self), *final(self), message@, frame_limit, reply),
    {
        if message.len() < HEADER_LEN {
            return None;
        }
        let upstream_id: u16 = crate::bytes::read_be16(message, 0);
        let flags: u16 = crate::bytes::read_be16(message, 2);
        if flags < FLAG_RESPONSE {
            return None;
        }
        let question = match question_section(message) {
            Some(question) => question,
            None => return None,
        };
        let at: usize = match self.position(upstream_id) {
            Some(at) => at,
            None => return None,
        };
        if !question_matches(self.transactions[at].1.question.as_slice(), question) {
            assert forall|other: int| !#[trigger] answers(self.entries(), message@, other) by {
                if answers(self.entries(), message@, other) {
                    if other < at {
                        assert(self.entries()[other].0 != self.entries()[at as int].0);
                    } else if other > at {
                        assert(self.entries()[at as int].0 != self.entries()[other].0);
                    }
                }
            }
            return None;
        }
        let ghost before = *self;
        assert(answers(before.entries(), message@, at as int));
        let (_, transaction) = self.transactions.remove(at);
        proof {
            lemma_remove_keeps_distinct(before.entries(), at as int);
        }
        let limit: usize = if transaction.payload_limit < frame_limit {
            transaction.payload_limit
        } else {
            frame_limit
        };
        let truncated = message.len() > limit;
        let original = crate::bytes::be16_octets(transaction.original_id);
        let mut payload: Vec<u8> = Vec::new();
        if truncated {
            let marked: u16 = if flags / 0x200 % 2 == 0 {
                flags + FLAG_TRUNCATED
            } else {
                flags
            };
            payload.extend_from_slice(&original);
            payload.extend_from_slice(&crate::bytes::be16_octets(marked));
            payload.extend_from_slice(&crate::bytes::be16_octets(1));
            payload.extend_from_slice(&[0, 0, 0, 0, 0, 0]);
            payload.extend_from_slice(question);
            assert(payload@ =~= translated(
                message@,
                transaction.original_id,
                limit as int,
            ));
        } else {
            payload.extend_from_slice(&original);
            payload.extend_from_slice(
                vstd::slice::slice_subrange(message, 2, message.len()),
            );
            assert(payload@ =~= translated(
                message@,
                transaction.original_id,
                limit as int,
            ));
        }
        Some(Reply { transaction, payload, truncated })
    }

    /// Removes the transactions whose deadline has come and returns the
    /// SERVFAIL that each of their clients is owed.
    pub fn expire(&mut self, now: Instant) -> (failures: Vec<(Transaction, Vec<u8>)>)
        requires
            old(self).wf(),
        ensures
            final(self).wf(),
            final(self).timeout() == old(self).timeout(),
            final(self).next() == old(self).next(),
            final(self).entries() == pending(old(self).entries(), now),
            failures@.len() == overdue(old(self).entries(), now).len(),
            forall|i: int|
                0 <= i < failures@.len() ==> {
                    &&& (#[trigger] failures@[i]).0 == overdue(old(self).entries(), now)[i].1
                    &&& failures@[i].1@ == failures@[i].0.servfail()
                },
    {
        let ghost before = self.entries();
        let mut failures: Vec<(Transaction, Vec<u8>)> = Vec::new();
        let mut at: usize = 0;
        let ghost mut seen: int = 0;
        proof {
            assert(before.take(0) =~= Seq::empty());
            assert(pending(before.take(0), now) =~= Seq::empty()) by {
                reveal(Seq::filter);
            }
            assert(overdue(before.take(0), now) =~= Seq::empty()) by {
                reveal(Seq::filter);
            }
            assert(before.take(0) + before.skip(0) =~= before);
        }
        while at < self.transactions.len()
            invariant
                0 <= seen <= before.len(),
                at == pending(before.take(seen), now).len(),
                self.transactions@ == pending(before.take(seen), now) + before.skip(seen),
                failures@.len() == overdue(before.take(seen), now).len(),
                forall|i: int|
                    0 <= i < failures@.len() ==> {
                        &&& (#[trigger] failures@[i]).0 == overdue(before.take(seen), now)[i].1
                        &&& failures@[i].1@ == failures@[i].0.servfail()
                    },
                self.query_timeout == old(self).query_timeout,
                self.next_id == old(self).next_id,
            decreases before.len() - seen,
        {
            let ghost kept = pending(before.take(seen), now);
            let ghost gone = overdue(before.take(seen), now);
            assert(self.transactions@[at as int] == before[seen]);
            proof {
                lemma_split_step(before, seen, now);
            }
            if self.transactions[at].1.deadline <= now {
                let (_, transaction) = self.transactions.remove(at);
                let reply = synthesize_failure(
                    transaction.original_id,
                    transaction.query_flags,
                    transaction.question.as_slice(),
                    RCODE_SERVFAIL,
                );
                failures.push((transaction, reply));
                assert((kept + before.skip(seen)).remove(at as int) =~= kept + before.skip(
                    seen + 1,
                ));
            } else {
                assert(kept + before.skip(seen) =~= kept.push(before[seen]) + before.skip(
                    seen + 1,
                ));
                at = at + 1;
            }
            proof {
                seen = seen + 1;
            }
        }
        proof {
            assert(seen == before.len());
            assert(before.take(seen) =~= before);
            assert(pending(before, now) + before.skip(seen) =~= pending(before, now));
            lemma_filter_keeps_distinct(before, now);
        }
        failures
    }

    /// Withdraws a just-forwarded transaction that could not be queued
    /// upstream, and returns the SERVFAIL that its client is owed.
    pub fn abort(&mut self, upstream_id: u16) -> (failure: Option<(Transaction, Vec<u8>)>)
        requires
            old(self).wf(),
        ensures
            final(self).wf(),
            final(self).timeout() == old(self).timeout(),
            final(self).next() == old(self).next(),
            query_withdrawn(*old(self), *final(self), upstream_id, failure),
    {
        match self.position(upstream_id) {
            None => None,
            Some(at) => {
                let ghost before = self.entries();
                assert(before[at as int].0 == upstream_id);
                let (_, transaction) = self.transactions.remove(at);
                proof {
                    lemma_remove_keeps_distinct(before, at as int);
                }
                let reply = synthesize_failure(
                    transaction.original_id,
                    transaction.query_flags,
                    transaction.question.as_slice(),
                    RCODE_SERVFAIL,
                );
                assert(before[at as int] == (upstream_id, transaction));
                Some((transaction, reply))
            },
        }
    }

    /// Fails every outstanding transaction, for an upstream connection that
    /// died before answering.
    pub fn fail_all(&mut self) -> (failures: Vec<(Transaction, Vec<u8>)>)
        requires
            old(self).wf(),
        ensures
            final(self).wf(),
            final(self).timeout() == old(self).timeout(),
            final(self).next() == old(self).next(),
            final(self).entries().len() == 0,
            failures@.len() == old(self).entries().len(),
            forall|i: int|
                0 <= i < failures@.len() ==> {
                    &&& (#[trigger] failures@[i]).0 == old(self).entries()[i].1
                    &&& failures@[i].1@ == failures@[i].0.servfail()
                },
    {
        let ghost before = self.entries();
        let mut failures: Vec<(Transaction, Vec<u8>)> = Vec::new();
        while self.transactions.len() > 0
            invariant
                failures@.len() + self.transactions@.len() == before.len(),
                self.transactions@ == before.skip(failures@.len() as int),
                forall|i: int|
                    0 <= i < failures@.len() ==> {
                        &&& (#[trigger] failures@[i]).0 == before[i].1
                        &&& failures@[i].1@ == failures@[i].0.servfail()
                    },
                self.query_timeout == old(self).query_timeout,
                self.next_id == old(self).next_id,
            decreases self.transactions@.len(),
        {
            let ghost taken = failures@.len() as int;
            let (_, transaction) = self.transactions.remove(0);
            let reply = synthesize_failure(
                transaction.original_id,
                transaction.query_flags,
                transaction.question.as_slice(),
                RCODE_SERVFAIL,
            );
            failures.push((transaction, reply));
            assert(before.skip(taken).remove(0) =~= before.skip(taken + 1));
        }
        failures
    }

    #[must_use]
    pub fn is_idle(&self) -> (idle: bool)
        ensures
            idle == (self.entries().len() == 0),
    {
        self.transactions.is_empty()
    }

    #[must_use]
    pub fn outstanding(&self) -> (count: usize)
        ensures
            count == self.entries().len(),
    {
        self.transactions.len()
    }

    /// Earliest pending deadline, for timer scheduling.
    #[must_use]
    pub fn next_deadline(&self) -> (deadline: Option<Instant>)
        ensures
            match deadline {
                Some(deadline) => {
                    &&& exists|i: int|
                        0 <= i < self.entries().len() && (#[trigger] self.entries()[i]).1.deadline
                            == deadline
                    &&& forall|i: int|
                        0 <= i < self.entries().len() ==> deadline <= (
                        #[trigger] self.entries()[i]).1.deadline
                },
                None => self.entries().len() == 0,
            },
    {
        if self.transactions.len() == 0 {
            return None;
        }
        let mut earliest: u64 = self.transactions[0].1.deadline;
        let mut i: usize = 1;
        assert(self.entries()[0].1.deadline == earliest);
        while i < self.transactions.len()
            invariant
                1 <= i <= self.transactions@.len(),
                exists|j: int|
                    0 <= j < self.entries().len() && (#[trigger] self.entries()[j]).1.deadline
                        == earliest,
                forall|j: int|
                    0 <= j < i ==> earliest <= (#[trigger] self.entries()[j]).1.deadline,
            decreases self.transactions@.len() - i,
        {
            if self.transactions[i].1.deadline < earliest {
                earliest = self.transactions[i].1.deadline;
                assert(self.entries()[i as int].1.deadline == earliest);
            }
            i = i + 1;
        }
        Some(earliest)
    }

    fn position(&self, id: u16) -> (at: Option<usize>)
        ensures
            match at {
                Some(at) => at < self.entries().len() && self.entries()[at as int].0 == id,
                None => !in_use(self.entries(), id),
            },
    {
        let mut i: usize = 0;
        while i < self.transactions.len()
            invariant
                i <= self.transactions@.len(),
                forall|j: int| 0 <= j < i ==> (#[trigger] self.transactions@[j]).0 != id,
            decreases self.transactions@.len() - i,
        {
            if self.transactions[i].0 == id {
                return Some(i);
            }
            i = i + 1;
        }
        None
    }

    /// The first identifier from the last one on that is not in use.
    fn allocate_id(&mut self) -> (id: u16)
        requires
            old(self).wf(),
            old(self).entries().len() < MAX_TRANSACTIONS,
        ensures
            final(self).entries() == old(self).entries(),
            final(self).timeout() == old(self).timeout(),
            !in_use(old(self).entries(), id),
            exists|steps: int|
                {
                    &&& 0 <= steps < 0x1_0000
                    &&& id == #[trigger] id_after(old(self).next(), steps)
                    &&& forall|k: int|
                        0 <= k < steps ==> in_use(
                            old(self).entries(),
                            #[trigger] id_after(old(self).next(), k),
                        )
                },
            final(self).next() == id_after(id, 1),
    {
        let ghost start = self.next_id;
        let ghost entries = self.entries();
        let ghost mut steps: int = 0;
        loop
            invariant
                self.wf(),
                self.entries() == entries,
                self.query_timeout == old(self).query_timeout,
                entries.len() < MAX_TRANSACTIONS,
                0 <= steps <= MAX_TRANSACTIONS,
                self.next_id == id_after(start, steps),
                start == old(self).next_id,
                entries == old(self).entries(),
                forall|k: int|
                    0 <= k < steps ==> in_use(entries, #[trigger] id_after(start, k)),
            decreases MAX_TRANSACTIONS - steps,
        {
            proof {
                lemma_ids_run_out(entries, start, steps);
            }
            let id: u16 = self.next_id;
            self.next_id = self.next_id.wrapping_add(1);
            let free = self.position(id).is_none();
            if free {
                assert(id == id_after(old(self).next(), steps));
                assert forall|k: int| 0 <= k < steps implies in_use(
                    old(self).entries(),
                    #[trigger] id_after(old(self).next(), k),
                ) by {
                    assert(in_use(entries, id_after(start, k)));
                }
                return id;
            }
            proof {
                steps = steps + 1;
            }
        }
    }
}

/// The transactions whose deadline has come.
pub open spec fn overdue(entries: Seq<(u16, Transaction)>, now: Instant) -> Seq<
    (u16, Transaction),
> {
    entries.filter(|entry: (u16, Transaction)| entry.1.deadline <= now)
}

/// The transactions whose deadline has not come.
pub open spec fn pending(entries: Seq<(u16, Transaction)>, now: Instant) -> Seq<
    (u16, Transaction),
> {
    entries.filter(|entry: (u16, Transaction)| entry.1.deadline > now)
}

proof fn lemma_split_step(entries: Seq<(u16, Transaction)>, i: int, now: Instant)
    requires
        0 <= i < entries.len(),
    ensures
        entries[i].1.deadline <= now ==> {
            &&& overdue(entries.take(i + 1), now) == overdue(entries.take(i), now).push(entries[i])
            &&& pending(entries.take(i + 1), now) == pending(entries.take(i), now)
        },
        entries[i].1.deadline > now ==> {
            &&& overdue(entries.take(i + 1), now) == overdue(entries.take(i), now)
            &&& pending(entries.take(i + 1), now) == pending(entries.take(i), now).push(entries[i])
        },
{
    reveal(Seq::filter);
    assert(entries.take(i + 1).drop_last() =~= entries.take(i));
    assert(entries.take(i + 1).last() == entries[i]);
}

proof fn lemma_remove_keeps_distinct(entries: Seq<(u16, Transaction)>, at: int)
    requires
        0 <= at < entries.len(),
        forall|i: int, j: int|
            0 <= i < j < entries.len() ==> (#[trigger] entries[i]).0 != (#[trigger] entries[j]).0,
    ensures
        ({
            let rest = entries.remove(at);
            forall|i: int, j: int|
                0 <= i < j < rest.len() ==> (#[trigger] rest[i]).0 != (#[trigger] rest[j]).0
        }),
{
    let rest = entries.remove(at);
    assert forall|i: int, j: int| 0 <= i < j < rest.len() implies (#[trigger] rest[i]).0 != (
    #[trigger] rest[j]).0 by {
        let a = if i < at {
            i
        } else {
            i + 1
        };
        let b = if j < at {
            j
        } else {
            j + 1
        };
        assert(rest[i] == entries[a] && rest[j] == entries[b]);
    }
}

proof fn lemma_filter_keeps_distinct(entries: Seq<(u16, Transaction)>, now: Instant)
    requires
        forall|i: int, j: int|
            0 <= i < j < entries.len() ==> (#[trigger] entries[i]).0 != (#[trigger] entries[j]).0,
    ensures
        pending(entries, now).len() <= entries.len(),
        forall|i: int, j: int|
            0 <= i < j < pending(entries, now).len() ==> (#[trigger] pending(entries, now)[i]).0
                != (#[trigger] pending(entries, now)[j]).0,
    decreases entries.len(),
{
    reveal(Seq::filter);
    if entries.len() > 0 {
        let rest = entries.drop_last();
        let kept = pending(entries, now);
        lemma_filter_keeps_distinct(rest, now);
        assert forall|i: int, j: int| 0 <= i < j < kept.len() implies (#[trigger] kept[i]).0 != (
        #[trigger] kept[j]).0 by {
            let inner = pending(rest, now);
            if j < inner.len() {
                assert(kept[i] == inner[i] && kept[j] == inner[j]);
            } else {
                assert(kept[j] == entries.last());
                assert(kept[i] == inner[i]);
                assert(inner.contains(inner[i]));
                rest.lemma_filter_contains_rev(
                    |entry: (u16, Transaction)| entry.1.deadline > now,
                    inner[i],
                );
                let k = choose|k: int| 0 <= k < rest.len() && rest[k] == inner[i];
                assert(entries[k].0 != entries[entries.len() - 1].0);
            }
        }
    }
}

/// As many identifiers in a row as there are transactions cannot all be in use,
/// and one more.
proof fn lemma_ids_run_out(entries: Seq<(u16, Transaction)>, start: u16, steps: int)
    requires
        0 <= steps <= 0x1_0000,
        forall|k: int| 0 <= k < steps ==> in_use(entries, #[trigger] id_after(start, k)),
    ensures
        steps <= entries.len(),
{
    let run = Seq::new(steps as nat, |k: int| id_after(start, k));
    let used = ids_of(entries);
    assert forall|i: int, j: int|
        0 <= i < run.len() && 0 <= j < run.len() && i != j implies run[i] != run[j] by {}
    assert forall|id: u16| run.to_set().contains(id) implies used.to_set().contains(id) by {
        let k = choose|k: int| 0 <= k < run.len() && run[k] == id;
        assert(in_use(entries, id_after(start, k)));
        let i = choose|i: int| 0 <= i < entries.len() && (#[trigger] entries[i]).0 == id;
        assert(used[i] == id);
    }
    run.unique_seq_to_set();
    used.lemma_cardinality_of_set();
    vstd::seq_lib::seq_to_set_is_finite(used);
    vstd::set_lib::lemma_len_subset(run.to_set(), used.to_set());
}

/// A minimal answer with the given RCODE, echoing the question when there is
/// one.
fn synthesize_failure(id: u16, query_flags: u16, question: &[u8], rcode: u16) -> (message: Vec<u8>)
    ensures
        message@ == failure_message(id, query_flags, question@, rcode),
{
    let flags: u16 = FLAG_RESPONSE + query_flags / 0x100 % 2 * FLAG_RECURSION_DESIRED
        + FLAG_RECURSION_AVAILABLE + rcode % 16;
    let count: u16 = if question.len() == 0 {
        0
    } else {
        1
    };
    let mut message: Vec<u8> = Vec::new();
    message.extend_from_slice(&crate::bytes::be16_octets(id));
    message.extend_from_slice(&crate::bytes::be16_octets(flags));
    message.extend_from_slice(&crate::bytes::be16_octets(count));
    message.extend_from_slice(&[0, 0, 0, 0, 0, 0]);
    message.extend_from_slice(question);
    assert(message@ =~= failure_message(id, query_flags, question@, rcode));
    message
}

/// The question section of a single-question message.
fn question_section(message: &[u8]) -> (question: Option<&[u8]>)
    requires
        message@.len() >= 12,
    ensures
        match question {
            Some(question) => {
                &&& question_of(message@) == Some(question@)
                &&& 12 + question@.len() <= message@.len()
            },
            None => question_of(message@) is None,
        },
{
    if crate::bytes::read_be16(message, 4) != 1 {
        return None;
    }
    match skip_name(message, HEADER_LEN) {
        None => None,
        Some(end) => {
            if message.len() - end < 4 {
                return None;
            }
            Some(vstd::slice::slice_subrange(message, HEADER_LEN, end + 4))
        },
    }
}

/// Skips a possibly compressed name.
fn skip_name(message: &[u8], offset: usize) -> (end: Option<usize>)
    ensures
        match end {
            Some(end) => {
                &&& name_end(message@, offset as int, 128) == Some(end as int)
                &&& offset < end <= message@.len()
            },
            None => name_end(message@, offset as int, 128) is None,
        },
{
    let size: usize = message.len();
    let mut at: usize = offset;
    let mut labels: usize = 128;
    while labels > 0
        invariant
            labels <= 128,
            size == message@.len(),
            offset <= at,
            name_end(message@, offset as int, 128) == name_end(
                message@,
                at as int,
                labels as nat,
            ),
        decreases labels,
    {
        if at >= size {
            return None;
        }
        let length: u8 = message[at];
        if length == 0 {
            return Some(at + 1);
        }
        if length >= 0xc0 {
            return if size - at >= 2 {
                Some(at + 2)
            } else {
                None
            };
        }
        if length >= 0x40 {
            return None;
        }
        if size - at <= length as usize {
            proof {
                lemma_name_past_end(
                    message@,
                    at + length + 1,
                    (labels - 1) as nat,
                );
            }
            return None;
        }
        at = at + length as usize + 1;
        labels = labels - 1;
    }
    None
}

proof fn lemma_name_end_bounds(message: Seq<u8>, offset: int, labels: nat)
    ensures
        match name_end(message, offset, labels) {
            Some(end) => offset < end <= message.len(),
            None => true,
        },
    decreases labels,
{
    if labels > 0 && offset < message.len() && 0 < message[offset] < 0x40 {
        lemma_name_end_bounds(message, offset + message[offset] + 1, (labels - 1) as nat);
    }
}

proof fn lemma_name_past_end(message: Seq<u8>, offset: int, labels: nat)
    requires
        offset >= message.len(),
    ensures
        name_end(message, offset, labels) is None,
{
}

/// Whether two question sections ask for the same.
fn question_matches(stored: &[u8], received: &[u8]) -> (same: bool)
    ensures
        same == same_question(stored@, received@),
{
    if stored.len() != received.len() || stored.len() < 4 {
        return false;
    }
    let name_len: usize = stored.len() - 4;
    let mut i: usize = 0;
    while i < stored.len()
        invariant
            i <= stored@.len(),
            stored@.len() == received@.len(),
            stored@.len() >= 4,
            name_len == stored@.len() - 4,
            forall|j: int|
                0 <= j < i && j < name_len ==> lower(#[trigger] stored@[j]) == lower(received@[j]),
            forall|j: int| name_len <= j < i ==> #[trigger] stored@[j] == received@[j],
        decreases stored@.len() - i,
    {
        let a: u8 = stored[i];
        let b: u8 = received[i];
        if i < name_len {
            if ascii_lower(a) != ascii_lower(b) {
                assert(lower(stored@[i as int]) != lower(received@[i as int]));
                return false;
            }
        } else if a != b {
            assert(stored@[i as int] != received@[i as int]);
            return false;
        }
        i = i + 1;
    }
    true
}

fn ascii_lower(octet: u8) -> (result: u8)
    ensures
        result == lower(octet),
{
    if octet >= 0x41 && octet <= 0x5a {
        octet + 0x20
    } else {
        octet
    }
}

/// Walks the records of a query for an EDNS0 OPT and returns the UDP payload
/// capacity that it advertises, never below the default.
fn edns_payload_limit(message: &[u8], offset: usize) -> (limit: usize)
    requires
        message@.len() >= 12,
        offset <= message@.len(),
    ensures
        limit == edns_limit(message@, offset as int, searched_records(message@)),
        limit >= 512,
{
    let size: usize = message.len();
    let records: usize = crate::bytes::read_be16(message, 6) as usize + crate::bytes::read_be16(
        message,
        8,
    ) as usize + crate::bytes::read_be16(message, 10) as usize;
    let mut remaining: usize = if records > 32 {
        32
    } else {
        records
    };
    let mut at: usize = offset;
    while remaining > 0
        invariant
            size == message@.len(),
            size >= 12,
            at <= size,
            edns_limit(message@, offset as int, searched_records(message@)) == edns_limit(
                message@,
                at as int,
                remaining as nat,
            ),
        decreases remaining,
    {
        let end: usize = match skip_name(message, at) {
            Some(end) => end,
            None => return DEFAULT_UDP_PAYLOAD_LIMIT,
        };
        if size - end < 10 {
            return DEFAULT_UDP_PAYLOAD_LIMIT;
        }
        let record_type: u16 = crate::bytes::read_be16(message, end);
        let class: u16 = crate::bytes::read_be16(message, end + 2);
        if record_type == OPT_RECORD_TYPE {
            return if class as usize > DEFAULT_UDP_PAYLOAD_LIMIT {
                class as usize
            } else {
                DEFAULT_UDP_PAYLOAD_LIMIT
            };
        }
        let rdlength: usize = crate::bytes::read_be16(message, end + 8) as usize;
        if size - (end + 10) < rdlength {
            return DEFAULT_UDP_PAYLOAD_LIMIT;
        }
        at = end + 10 + rdlength;
        remaining = remaining - 1;
    }
    DEFAULT_UDP_PAYLOAD_LIMIT
}

/// A query that was forwarded is answered to its own client under its own
/// identifier: a response to its question, under the upstream identifier that
/// it was given, matches its transaction and no other, and what the client gets
/// starts with the identifier that it sent.
pub proof fn law_response_returns_to_client(
    entries: Seq<(u16, Transaction)>,
    at: int,
    query: Seq<u8>,
    response: Seq<u8>,
    limit: int,
)
    requires
        0 <= at < entries.len(),
        forall|i: int, j: int|
            0 <= i < j < entries.len() ==> (#[trigger] entries[i]).0 != (#[trigger] entries[j]).0,
        query.len() >= 12,
        question_of(query) is Some,
        entries[at].1.question@ == question_of(query).unwrap(),
        entries[at].1.original_id == be16(query, 0),
        response.len() >= 12,
        be16(response, 0) == entries[at].0,
        be16(response, 2) >= FLAG_RESPONSE,
        question_of(response) is Some,
        same_question(question_of(query).unwrap(), question_of(response).unwrap()),
    ensures
        forall|other: int| #[trigger] answers(entries, response, other) <==> other == at,
        be16(translated(response, entries[at].1.original_id, limit), 0) == be16(query, 0),
{
    assert forall|other: int| #[trigger] answers(entries, response, other) <==> other == at by {
        if 0 <= other < entries.len() && other != at {
            if other < at {
                assert(entries[other].0 != entries[at].0);
            } else {
                assert(entries[at].0 != entries[other].0);
            }
        }
    }
    let id = be16_bytes(entries[at].1.original_id);
    let reply = translated(response, entries[at].1.original_id, limit);
    assert(reply[0] == id[0] && reply[1] == id[1]);
}

/// A question asks for the same as itself, whatever the case of its name.
pub proof fn law_same_question_is_reflexive(question: Seq<u8>)
    requires
        question.len() >= 4,
    ensures
        same_question(question, question),
{
}

/// A response that fits is relayed whole; one that does not is cut down to at
/// most its own length, with TC set and no records counted.
pub proof fn law_translation_never_grows(response: Seq<u8>, original_id: u16, limit: int)
    requires
        response.len() >= 12,
        question_of(response) is Some,
    ensures
        ({
            let reply = translated(response, original_id, limit);
            &&& reply.len() <= response.len()
            &&& response.len() <= limit ==> reply.len() == response.len() && reply.skip(2)
                == response.skip(2)
            &&& response.len() > limit ==> be16(reply, 2) / 0x200 % 2 == 1 && reply.subrange(6, 12)
                == zeros(6)
        }),
{
    let reply = translated(response, original_id, limit);
    let question = question_of(response).unwrap();
    if response.len() <= limit {
        assert(reply.skip(2) =~= response.skip(2));
    } else {
        let marked = be16_bytes(truncated_flags(be16(response, 2)));
        assert(reply[2] == marked[0] && reply[3] == marked[1]);
        assert(reply.subrange(6, 12) =~= zeros(6));
        lemma_name_end_bounds(response, 12, 128);
        assert(question.len() <= response.len() - 12);
    }
}

/// Labels as a message holds them, each behind its length.
pub open spec fn wire_labels(labels: Seq<Seq<u8>>) -> Seq<u8>
    decreases labels.len(),
{
    if labels.len() == 0 {
        Seq::empty()
    } else {
        wire_labels(labels.drop_last()) + seq![labels.last().len() as u8] + labels.last()
    }
}

/// Whether a name of these labels stands at `at`, closed by the root or by a
/// pointer to the rest of it.
pub open spec fn name_stands(message: Seq<u8>, at: int, labels: Seq<Seq<u8>>) -> bool {
    let end = at + wire_labels(labels).len();
    &&& 0 <= at
    &&& end < message.len()
    &&& message.subrange(at, end) == wire_labels(labels)
    &&& message[end] == 0 || message[end] >= 0xc0 && end + 1 < message.len()
    &&& labels.len() < 128
    &&& forall|i: int| 0 <= i < labels.len() ==> 0 < (#[trigger] labels[i]).len() <= 63
}

/// How many octets the end of a name takes.
pub open spec fn closing(octet: u8) -> int {
    if octet == 0 {
        1
    } else {
        2
    }
}

proof fn lemma_wire_first(labels: Seq<Seq<u8>>)
    requires
        labels.len() > 0,
    ensures
        wire_labels(labels) == seq![labels[0].len() as u8] + labels[0] + wire_labels(
            labels.drop_first(),
        ),
    decreases labels.len(),
{
    let rest = labels.drop_first();
    if labels.len() == 1 {
        assert(labels.drop_last() =~= Seq::empty());
        assert(rest =~= Seq::empty());
        assert(wire_labels(labels) =~= seq![labels[0].len() as u8] + labels[0] + wire_labels(rest));
    } else {
        lemma_wire_first(labels.drop_last());
        assert(labels.drop_last().drop_first() =~= rest.drop_last());
        assert(rest.last() == labels.last());
        assert(wire_labels(labels) =~= seq![labels[0].len() as u8] + labels[0] + wire_labels(rest));
    }
}

proof fn lemma_name_stands(message: Seq<u8>, at: int, labels: Seq<Seq<u8>>, most: nat)
    requires
        name_stands(message, at, labels),
        labels.len() < most,
    ensures
        ({
            let end = at + wire_labels(labels).len();
            name_end(message, at, most) == Some(end + closing(message[end]))
        }),
    decreases labels.len(),
{
    let wire = wire_labels(labels);
    let end = at + wire.len();
    if labels.len() > 0 {
        let rest = labels.drop_first();
        let next = at + 1 + labels[0].len();
        lemma_wire_first(labels);
        assert(0 < labels[0].len() <= 63);
        assert(message.subrange(at, end)[0] == message[at]);
        assert(message[at] == labels[0].len());
        assert(message.subrange(next, end) =~= wire_labels(rest)) by {
            assert(wire.skip(next - at) =~= wire_labels(rest));
            assert(message.subrange(next, end) =~= message.subrange(at, end).skip(next - at));
        }
        assert forall|i: int| 0 <= i < rest.len() implies 0 < (#[trigger] rest[i]).len()
            <= 63 by {
            assert(rest[i] == labels[i + 1]);
        }
        lemma_name_stands(message, next, rest, (most - 1) as nat);
    } else {
        assert(wire.len() == 0);
    }
}

/// A well-formed query is forwarded, whatever name, type and class it asks for: it
/// holds exactly one question, and its question is what stands between the header
/// and the end of the class.
pub proof fn law_well_formed_query_is_forwarded(
    message: Seq<u8>,
    labels: Seq<Seq<u8>>,
    outstanding: nat,
)
    requires
        message.len() >= 12,
        message[2] < 0x80,
        message[4] == 0 && message[5] == 1,
        name_stands(message, 12, labels),
        ({
            let end = 12 + wire_labels(labels).len();
            &&& end + closing(message[end as int]) + 4 <= message.len()
            &&& end + closing(message[end as int]) + 4 <= 12 + 512
        }),
        outstanding < 512,
    ensures
        ({
            let end = 12 + wire_labels(labels).len();
            &&& question_of(message) == Some(
                message.subrange(12, end + closing(message[end as int]) + 4),
            )
            &&& local_answer(message, true, outstanding) is None
        }),
{
    lemma_name_stands(message, 12, labels, 128);
}

/// A query is answered at once only where it must be: without a resolver, or with
/// too many outstanding, by a server failure that repeats the question, and one
/// that is malformed by a format error. A response, or a message without a whole
/// header, gets nothing.
pub proof fn law_local_answers(message: Seq<u8>, resolver_available: bool, outstanding: nat)
    ensures
        ({
            let answer = local_answer(message, resolver_available, outstanding);
            &&& message.len() < 12 || message[2] >= 0x80 ==> answer == Some(Seq::<u8>::empty())
            &&& message.len() >= 12 && message[2] < 0x80 ==> {
                &&& question_of(message) is None || question_of(message)->0.len() > 512 ==> {
                    &&& answer is Some
                    &&& answer->0.len() == 12
                    &&& answer->0[3] == 0x81
                    &&& answer->0.take(2) == message.take(2)
                }
                &&& question_of(message) is Some && question_of(message)->0.len() <= 512 && (
                !resolver_available || outstanding >= 512) ==> {
                    &&& answer is Some
                    &&& answer->0[3] == 0x82
                    &&& answer->0.take(2) == message.take(2)
                    &&& answer->0.skip(12) == question_of(message)->0
                }
            }
        }),
{
    if message.len() >= 12 && message[2] < 0x80 {
        let answer = local_answer(message, resolver_available, outstanding);
        if answer is Some {
            let id = be16(message, 0);
            assert(be16_bytes(id) =~= message.take(2));
            let question = match question_of(message) {
                Some(question) if question.len() <= 512 => question,
                _ => Seq::empty(),
            };
            let rcode = if question.len() == 0 {
                1u16
            } else {
                2u16
            };
            if question_of(message) is Some {
                lemma_name_end_bounds(message, 12, 128);
                assert(question_of(message)->0.len() >= 4);
            }
            law_failure_repeats_the_query(id, be16(message, 2), question, rcode);
        }
    }
}

/// A failure repeats the identifier, the recursion bit and the question, is marked
/// as a response, and carries its code and no records.
pub proof fn law_failure_repeats_the_query(
    id: u16,
    query_flags: u16,
    question: Seq<u8>,
    rcode: u16,
)
    requires
        rcode < 16,
    ensures
        ({
            let message = failure_message(id, query_flags, question, rcode);
            &&& message.len() == 12 + question.len()
            &&& message.take(2) == be16_bytes(id)
            &&& message[2] == 0x80 + query_flags / 256 % 2
            &&& message[3] == 0x80 + rcode
            &&& message[4] == 0
            &&& message[5] == if question.len() == 0 {
                0int
            } else {
                1
            }
            &&& forall|i: int| 6 <= i < 12 ==> #[trigger] message[i] == 0
            &&& message.skip(12) == question
        }),
{
    let message = failure_message(id, query_flags, question, rcode);
    let flags = failure_flags(query_flags, rcode);
    assert(flags == 0x8000 + query_flags / 0x100 % 2 * 0x100 + 0x80 + rcode);
    assert(flags / 0x100 == 0x80 + query_flags / 256 % 2);
    assert(flags % 0x100 == 0x80 + rcode);
    assert(message.take(2) =~= be16_bytes(id));
    assert(message[2] == be16_bytes(flags)[0]);
    assert(message[3] == be16_bytes(flags)[1]);
    assert(message.skip(12) =~= question);
}

/// Two questions are the same if their names differ at most in the case of ASCII
/// letters, and their types and classes do not differ.
pub proof fn law_questions_differ_only_in_case(stored: Seq<u8>, received: Seq<u8>)
    ensures
        same_question(stored, received) <==> {
            &&& stored.len() == received.len()
            &&& stored.len() >= 4
            &&& forall|i: int|
                0 <= i < stored.len() ==> {
                    ||| #[trigger] stored[i] == received[i]
                    ||| i < stored.len() - 4 && 65 <= stored[i] <= 90 && received[i] == stored[i]
                        + 32
                    ||| i < stored.len() - 4 && 97 <= stored[i] <= 122 && received[i] == stored[i]
                        - 32
                }
        },
{
    if same_question(stored, received) {
        assert forall|i: int| 0 <= i < stored.len() implies {
            ||| #[trigger] stored[i] == received[i]
            ||| i < stored.len() - 4 && 65 <= stored[i] <= 90 && received[i] == stored[i] + 32
            ||| i < stored.len() - 4 && 97 <= stored[i] <= 122 && received[i] == stored[i] - 32
        } by {
            if i < stored.len() - 4 {
                assert(lower(stored[i]) == lower(received[i]));
            }
        }
    }
}

/// What a forwarded query is remembered by: who asked whom, under which identifier
/// and flags, what, and until when.
pub proof fn law_forwarded_query_is_remembered(
    before: Engine,
    after: Engine,
    upstream_id: u16,
    client: SocketAddress,
    gateway: SocketAddress,
    message: Seq<u8>,
    now: Instant,
)
    requires
        query_forwarded(before, after, upstream_id, client, gateway, message, now),
    ensures
        ({
            let (id, added) = after.entries().last();
            &&& id == upstream_id
            &&& added.client == client
            &&& added.gateway == gateway
            &&& added.original_id == 256 * message[0] + message[1]
            &&& added.query_flags == 256 * message[2] + message[3]
            &&& Some(added.question@) == question_of(message) || question_of(message) is None
            &&& added.deadline == now + before.timeout()
        }),
        forall|i: int|
            0 <= i < before.entries().len() ==> (#[trigger] before.entries()[i]).0 != upstream_id
                && after.entries()[i] == before.entries()[i],
        after.entries().len() == before.entries().len() + 1,
{
    assert forall|i: int| 0 <= i < before.entries().len() implies (
    #[trigger] before.entries()[i]).0 != upstream_id && after.entries()[i]
        == before.entries()[i] by {
        assert(after.entries().drop_last()[i] == after.entries()[i]);
    }
}

/// A response ends the transaction whose identifier it bears and whose question it
/// repeats, and no other; its client gets it under the identifier of its own query.
pub proof fn law_response_ends_its_transaction(
    before: Engine,
    after: Engine,
    message: Seq<u8>,
    frame_limit: usize,
    reply: Reply,
)
    requires
        response_taken(before, after, message, frame_limit, Some(reply)),
    ensures
        message.len() >= 12,
        message[2] >= 0x80,
        exists|at: int|
            {
                &&& 0 <= at < before.entries().len()
                &&& #[trigger] before.entries()[at] == (
                    (256 * message[0] + message[1]) as u16,
                    reply.transaction,
                )
                &&& after.entries() == before.entries().remove(at)
            },
        question_of(message) is Some,
        same_question(reply.transaction.question@, question_of(message)->0),
        reply.payload@.len() >= 2,
        256 * reply.payload@[0] + reply.payload@[1] == reply.transaction.original_id,
        reply.truncated <==> message.len() > reply.transaction.payload_limit || message.len()
            > frame_limit,
        !reply.truncated ==> reply.payload@.skip(2) == message.skip(2),
        reply.truncated ==> reply.payload@.skip(12) == question_of(message)->0,
{
    let at = choose|at: int|
        {
            &&& #[trigger] answers(before.entries(), message, at)
            &&& reply.transaction == before.entries()[at].1
            &&& after.entries() == before.entries().remove(at)
        };
    assert(before.entries()[at] == (be16(message, 0), reply.transaction));
    let id = be16_bytes(reply.transaction.original_id);
    assert(reply.payload@[0] == id[0] && reply.payload@[1] == id[1]);
    if !reply.truncated {
        assert(reply.payload@.skip(2) =~= message.skip(2));
    } else {
        assert(reply.payload@.skip(12) =~= question_of(message)->0);
    }
}

/// A cut response keeps its flags but for the mark that it was cut, and counts one
/// question and no records.
pub proof fn law_cut_response_says_so(message: Seq<u8>, original_id: u16, limit: int)
    requires
        message.len() > limit,
        message.len() >= 12,
        question_of(message) is Some,
    ensures
        ({
            let reply = translated(message, original_id, limit);
            let flags = 256 * message[2] + message[3];
            &&& 256 * reply[2] + reply[3] == if flags / 0x200 % 2 == 1 {
                flags
            } else {
                flags + 0x200
            }
            &&& reply[4] == 0 && reply[5] == 1
            &&& forall|i: int| 6 <= i < 12 ==> #[trigger] reply[i] == 0
        }),
{
    let reply = translated(message, original_id, limit);
    let marked = be16_bytes(truncated_flags(be16(message, 2)));
    assert(reply[2] == marked[0] && reply[3] == marked[1]);
}

/// A transaction is overdue from its deadline on and pending before it, and it is
/// always one or the other.
pub proof fn law_transactions_wait_until_their_deadline(
    entries: Seq<(u16, Transaction)>,
    now: Instant,
    i: int,
)
    requires
        0 <= i < entries.len(),
    ensures
        entries[i].1.deadline <= now ==> overdue(entries, now).contains(entries[i])
            && !pending(entries, now).contains(entries[i]),
        entries[i].1.deadline > now ==> pending(entries, now).contains(entries[i]) && !overdue(
            entries,
            now,
        ).contains(entries[i]),
        pending(entries, now).len() + overdue(entries, now).len() == entries.len(),
{
    let late = |entry: (u16, Transaction)| entry.1.deadline <= now;
    let early = |entry: (u16, Transaction)| entry.1.deadline > now;
    lemma_filter_decides(entries, late, entries[i]);
    lemma_filter_decides(entries, early, entries[i]);
    lemma_filters_split(entries, now);
}

proof fn lemma_filter_decides(
    entries: Seq<(u16, Transaction)>,
    keep: spec_fn((u16, Transaction)) -> bool,
    entry: (u16, Transaction),
)
    requires
        entries.contains(entry),
    ensures
        entries.filter(keep).contains(entry) <==> keep(entry),
    decreases entries.len(),
{
    let i = choose|i: int| 0 <= i < entries.len() && entries[i] == entry;
    if keep(entry) {
        entries.lemma_filter_contains(keep, i);
    } else if entries.filter(keep).contains(entry) {
        let j = choose|j: int|
            0 <= j < entries.filter(keep).len() && entries.filter(keep)[j] == entry;
        entries.lemma_filter_pred(keep, j);
    }
}

proof fn lemma_filters_split(entries: Seq<(u16, Transaction)>, now: Instant)
    ensures
        pending(entries, now).len() + overdue(entries, now).len() == entries.len(),
    decreases entries.len(),
{
    reveal(Seq::filter);
    if entries.len() > 0 {
        lemma_filters_split(entries.drop_last(), now);
    }
}

/// A message has a question only if it counts exactly one, and the question is what
/// follows the header.
pub proof fn law_question_follows_the_header(message: Seq<u8>)
    requires
        message.len() >= 12,
    ensures
        !(message[4] == 0 && message[5] == 1) ==> question_of(message) is None,
        message.len() > 12 && 0x40 <= message[12] < 0xc0 ==> question_of(message) is None,
        match question_of(message) {
            Some(question) => {
                &&& question.len() >= 5
                &&& 12 + question.len() <= message.len()
                &&& question == message.subrange(12, 12int + question.len())
            },
            None => true,
        },
{
    lemma_name_end_bounds(message, 12, 128);
}

/// A withdrawn query is forgotten and its client is told that the server failed,
/// under the identifier that the client used. Other queries stay.
pub proof fn law_withdrawn_query_is_answered(
    before: Engine,
    after: Engine,
    upstream_id: u16,
    failure: Option<(Transaction, Vec<u8>)>,
)
    requires
        query_withdrawn(before, after, upstream_id, failure),
    ensures
        failure is None <==> forall|i: int|
            0 <= i < before.entries().len() ==> (#[trigger] before.entries()[i]).0 != upstream_id,
        failure is None ==> after.entries() == before.entries(),
        failure is Some ==> {
            let (transaction, reply) = failure.unwrap();
            &&& after.entries().len() == before.entries().len() - 1
            &&& 256 * reply@[0] + reply@[1] == transaction.original_id
            &&& reply@[3] % 16 == 2
            &&& before.entries().contains((upstream_id, transaction))
        },
{
    if failure is Some {
        let (transaction, reply) = failure.unwrap();
        law_failure_repeats_the_query(
            transaction.original_id,
            transaction.query_flags,
            transaction.question@,
            2,
        );
        let at = choose|at: int|
            {
                &&& 0 <= at < before.entries().len()
                &&& #[trigger] before.entries()[at] == (upstream_id, transaction)
                &&& after.entries() == before.entries().remove(at)
                &&& reply@ == transaction.servfail()
            };
        assert(before.entries()[at].0 == upstream_id);
    }
}

/// At most 32 of the records behind the question are searched, and all of them
/// if there are fewer.
pub proof fn law_search_is_bounded(message: Seq<u8>)
    ensures
        ({
            let records = 256 * message[6] + message[7] + 256 * message[8] + message[9] + 256
                * message[10] + message[11];
            &&& records <= 32 ==> searched_records(message) == records
            &&& records > 32 ==> searched_records(message) == 32
        }),
{
    crate::bytes::law_octet_orders(message, 6, 0, 0);
    crate::bytes::law_octet_orders(message, 8, 0, 0);
    crate::bytes::law_octet_orders(message, 10, 0, 0);
}

/// Identifiers for the resolver are given out in turn: the next one if it is
/// free, and then counting on from the one that was given, modulo 2^16.
pub proof fn law_identifiers_are_given_out_in_turn(
    before: Engine,
    after: Engine,
    upstream_id: u16,
    client: SocketAddress,
    gateway: SocketAddress,
    message: Seq<u8>,
    now: Instant,
)
    requires
        query_forwarded(before, after, upstream_id, client, gateway, message, now),
    ensures
        (forall|i: int|
            0 <= i < before.entries().len() ==> (#[trigger] before.entries()[i]).0 != before.next())
            ==> upstream_id == before.next(),
        upstream_id < 0xffff ==> after.next() == upstream_id + 1,
        upstream_id == 0xffff ==> after.next() == 0,
{
    let steps = choose|steps: int|
        {
            &&& 0 <= steps < 0x1_0000
            &&& upstream_id == #[trigger] id_after(before.next(), steps)
            &&& forall|k: int|
                0 <= k < steps ==> in_use(
                    before.entries(),
                    #[trigger] id_after(before.next(), k),
                )
        };
    assert(id_after(before.next(), 0) == before.next());
    if steps > 0 {
        assert(in_use(before.entries(), id_after(before.next(), 0)));
    }
}

/// A response that answers no query that waits changes nothing, and a response to
/// one that waits, by its identifier and its question, always ends it.
pub proof fn law_only_stray_responses_are_dropped(
    before: Engine,
    after: Engine,
    message: Seq<u8>,
    frame_limit: usize,
    at: int,
)
    requires
        response_taken(before, after, message, frame_limit, None),
        0 <= at < before.entries().len(),
    ensures
        after.entries() == before.entries(),
        message.len() < 12 || message[2] < 0x80 || before.entries()[at].0 != 256 * message[0]
            + message[1] || question_of(message) is None || !same_question(
            before.entries()[at].1.question@,
            question_of(message)->0,
        ),
{
    crate::bytes::law_octet_orders(message, 0, 0, 0);
    crate::bytes::law_octet_orders(message, 2, 0, 0);
    assert(!answers(before.entries(), message, at));
}

/// The first record of type 41 says how much the client takes, never less than
/// 512 octets; records of other types are passed over by their length, and 512
/// is meant where there is none.
pub proof fn law_client_says_how_much_it_takes(
    message: Seq<u8>,
    offset: int,
    end: int,
    records: nat,
)
    requires
        records > 0,
        0 <= end && end + 10 <= message.len(),
        name_end(message, offset, 128) == Some(end),
    ensures
        ({
            let kind = 256 * message[end] + message[end + 1];
            let size = 256 * message[end + 2] + message[end + 3];
            let next = end + 10 + 256 * message[end + 8] + message[end + 9];
            &&& kind == 41 && size > 512 ==> edns_limit(message, offset, records) == size
            &&& kind == 41 && size <= 512 ==> edns_limit(message, offset, records) == 512
            &&& kind != 41 && next <= message.len() ==> edns_limit(message, offset, records)
                == edns_limit(message, next, (records - 1) as nat)
        }),
        edns_limit(message, offset, 0) == 512,
{
    crate::bytes::law_octet_orders(message, end, 0, 0);
    crate::bytes::law_octet_orders(message, end + 2, 0, 0);
    crate::bytes::law_octet_orders(message, end + 8, 0, 0);
}

} // verus!
