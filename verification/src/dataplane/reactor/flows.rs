//! The TCP flows of the data plane and how they come and go.

use super::entry::FlowEntry;
use super::frame::Error;
use super::ledger::Ledger;
use super::metrics::{Metrics, count, counted};
use super::segment::{payload_sum, retained_payload};
use super::tap::{
    QueuedFrame, TapOutput, commit_tap_send, committed, frames_freed, kept, released_frames,
};
use crate::dataplane::flow_table::{FlowId, FlowTable, MAX_SLOTS, Slot, occupied, reusable, vacated};
use crate::tcp_adapter::flow::{ConstructionState, FlowKey, FlowState, State};
use crate::time::Instant;
use vstd::prelude::*;

verus! {

/// Whether only the value in the place of `id` differs.
pub open spec fn others_kept(
    before: Seq<Slot<FlowEntry>>,
    after: Seq<Slot<FlowEntry>>,
    id: FlowId,
) -> bool {
    &&& after.len() == before.len()
    &&& forall|s: int| 0 <= s < before.len() && s != id.slot ==> #[trigger] after[s] == before[s]
    &&& after[id.slot as int].generation == before[id.slot as int].generation
    &&& after[id.slot as int].retired == before[id.slot as int].retired
}

/// Whether `after` holds every pair of `before` but that of `key`.
pub open spec fn without(
    before: Seq<(FlowKey, FlowId)>,
    after: Seq<(FlowKey, FlowId)>,
    key: FlowKey,
) -> bool {
    forall|pair: (FlowKey, FlowId)| #[trigger]
        after.contains(pair) <==> pair.0 != key && before.contains(pair)
}

pub struct Flows {
    table: FlowTable<FlowEntry>,
    by_key: Vec<(FlowKey, FlowId)>,
    ack_refresh: Vec<FlowId>,
}

impl Flows {
    pub closed spec fn table(&self) -> FlowTable<FlowEntry> {
        self.table
    }

    /// The flows under the endpoints that the namespace sees.
    pub closed spec fn keys(&self) -> Seq<(FlowKey, FlowId)> {
        self.by_key@
    }

    /// The flows whose upstream acknowledgment is read after the current batch
    /// of frames, once each however many segments they had.
    pub closed spec fn awaiting_refresh(&self) -> Seq<FlowId> {
        self.ack_refresh@
    }

    pub open spec fn known(&self, key: FlowKey) -> bool {
        exists|i: int| 0 <= i < self.keys().len() && (#[trigger] self.keys()[i]).0 == key
    }

    /// The table is in order, every flow is, and no key or refresh is there
    /// twice.
    pub open spec fn wf(&self) -> bool {
        &&& self.table().wf()
        &&& forall|s: int|
            0 <= s < self.table().slots().len() && (#[trigger] self.table().slots()[s]).value
                is Some ==> self.table().slots()[s].value.unwrap().wf()
        &&& forall|i: int, j: int|
            0 <= i < j < self.keys().len() ==> (#[trigger] self.keys()[i]).0 != (
            #[trigger] self.keys()[j]).0
        &&& self.awaiting_refresh().no_duplicates()
    }

    #[must_use]
    pub fn new(max_tcp_flows: usize) -> (flows: Flows)
        requires
            max_tcp_flows <= MAX_SLOTS,
        ensures
            flows.wf(),
            flows.keys().len() == 0,
            flows.awaiting_refresh().len() == 0,
            flows.table().slots().len() == max_tcp_flows,
            flows.table().free().len() == max_tcp_flows,
            flows.table().deferred().len() == 0,
    {
        Flows {
            table: FlowTable::with_capacity(max_tcp_flows),
            by_key: Vec::new(),
            ack_refresh: Vec::new(),
        }
    }

    fn position(&self, key: FlowKey) -> (at: Option<usize>)
        ensures
            match at {
                Some(at) => at < self.keys().len() && self.keys()[at as int].0 == key,
                None => !self.known(key),
            },
    {
        let mut i: usize = 0;
        while i < self.by_key.len()
            invariant
                i <= self.by_key@.len(),
                forall|j: int| 0 <= j < i ==> (#[trigger] self.by_key@[j]).0 != key,
            decreases self.by_key@.len() - i,
        {
            if self.by_key[i].0 == key {
                return Some(i);
            }
            i = i + 1;
        }
        None
    }

    /// The flow between these endpoints.
    #[must_use]
    pub fn find(&self, key: FlowKey) -> (id: Option<FlowId>)
        ensures
            match id {
                Some(id) => self.keys().contains((key, id)),
                None => !self.known(key),
            },
    {
        match self.position(key) {
            Some(at) => {
                assert(self.keys()[at as int] == (key, self.keys()[at as int].1));
                Some(self.by_key[at].1)
            },
            None => None,
        }
    }

    #[must_use]
    pub fn get(&self, id: FlowId) -> (entry: Option<&FlowEntry>)
        ensures
            match entry {
                Some(entry) => self.table().lookup(id) == Some(*entry),
                None => self.table().lookup(id) is None,
            },
    {
        self.table.get(id)
    }

    /// The flow, to be changed.
    pub fn get_mut(&mut self, id: FlowId) -> (entry: Option<&mut FlowEntry>)
        requires
            old(self).wf(),
        ensures
            final(self).keys() == old(self).keys(),
            final(self).awaiting_refresh() == old(self).awaiting_refresh(),
            final(self).table().free() == old(self).table().free(),
            final(self).table().deferred() == old(self).table().deferred(),
            final(self).table().wf(),
            match entry {
                Some(value) => {
                    &&& old(self).table().lookup(id) == Some(*value)
                    &&& final(self).table().lookup(id) == Some(*final(value))
                    &&& others_kept(old(self).table().slots(), final(self).table().slots(), id)
                },
                None => {
                    &&& old(self).table().lookup(id) is None
                    &&& final(self).table().slots() == old(self).table().slots()
                },
            },
    {
        self.table.get_mut(id)
    }

    #[must_use]
    pub fn active_ids(&self) -> (ids: Vec<FlowId>)
        requires
            self.wf(),
        ensures
            ids@ == occupied(self.table().slots()),
    {
        self.table.active_ids()
    }

    /// Whether the flow is gone or only waits to be removed.
    pub open spec fn closed(&self, id: FlowId) -> bool {
        match self.table().lookup(id) {
            Some(entry) => entry.closed(),
            None => true,
        }
    }

    #[must_use]
    pub fn flow_is_closed(&self, id: FlowId) -> (closed: bool)
        ensures
            closed == self.closed(id),
    {
        match self.table.get(id) {
            Some(entry) => matches!(entry.flow.state(), State::Closed),
            None => true,
        }
    }

    /// Puts a new flow under its key, or hands it back when there is no place.
    pub fn insert(&mut self, key: FlowKey, entry: FlowEntry, ledger: &mut Ledger) -> (result: Result<
        FlowId,
        FlowEntry,
    >)
        requires
            old(self).wf(),
            old(ledger).wf(),
            entry.wf(),
            !old(self).known(key),
        ensures
            final(self).wf(),
            final(ledger).wf(),
            final(self).awaiting_refresh() == old(self).awaiting_refresh(),
            final(self).table().deferred() == old(self).table().deferred(),
            match result {
                Ok(id) => {
                    &&& old(self).table().free().len() > 0
                    &&& id.slot == old(self).table().free().last()
                    &&& final(self).keys() == old(self).keys().push((key, id))
                    &&& final(self).table().lookup(id) == Some(entry)
                    &&& final(self).table().slots() == old(self).table().slots().update(
                        id.slot as int,
                        (Slot {
                            value: Some(entry),
                            ..old(self).table().slots()[id.slot as int]
                        }),
                    )
                    &&& final(self).table().free() == old(self).table().free().drop_last()
                    &&& *final(ledger) == old(ledger).opened(
                        entry.socket_receive_buffer_bytes,
                        entry.socket_send_buffer_bytes,
                    )
                },
                Err(back) => {
                    &&& old(self).table().free().len() == 0
                    &&& back == entry
                    &&& final(self).keys() == old(self).keys()
                    &&& final(self).table().slots() == old(self).table().slots()
                    &&& final(self).table().free() == old(self).table().free()
                    &&& *final(ledger) == *old(ledger)
                },
            },
    {
        let receive: usize = entry.socket_receive_buffer_bytes;
        let send: usize = entry.socket_send_buffer_bytes;
        let ghost before = *self;
        match self.table.insert(entry) {
            Ok(id) => {
                self.by_key.push((key, id));
                ledger.note_opened(receive, send);
                proof {
                    assert forall|i: int, j: int| 0 <= i < j < self.keys().len() implies (
                    #[trigger] self.keys()[i]).0 != (#[trigger] self.keys()[j]).0 by {
                        assert(self.keys()[i] == before.keys()[i]);
                        if j < before.keys().len() {
                            assert(self.keys()[j] == before.keys()[j]);
                        }
                    }
                    assert forall|s: int|
                        0 <= s < self.table().slots().len() && (
                        #[trigger] self.table().slots()[s]).value
                            is Some implies self.table().slots()[s].value.unwrap().wf() by {
                        if s != id.slot {
                            assert(before.table().slots()[s].value is Some);
                        }
                    }
                }
                Ok(id)
            },
            Err(back) => Err(back),
        }
    }

    /// Ends the handling of a segment: the upstream acknowledgment of the flow
    /// is to be read, and the flow closed if both its streams have ended. Tells
    /// whether to close it.
    pub fn finish_segment(&mut self, id: FlowId) -> (close: bool)
        requires
            old(self).wf(),
        ensures
            final(self).wf(),
            final(self).table() == old(self).table(),
            final(self).keys() == old(self).keys(),
            final(self).awaiting_refresh() == if old(self).awaiting_refresh().contains(id) {
                old(self).awaiting_refresh()
            } else {
                old(self).awaiting_refresh().push(id)
            },
            close == match old(self).table().lookup(id) {
                Some(entry) => entry.flow@.state == State::TimeWait,
                None => false,
            },
    {
        self.queue_ack_refresh(id);
        match self.table.get(id) {
            Some(entry) => matches!(entry.flow.state(), State::TimeWait),
            None => false,
        }
    }

    /// Takes note that a frame was sent: its flow keeps what it carried until it
    /// is acknowledged, and the frame goes back to its pool.
    pub fn commit_sent(&mut self, output: &mut TapOutput, queued: QueuedFrame, now: Instant) -> (
        result: Result<(), Error>)
        requires
            old(self).wf(),
            old(output).wf(),
            old(output).handed_out(&queued.frame),
            queued.flow is Some && queued.plan is Some && old(self).table().lookup(
                queued.flow.unwrap(),
            ) is Some ==> {
                let entry = old(self).table().lookup(queued.flow.unwrap()).unwrap();
                let length = queued.plan.unwrap().length;
                length < 0x7fff_0000 && payload_sum(entry.sent_segments@) + length <= usize::MAX
            },
        ensures
            final(self).wf(),
            final(output).wf(),
            final(self).keys() == old(self).keys(),
            final(self).awaiting_refresh() == old(self).awaiting_refresh(),
            final(self).table().free() == old(self).table().free(),
            final(self).table().deferred() == old(self).table().deferred(),
            final(output).queue() == old(output).queue(),
            final(output).drops() == old(output).drops(),
            match result {
                Ok(()) => final(output).pools().given_back(
                    &old(output).pools(),
                    queued.frame.tier,
                    queued.frame.pool_index,
                ),
                Err(_) => final(output).pools() == old(output).pools(),
            },
            if queued.flow is None || queued.plan is None {
                &&& result is Ok
                &&& final(self).table().slots() == old(self).table().slots()
            } else if old(self).table().lookup(queued.flow.unwrap()) is None {
                &&& result == Err::<(), Error>(Error::Invariant("flow closed before TAP commit"))
                &&& final(self).table().slots() == old(self).table().slots()
            } else {
                let id = queued.flow.unwrap();
                &&& others_kept(old(self).table().slots(), final(self).table().slots(), id)
                &&& final(self).table().lookup(id) is Some
                &&& committed(
                    old(self).table().lookup(id).unwrap(),
                    final(self).table().lookup(id).unwrap(),
                    queued.plan.unwrap(),
                    now,
                    result,
                )
            },
    {
        let ghost before = *self;
        if let Some(id) = queued.flow {
            if let Some(plan) = queued.plan {
                let committed = match self.get_mut(id) {
                    Some(entry) => {
                        assert(before.table().slots()[id.slot as int].value is Some);
                        commit_tap_send(entry, plan, now)
                    },
                    None => Err(Error::Invariant("flow closed before TAP commit")),
                };
                proof {
                    if before.table().lookup(id) is Some {
                        let entry = self.table().slots()[id.slot as int].value.unwrap();
                        law_changed_flow_keeps_order(before, *self, id, entry);
                    }
                }
                committed?;
            }
        }
        output.release(queued.frame);
        Ok(())
    }

    /// Makes a new flow active and counts it.
    pub fn activate(&mut self, id: FlowId, metrics: &mut Metrics) -> (result: Result<(), Error>)
        requires
            old(self).wf(),
        ensures
            final(self).wf(),
            final(self).keys() == old(self).keys(),
            final(self).awaiting_refresh() == old(self).awaiting_refresh(),
            final(self).table().free() == old(self).table().free(),
            final(self).table().deferred() == old(self).table().deferred(),
            ({
                let typed = old(self).table().lookup(id) is Some && old(self).table().lookup(
                    id,
                ).unwrap().construction@.0 == ConstructionState::Typed;
                match result {
                    Ok(()) => {
                        &&& typed
                        &&& final(self).table().lookup(id) is Some
                        &&& final(self).table().lookup(id).unwrap().construction@ == (
                            ConstructionState::Active,
                            old(self).table().lookup(id).unwrap().construction@.1,
                            old(self).table().lookup(id).unwrap().construction@.2,
                        )
                        &&& final(self).table().lookup(id).unwrap() == (FlowEntry {
                            construction: final(self).table().lookup(id).unwrap().construction,
                            ..old(self).table().lookup(id).unwrap()
                        })
                        &&& others_kept(
                            old(self).table().slots(),
                            final(self).table().slots(),
                            id,
                        )
                        &&& *final(metrics) == (Metrics {
                            tcp_created: counted(old(metrics).tcp_created),
                            ..*old(metrics)
                        })
                    },
                    Err(error) => {
                        &&& !typed
                        &&& final(self).table().slots() == old(self).table().slots()
                        &&& error == Error::Invariant("unable to activate TCP flow")
                        &&& *final(metrics) == *old(metrics)
                    },
                }
            }),
    {
        let ghost before = *self;
        let activated = match self.get_mut(id) {
            Some(entry) => match entry.construction.activate() {
                Ok(_) => true,
                Err(_) => false,
            },
            None => false,
        };
        proof {
            if before.table().lookup(id) is Some {
                assert(before.table().slots()[id.slot as int].value is Some);
                let entry = self.table().slots()[id.slot as int].value.unwrap();
                law_changed_flow_keeps_order(before, *self, id, entry);
            }
        }
        if !activated {
            return Err(Error::Invariant("unable to activate TCP flow"));
        }
        metrics.tcp_created = count(metrics.tcp_created);
        Ok(())
    }

    /// Lets the upstream acknowledgment of the flow be read after the current
    /// batch of frames.
    pub fn queue_ack_refresh(&mut self, id: FlowId)
        requires
            old(self).wf(),
        ensures
            final(self).wf(),
            final(self).table() == old(self).table(),
            final(self).keys() == old(self).keys(),
            final(self).awaiting_refresh() == if old(self).awaiting_refresh().contains(id) {
                old(self).awaiting_refresh()
            } else {
                old(self).awaiting_refresh().push(id)
            },
    {
        let mut i: usize = 0;
        while i < self.ack_refresh.len()
            invariant
                *self == *old(self),
                old(self).wf(),
                i <= self.ack_refresh@.len(),
                forall|j: int| 0 <= j < i ==> self.ack_refresh@[j] != id,
            decreases self.ack_refresh@.len() - i,
        {
            if self.ack_refresh[i] == id {
                assert(self.awaiting_refresh()[i as int] == id);
                return;
            }
            i = i + 1;
        }
        let ghost before = *self;
        self.ack_refresh.push(id);
        proof {
            assert(!before.awaiting_refresh().contains(id));
            assert(self.awaiting_refresh() =~= before.awaiting_refresh().push(id));
            assert(self.awaiting_refresh().no_duplicates());
            lemma_same_flows(before, *self);
        }
    }

    /// The next flow whose upstream acknowledgment is to be read.
    pub fn next_ack_refresh(&mut self) -> (id: Option<FlowId>)
        requires
            old(self).wf(),
        ensures
            final(self).wf(),
            final(self).table() == old(self).table(),
            final(self).keys() == old(self).keys(),
            match id {
                Some(id) => {
                    &&& old(self).awaiting_refresh().len() > 0
                    &&& id == old(self).awaiting_refresh().last()
                    &&& final(self).awaiting_refresh() == old(self).awaiting_refresh().drop_last()
                },
                None => {
                    &&& old(self).awaiting_refresh().len() == 0
                    &&& final(self).awaiting_refresh() == old(self).awaiting_refresh()
                },
            },
    {
        let ghost before = *self;
        let next = self.ack_refresh.pop();
        proof {
            if next is Some {
                assert(self.awaiting_refresh() =~= before.awaiting_refresh().drop_last());
            } else {
                assert(self.awaiting_refresh() =~= before.awaiting_refresh());
            }
            lemma_same_flows(before, *self);
        }
        next
    }

    /// Closes a flow: what it held is let go, its key is free again, and it is
    /// removed with the next cleanup. Tells whether there was one.
    pub fn close_flow(
        &mut self,
        id: FlowId,
        ledger: &mut Ledger,
        output: &mut TapOutput,
    ) -> (result: Result<bool, Error>)
        requires
            old(self).wf(),
            old(ledger).wf(),
            old(output).wf(),
        ensures
            final(self).wf(),
            final(ledger).wf(),
            final(output).wf(),
            final(self).awaiting_refresh() == old(self).awaiting_refresh(),
            match result {
                Ok(closed) => {
                    &&& closed == (old(self).table().lookup(id) is Some)
                    &&& !closed ==> {
                        &&& *final(self) == *old(self)
                        &&& *final(ledger) == *old(ledger)
                        &&& *final(output) == *old(output)
                    }
                    &&& closed ==> {
                        let entry = old(self).table().lookup(id).unwrap();
                        &&& entry.construction.sides() is Some
                        &&& final(output).queue() == kept(old(output).queue(), id)
                        &&& final(output).drops() == old(output).drops()
                        &&& frames_freed(
                            old(output).pools(),
                            final(output).pools(),
                            old(output).queue(),
                            id,
                        )
                        &&& !final(output).waits(id)
                        &&& *final(ledger) == released_frames(
                            *old(ledger),
                            old(output).queue(),
                            id,
                        ).closed(
                            entry.pending_socket.waiting().len() as int,
                            payload_sum(entry.sent_segments@) as int,
                            entry.socket_receive_buffer_bytes,
                            entry.socket_send_buffer_bytes,
                            entry.zero_window_probe is Some,
                        )
                        &&& without(
                            old(self).keys(),
                            final(self).keys(),
                            entry.construction.sides().unwrap().key(),
                        )
                        &&& !final(self).known(entry.construction.sides().unwrap().key())
                        &&& forall|other: FlowKey|
                            other != entry.construction.sides().unwrap().key() ==> (
                            #[trigger] final(self).known(other) <==> old(self).known(other))
                        &&& final(self).closed(id)
                        &&& final(self).table().lookup(id) is Some
                        &&& final(self).table().lookup(id).unwrap() == (FlowEntry {
                            flow: final(self).table().lookup(id).unwrap().flow,
                            ..entry
                        })
                        &&& final(self).table().lookup(id).unwrap().flow@ == (FlowState {
                            state: State::Closed,
                            ..entry.flow@
                        })
                        &&& others_kept(
                            old(self).table().slots(),
                            final(self).table().slots(),
                            id,
                        )
                        &&& final(self).table().free() == old(self).table().free()
                        &&& final(self).table().deferred() == if old(self).table().deferred().contains(
                            id,
                        ) {
                            old(self).table().deferred()
                        } else {
                            old(self).table().deferred().push(id)
                        }
                    }
                },
                Err(error) => {
                    &&& old(self).table().lookup(id) is Some
                    &&& old(self).table().lookup(id).unwrap().construction.sides() is None
                    &&& error == Error::Invariant("inactive flow reached cleanup")
                    &&& *final(self) == *old(self)
                    &&& *final(ledger) == *old(ledger)
                    &&& *final(output) == *old(output)
                },
            },
    {
        let ghost before = *self;
        let entry = match self.table.get(id) {
            Some(entry) => entry,
            None => return Ok(false),
        };
        proof {
            assert(before.table().slots()[id.slot as int].value is Some);
        }
        let key = match entry.construction.active_sides() {
            Some(sides) => sides.namespace_key(),
            None => return Err(Error::Invariant("inactive flow reached cleanup")),
        };
        let pending: usize = entry.pending_socket.len();
        let retained: usize = retained_payload(&entry.sent_segments);
        let receive: usize = entry.socket_receive_buffer_bytes;
        let send: usize = entry.socket_send_buffer_bytes;
        let zero_window = entry.zero_window_probe.is_some();
        self.forget(key);
        let ghost forgotten = *self;
        output.drop_flow(ledger, id);
        ledger.note_closed(pending, retained, receive, send, zero_window);
        if let Some(entry) = self.table.get_mut(id) {
            entry.flow.close();
        }
        let ghost closed = *self;
        self.table.defer_remove(id);
        proof {
            let slots = before.table().slots();
            assert(self.table().slots() == closed.table().slots());
            assert forall|s: int|
                0 <= s < self.table().slots().len() && (#[trigger] self.table().slots()[s]).value
                    is Some implies self.table().slots()[s].value.unwrap().wf() by {
                assert(slots[s].value is Some);
                assert(slots[s].value.unwrap().wf());
            }
            assert(self.keys() == forgotten.keys());
            assert(self.known(key) == forgotten.known(key));
            assert forall|other: FlowKey| other != key implies (#[trigger] self.known(other)
                <==> before.known(other)) by {
                assert(self.known(other) == forgotten.known(other));
            }
        }
        Ok(true)
    }

    /// Frees a key.
    fn forget(&mut self, key: FlowKey)
        requires
            old(self).wf(),
        ensures
            final(self).wf(),
            final(self).table() == old(self).table(),
            final(self).awaiting_refresh() == old(self).awaiting_refresh(),
            !final(self).known(key),
            without(old(self).keys(), final(self).keys(), key),
            forall|other: FlowKey|
                other != key ==> (#[trigger] final(self).known(other) <==> old(self).known(
                    other,
                )),
    {
        let ghost before = *self;
        if let Some(at) = self.position(key) {
            self.by_key.remove(at);
            proof {
                let source = |i: int| if i < at { i } else { i + 1 };
                assert forall|i: int| 0 <= i < self.keys().len() implies #[trigger] self.keys()[i]
                    == before.keys()[source(i)] by {}
                assert forall|i: int| 0 <= i < self.keys().len() implies (
                #[trigger] self.keys()[i]).0 != key by {
                    let k = source(i);
                    if k < at {
                        assert(before.keys()[k].0 != before.keys()[at as int].0);
                    } else {
                        assert(before.keys()[at as int].0 != before.keys()[k].0);
                    }
                }
                assert forall|i: int, j: int| 0 <= i < j < self.keys().len() implies (
                #[trigger] self.keys()[i]).0 != (#[trigger] self.keys()[j]).0 by {
                    assert(before.keys()[source(i)].0 != before.keys()[source(j)].0);
                }
                assert forall|other: FlowKey| other != key implies (#[trigger] self.known(other)
                    <==> before.known(other)) by {
                    if before.known(other) {
                        let i = choose|i: int|
                            0 <= i < before.keys().len() && (
                            #[trigger] before.keys()[i]).0 == other;
                        assert(self.keys()[if i < at { i } else { i - 1 }].0 == other);
                    }
                }
                assert forall|pair: (FlowKey, FlowId)| #[trigger]
                    self.keys().contains(pair) <==> pair.0 != key && before.keys().contains(pair) by {
                    if self.keys().contains(pair) {
                        let i = choose|i: int| 0 <= i < self.keys().len() && self.keys()[i] == pair;
                        assert(before.keys()[source(i)] == pair);
                    }
                    if pair.0 != key && before.keys().contains(pair) {
                        let i = choose|i: int|
                            0 <= i < before.keys().len() && before.keys()[i] == pair;
                        assert(self.keys()[if i < at { i } else { i - 1 }] == pair);
                    }
                }
            }
        } else {
            proof {
                assert forall|pair: (FlowKey, FlowId)| #[trigger]
                    self.keys().contains(pair) implies pair.0 != key by {
                    let i = choose|i: int| 0 <= i < self.keys().len() && self.keys()[i] == pair;
                    assert(self.keys()[i].0 != key);
                }
            }
        }
    }

    /// Removes the flows that were closed and counts them.
    pub fn cleanup_closed(&mut self, metrics: &mut Metrics) -> (removed: Vec<FlowEntry>)
        requires
            old(self).wf(),
        ensures
            final(self).wf(),
            final(self).keys() == old(self).keys(),
            final(self).awaiting_refresh() == old(self).awaiting_refresh(),
            final(self).table().deferred().len() == 0,
            final(self).table().slots().len() == old(self).table().slots().len(),
            forall|s: int|
                0 <= s < old(self).table().slots().len() ==> #[trigger] final(self).table().slots()[s]
                    == if old(self).table().leaves(s) {
                    vacated(old(self).table().slots()[s])
                } else {
                    old(self).table().slots()[s]
                },
            final(self).table().free() == old(self).table().free() + reusable(
                old(self).table().deferred(),
            ),
            removed@.len() == old(self).table().deferred().len(),
            forall|i: int|
                0 <= i < removed@.len() ==> Some(#[trigger] removed@[i])
                    == old(self).table().lookup(old(self).table().deferred()[i]),
            *final(metrics) == (Metrics {
                tcp_closed: ((old(metrics).tcp_closed + removed@.len())
                    % 0x1_0000_0000_0000_0000) as u64,
                ..*old(metrics)
            }),
    {
        let ghost before = *self;
        let removed = self.table.flush_deferred();
        let total: usize = removed.len();
        metrics.tcp_closed = metrics.tcp_closed.wrapping_add(total as u64);
        proof {
            assert forall|s: int|
                0 <= s < self.table().slots().len() && (#[trigger] self.table().slots()[s]).value
                    is Some implies self.table().slots()[s].value.unwrap().wf() by {
                if before.table().leaves(s) {
                    assert(self.table().slots()[s] == vacated(before.table().slots()[s]));
                } else {
                    assert(self.table().slots()[s] == before.table().slots()[s]);
                    assert(before.table().slots()[s].value is Some);
                }
            }
            assert(self.keys() == before.keys());
            assert(self.awaiting_refresh() == before.awaiting_refresh());
        }
        removed
    }
}

proof fn lemma_same_flows(before: Flows, after: Flows)
    requires
        before.wf(),
        after.table() == before.table(),
        after.keys() == before.keys(),
        after.awaiting_refresh().no_duplicates(),
    ensures
        after.wf(),
{
    assert forall|s: int|
        0 <= s < after.table().slots().len() && (#[trigger] after.table().slots()[s]).value
            is Some implies after.table().slots()[s].value.unwrap().wf() by {
        assert(before.table().slots()[s].value is Some);
    }
    assert forall|i: int, j: int| 0 <= i < j < after.keys().len() implies (
    #[trigger] after.keys()[i]).0 != (#[trigger] after.keys()[j]).0 by {
        assert(before.keys()[i].0 != before.keys()[j].0);
    }
}

/// The flows stay in order when one of them is changed and stays in order
/// itself.
pub proof fn law_changed_flow_keeps_order(before: Flows, after: Flows, id: FlowId, entry: FlowEntry)
    requires
        before.wf(),
        before.table().lookup(id) is Some,
        entry.wf(),
        after.table().wf(),
        after.keys() == before.keys(),
        after.awaiting_refresh() == before.awaiting_refresh(),
        after.table().lookup(id) == Some(entry),
        others_kept(before.table().slots(), after.table().slots(), id),
    ensures
        after.wf(),
{
    assert forall|s: int|
        0 <= s < after.table().slots().len() && (#[trigger] after.table().slots()[s]).value
            is Some implies after.table().slots()[s].value.unwrap().wf() by {
        if s != id.slot {
            assert(before.table().slots()[s].value is Some);
        }
    }
    assert forall|i: int, j: int| 0 <= i < j < after.keys().len() implies (
    #[trigger] after.keys()[i]).0 != (#[trigger] after.keys()[j]).0 by {
        assert(before.keys()[i].0 != before.keys()[j].0);
    }
}

} // verus!
