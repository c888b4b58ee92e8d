//! The UDP flow engine: which namespace datagrams belong to which flow and
//! which association, and when a flow is over.

use super::flow_table::{FlowId, FlowTable, MAX_SLOTS, Slot, occupied, reusable, vacated};
use crate::net::SocketAddress;
use crate::time::{Duration, Instant};
use vstd::prelude::*;

verus! {

pub const DNS_TIMEOUT: Duration = 15_000_000_000;
pub const ONE_SHOT_TIMEOUT: Duration = 30_000_000_000;
pub const STREAM_TIMEOUT: Duration = 120_000_000_000;

#[derive(Clone, Copy, Debug, Eq, Hash)]
pub struct AssociationKey {
    pub source: SocketAddress,
}

impl PartialEq for AssociationKey {
    fn eq(&self, other: &Self) -> (same: bool) {
        self.source == other.source
    }
}

impl vstd::std_specs::cmp::PartialEqSpecImpl for AssociationKey {
    open spec fn obeys_eq_spec() -> bool {
        true
    }

    open spec fn eq_spec(&self, other: &Self) -> bool {
        *self == *other
    }
}

#[derive(Clone, Copy, Debug, Eq, Hash)]
pub struct FlowKey {
    pub source: SocketAddress,
    pub target: SocketAddress,
}

impl PartialEq for FlowKey {
    fn eq(&self, other: &Self) -> (same: bool) {
        self.source == other.source && self.target == other.target
    }
}

impl vstd::std_specs::cmp::PartialEqSpecImpl for FlowKey {
    open spec fn obeys_eq_spec() -> bool {
        true
    }

    open spec fn eq_spec(&self, other: &Self) -> bool {
        *self == *other
    }
}

impl FlowKey {
    /// The association that the flow belongs to: one per source.
    pub open spec fn group(self) -> AssociationKey {
        AssociationKey { source: self.source }
    }

    #[must_use]
    pub fn association(self) -> (key: AssociationKey)
        ensures
            key == self.group(),
    {
        AssociationKey { source: self.source }
    }
}

#[derive(Clone, Copy, Debug, PartialEq, Eq, Structural)]
pub enum TimeoutClass {
    Dns,
    OneShot,
    Stream,
}

impl TimeoutClass {
    pub open spec fn span(self) -> Duration {
        match self {
            TimeoutClass::Dns => DNS_TIMEOUT,
            TimeoutClass::OneShot => ONE_SHOT_TIMEOUT,
            TimeoutClass::Stream => STREAM_TIMEOUT,
        }
    }

    #[must_use]
    pub fn duration(self) -> (duration: Duration)
        ensures
            duration == self.span(),
    {
        match self {
            TimeoutClass::Dns => DNS_TIMEOUT,
            TimeoutClass::OneShot => ONE_SHOT_TIMEOUT,
            TimeoutClass::Stream => STREAM_TIMEOUT,
        }
    }
}

#[derive(Clone, Copy, Debug)]
pub struct Flow {
    pub key: FlowKey,
    pub last_activity: Instant,
    pub outbound_datagrams: u8,
    pub inbound_datagrams: u8,
}

/// A datagram count after one more; it stops at its largest value.
pub open spec fn counted(datagrams: u8) -> u8 {
    if datagrams < u8::MAX {
        (datagrams + 1) as u8
    } else {
        u8::MAX
    }
}

impl Flow {
    /// Port 53 is DNS; traffic that went both ways more than once is a stream.
    pub open spec fn class(self) -> TimeoutClass {
        if self.key.target.port == 53 {
            TimeoutClass::Dns
        } else if self.outbound_datagrams > 1 && self.inbound_datagrams > 1 {
            TimeoutClass::Stream
        } else {
            TimeoutClass::OneShot
        }
    }

    pub open spec fn end(self) -> int {
        self.last_activity + self.class().span()
    }

    pub open spec fn sent(self, now: Instant) -> Flow {
        Flow {
            last_activity: now,
            outbound_datagrams: counted(self.outbound_datagrams),
            ..self
        }
    }

    pub open spec fn heard(self, now: Instant) -> Flow {
        Flow { last_activity: now, inbound_datagrams: counted(self.inbound_datagrams), ..self }
    }

    #[must_use]
    pub fn timeout_class(self) -> (class: TimeoutClass)
        ensures
            class == self.class(),
    {
        if self.key.target.port == 53 {
            TimeoutClass::Dns
        } else if self.outbound_datagrams > 1 && self.inbound_datagrams > 1 {
            TimeoutClass::Stream
        } else {
            TimeoutClass::OneShot
        }
    }

    #[must_use]
    pub fn expires_at(self) -> (at: Instant)
        requires
            self.end() <= u64::MAX,
        ensures
            at == self.end(),
    {
        self.last_activity + self.timeout_class().duration()
    }
}

#[derive(Clone, Copy, Debug, PartialEq, Eq, Structural)]
pub struct Accept {
    pub id: FlowId,
    pub created: bool,
    pub association_created: bool,
}

#[derive(Clone, Copy, Debug, PartialEq, Eq, Structural)]
pub enum AcceptError {
    FamilyMismatch,
    FlowLimit,
    AssociationLimit,
}

/// How many of the entries belong to the association.
pub open spec fn members(entries: Seq<(FlowKey, FlowId)>, group: AssociationKey) -> nat
    decreases entries.len(),
{
    if entries.len() == 0 {
        0
    } else {
        members(entries.drop_last(), group) + (if entries.last().0.group() == group {
            1nat
        } else {
            0
        })
    }
}

/// Whether two addresses are of the same family.
pub open spec fn same_family(a: SocketAddress, b: SocketAddress) -> bool {
    (a.ip is V4) == (b.ip is V4)
}

/// The entry of the flow in place `s`.
pub open spec fn entry_of(slots: Seq<Slot<Flow>>, s: int) -> (FlowKey, FlowId) {
    (slots[s].value.unwrap().key, FlowId { slot: s as u32, generation: slots[s].generation })
}

/// Whether the flow in this place has reached its end at `now`.
pub open spec fn place_over(slot: Slot<Flow>, now: Instant) -> bool {
    slot.value is Some && slot.value.unwrap().end() <= now
}

/// Whether `id` stands for a flow that has reached its end at `now`.
pub open spec fn over(table: FlowTable<Flow>, id: FlowId, now: Instant) -> bool {
    table.lookup(id) is Some && table.lookup(id).unwrap().end() <= now
}

pub struct Engine {
    flows: FlowTable<Flow>,
    by_key: Vec<(FlowKey, FlowId)>,
    associations: Vec<(AssociationKey, usize)>,
    max_flows: usize,
    max_associations: usize,
}

impl Engine {
    pub closed spec fn table(&self) -> FlowTable<Flow> {
        self.flows
    }

    /// The live flows under their keys, the oldest first.
    pub closed spec fn entries(&self) -> Seq<(FlowKey, FlowId)> {
        self.by_key@
    }

    /// The associations in use, each with its number of flows.
    pub closed spec fn groups(&self) -> Seq<(AssociationKey, usize)> {
        self.associations@
    }

    pub closed spec fn flow_limit(&self) -> usize {
        self.max_flows
    }

    pub closed spec fn association_limit(&self) -> usize {
        self.max_associations
    }

    pub open spec fn known(&self, key: FlowKey) -> bool {
        exists|i: int| 0 <= i < self.entries().len() && (#[trigger] self.entries()[i]).0 == key
    }

    pub open spec fn has_group(&self, group: AssociationKey) -> bool {
        exists|i: int| 0 <= i < self.groups().len() && (#[trigger] self.groups()[i]).0 == group
    }

    /// Keys, identifiers and associations are distinct; the entries are exactly
    /// the flows in the table; every association has its flows counted, at
    /// least one; and the limits are kept.
    pub open spec fn wf(&self) -> bool {
        &&& self.table().wf()
        &&& self.table().deferred().len() == 0
        &&& self.entries().len() <= self.flow_limit()
        &&& self.groups().len() <= self.association_limit()
        &&& forall|i: int, j: int|
            0 <= i < j < self.entries().len() ==> (#[trigger] self.entries()[i]).0 != (
            #[trigger] self.entries()[j]).0 && self.entries()[i].1 != self.entries()[j].1
        &&& forall|i: int|
            0 <= i < self.entries().len() ==> {
                &&& self.table().lookup((#[trigger] self.entries()[i]).1) is Some
                &&& self.table().lookup(self.entries()[i].1).unwrap().key == self.entries()[i].0
                &&& self.has_group(self.entries()[i].0.group())
            }
        &&& forall|s: int|
            0 <= s < self.table().slots().len() && (#[trigger] self.table().slots()[s]).value
                is Some ==> self.entries().contains(entry_of(self.table().slots(), s))
        &&& forall|i: int, j: int|
            0 <= i < j < self.groups().len() ==> (#[trigger] self.groups()[i]).0 != (
            #[trigger] self.groups()[j]).0
        &&& forall|i: int|
            0 <= i < self.groups().len() ==> {
                &&& (#[trigger] self.groups()[i]).1 == members(self.entries(), self.groups()[i].0)
                &&& self.groups()[i].1 > 0
            }
    }

    /// Why a datagram with this key is refused, if it is.
    pub open spec fn refusal(&self, key: FlowKey) -> Option<AcceptError> {
        if !same_family(key.source, key.target) {
            Some(AcceptError::FamilyMismatch)
        } else if self.known(key) {
            None
        } else if self.entries().len() >= self.flow_limit() {
            Some(AcceptError::FlowLimit)
        } else if !self.has_group(key.group()) && self.groups().len() >= self.association_limit() {
            Some(AcceptError::AssociationLimit)
        } else if self.table().free().len() == 0 {
            Some(AcceptError::FlowLimit)
        } else {
            None
        }
    }

    /// Whether the engine holds the same flows, entries, associations and
    /// limits as `other`.
    pub open spec fn same_as(&self, other: &Engine) -> bool {
        &&& self.table().slots() == other.table().slots()
        &&& self.table().free() == other.table().free()
        &&& self.table().deferred() == other.table().deferred()
        &&& self.entries() == other.entries()
        &&& self.groups() == other.groups()
        &&& self.flow_limit() == other.flow_limit()
        &&& self.association_limit() == other.association_limit()
    }

    /// The engine without the flow `id`: its place is vacated, its entry gone,
    /// and its association too if this was its last flow.
    pub open spec fn removed(&self, before: &Engine, id: FlowId) -> bool {
        &&& self.table().slots() == before.table().slots().update(
            id.slot as int,
            vacated(before.table().slots()[id.slot as int]),
        )
        &&& self.table().free() == before.table().free() + reusable(seq![id])
        &&& self.table().deferred() == before.table().deferred()
        &&& exists|at: int|
            {
                &&& 0 <= at < before.entries().len()
                &&& (#[trigger] before.entries()[at]).1 == id
                &&& self.entries() == before.entries().remove(at)
            }
        &&& self.groups().len() == before.groups().len() - (if members(
            before.entries(),
            before.table().lookup(id).unwrap().key.group(),
        ) == 1 {
            1int
        } else {
            0
        })
        &&& self.flow_limit() == before.flow_limit()
        &&& self.association_limit() == before.association_limit()
    }

    /// The engine with another value for the flow `id`.
    pub open spec fn touched(&self, before: &Engine, id: FlowId, flow: Flow) -> bool {
        &&& self.table().slots() == before.table().slots().update(
            id.slot as int,
            (Slot { value: Some(flow), ..before.table().slots()[id.slot as int] }),
        )
        &&& self.table().free() == before.table().free()
        &&& self.table().deferred() == before.table().deferred()
        &&& self.entries() == before.entries()
        &&& self.groups() == before.groups()
        &&& self.flow_limit() == before.flow_limit()
        &&& self.association_limit() == before.association_limit()
    }

    #[must_use]
    pub fn new(max_flows: usize, max_associations: usize) -> (engine: Engine)
        requires
            max_flows <= MAX_SLOTS,
        ensures
            engine.wf(),
            engine.entries().len() == 0,
            engine.groups().len() == 0,
            engine.flow_limit() == max_flows,
            engine.association_limit() == max_associations,
            engine.table().slots().len() == max_flows,
            engine.table().free().len() == max_flows,
    {
        Engine {
            flows: FlowTable::with_capacity(max_flows),
            by_key: Vec::new(),
            associations: Vec::new(),
            max_flows,
            max_associations,
        }
    }

    fn position(&self, key: FlowKey) -> (at: Option<usize>)
        ensures
            match at {
                Some(at) => at < self.entries().len() && self.entries()[at as int].0 == key,
                None => !self.known(key),
            },
    {
        let mut i: usize = 0;
        while i < self.by_key.len()
            invariant
                i <= self.by_key@.len(),
                forall|j: int| 0 <= j < i ==> (#[trigger] self.by_key@[j]).0 != key,
            decreases self.by_key@.len() - i,
        {
            if self.by_key[i].0 == key {
                return Some(i);
            }
            i = i + 1;
        }
        None
    }

    fn group_position(&self, group: AssociationKey) -> (at: Option<usize>)
        ensures
            match at {
                Some(at) => at < self.groups().len() && self.groups()[at as int].0 == group,
                None => !self.has_group(group),
            },
    {
        let mut i: usize = 0;
        while i < self.associations.len()
            invariant
                i <= self.associations@.len(),
                forall|j: int| 0 <= j < i ==> (#[trigger] self.associations@[j]).0 != group,
            decreases self.associations@.len() - i,
        {
            if self.associations[i].0 == group {
                return Some(i);
            }
            i = i + 1;
        }
        None
    }

    /// Finds or makes the flow of a datagram from the namespace.
    pub fn accept(&mut self, key: FlowKey, now: Instant) -> (result: Result<Accept, AcceptError>)
        requires
            old(self).wf(),
        ensures
            final(self).wf(),
            match result {
                Err(error) => {
                    &&& old(self).refusal(key) == Some(error)
                    &&& final(self).same_as(old(self))
                },
                Ok(accept) => {
                    &&& old(self).refusal(key) is None
                    &&& accept.created == !old(self).known(key)
                    &&& accept.association_created == !(old(self).known(key)
                        || old(self).has_group(key.group()))
                    &&& !accept.created ==> {
                        &&& old(self).entries().contains((key, accept.id))
                        &&& final(self).touched(
                            old(self),
                            accept.id,
                            old(self).table().lookup(accept.id).unwrap().sent(now),
                        )
                    }
                    &&& accept.created ==> {
                        &&& accept.id.slot == old(self).table().free().last()
                        &&& accept.id.generation
                            == old(self).table().slots()[accept.id.slot as int].generation
                        &&& final(self).table().slots() == old(self).table().slots().update(
                            accept.id.slot as int,
                            (Slot {
                                value: Some(
                                    Flow {
                                        key,
                                        last_activity: now,
                                        outbound_datagrams: 1,
                                        inbound_datagrams: 0,
                                    },
                                ),
                                ..old(self).table().slots()[accept.id.slot as int]
                            }),
                        )
                        &&& final(self).table().free() == old(self).table().free().drop_last()
                        &&& final(self).entries() == old(self).entries().push((key, accept.id))
                        &&& final(self).groups().len() == old(self).groups().len() + (
                        if accept.association_created {
                            1int
                        } else {
                            0
                        })
                        &&& final(self).flow_limit() == old(self).flow_limit()
                        &&& final(self).association_limit() == old(self).association_limit()
                    }
                },
            },
    {
        if key.source.is_ipv4() != key.target.is_ipv4() {
            return Err(AcceptError::FamilyMismatch);
        }
        if let Some(at) = self.position(key) {
            let id = self.by_key[at].1;
            assert(self.entries()[at as int] == (key, id));
            self.record_outbound(id, now);
            return Ok(Accept { id, created: false, association_created: false });
        }
        if self.by_key.len() >= self.max_flows {
            return Err(AcceptError::FlowLimit);
        }
        let group = key.association();
        let found = self.group_position(group);
        if found.is_none() && self.associations.len() >= self.max_associations {
            return Err(AcceptError::AssociationLimit);
        }
        let ghost before = *self;
        let flow = Flow { key, last_activity: now, outbound_datagrams: 1, inbound_datagrams: 0 };
        let id = match self.flows.insert(flow) {
            Ok(id) => id,
            Err(_) => return Err(AcceptError::FlowLimit),
        };
        self.by_key.push((key, id));
        proof {
            lemma_members_push(before.entries(), (key, id));
        }
        match found {
            Some(at) => {
                let count: usize = self.associations[at].1;
                proof {
                    lemma_members_bound(before.entries(), group);
                }
                self.associations.set(at, (group, count + 1));
            },
            None => {
                proof {
                    lemma_no_group_no_members(before, group);
                }
                self.associations.push((group, 1));
            },
        }
        proof {
            lemma_accept_keeps_order(before, *self, key, id, flow);
        }
        Ok(Accept { id, created: true, association_created: found.is_none() })
    }

    /// Notes a datagram to the target.
    pub fn record_outbound(&mut self, id: FlowId, now: Instant)
        requires
            old(self).wf(),
        ensures
            final(self).wf(),
            match old(self).table().lookup(id) {
                Some(flow) => final(self).touched(old(self), id, flow.sent(now)),
                None => final(self).same_as(old(self)),
            },
    {
        let ghost before = *self;
        if let Some(flow) = self.flows.get_mut(id) {
            flow.last_activity = now;
            flow.outbound_datagrams = flow.outbound_datagrams.saturating_add(1);
        }
        proof {
            if before.table().lookup(id) is Some {
                lemma_touch_keeps_order(
                    before,
                    *self,
                    id,
                    before.table().lookup(id).unwrap().sent(now),
                );
            }
        }
    }

    /// Notes a datagram from the target.
    pub fn record_inbound(&mut self, id: FlowId, now: Instant)
        requires
            old(self).wf(),
        ensures
            final(self).wf(),
            match old(self).table().lookup(id) {
                Some(flow) => final(self).touched(old(self), id, flow.heard(now)),
                None => final(self).same_as(old(self)),
            },
    {
        let ghost before = *self;
        if let Some(flow) = self.flows.get_mut(id) {
            flow.last_activity = now;
            flow.inbound_datagrams = flow.inbound_datagrams.saturating_add(1);
        }
        proof {
            if before.table().lookup(id) is Some {
                lemma_touch_keeps_order(
                    before,
                    *self,
                    id,
                    before.table().lookup(id).unwrap().heard(now),
                );
            }
        }
    }

    #[must_use]
    pub fn flow(&self, id: FlowId) -> (flow: Option<Flow>)
        ensures
            flow == self.table().lookup(id),
    {
        match self.flows.get(id) {
            Some(flow) => Some(*flow),
            None => None,
        }
    }

    #[must_use]
    pub fn active_ids(&self) -> (ids: Vec<FlowId>)
        requires
            self.wf(),
        ensures
            ids@ == occupied(self.table().slots()),
    {
        self.flows.active_ids()
    }

    #[must_use]
    pub fn active_flows(&self) -> (count: usize)
        ensures
            count == self.entries().len(),
    {
        self.by_key.len()
    }

    #[must_use]
    pub fn active_associations(&self) -> (count: usize)
        ensures
            count == self.groups().len(),
    {
        self.associations.len()
    }

    /// Ends a flow at once. Its association goes with its last flow.
    pub fn remove(&mut self, id: FlowId) -> (removed: bool)
        requires
            old(self).wf(),
        ensures
            final(self).wf(),
            removed == (old(self).table().lookup(id) is Some),
            removed ==> final(self).removed(old(self), id),
            !removed ==> final(self).same_as(old(self)),
    {
        let flow = match self.flow(id) {
            Some(flow) => flow,
            None => return false,
        };
        let ghost before = *self;
        let group = flow.key.association();
        assert(before.table().slots()[id.slot as int].value is Some);
        proof {
            let entry = entry_of(before.table().slots(), id.slot as int);
            assert(before.entries().contains(entry));
            let at = choose|at: int|
                0 <= at < before.entries().len() && before.entries()[at] == entry;
            assert(before.entries()[at].0 == flow.key);
            assert(before.known(flow.key));
            assert(before.has_group(before.entries()[at].0.group()));
        }
        if let Some(at) = self.position(flow.key) {
            proof {
                lemma_entry_of(before, id, at as int);
            }
            self.by_key.remove(at);
            proof {
                lemma_members_remove(before.entries(), at as int);
            }
        }
        if let Some(at) = self.group_position(group) {
            let count: usize = self.associations[at].1;
            assert(before.groups()[at as int].1 == count);
            if count == 1 {
                self.associations.remove(at);
            } else {
                self.associations.set(at, (group, count - 1));
            }
        }
        self.flows.defer_remove(id);
        assert(self.flows.deferred() =~= seq![id]);
        let ghost held = self.flows;
        let _ = self.flows.flush_deferred();
        proof {
            assert(held.deferred()[0] == id);
            lemma_reusable_one(id);
            assert(self.table().slots() =~= before.table().slots().update(
                id.slot as int,
                vacated(before.table().slots()[id.slot as int]),
            ));
            assert(self.table().deferred() =~= before.table().deferred());
            lemma_remove_keeps_order(before, *self, id);
        }
        true
    }

    /// Ends every flow whose time is over at `now` and tells which, in the order
    /// of their places.
    pub fn expire(&mut self, now: Instant) -> (expired: Vec<FlowId>)
        requires
            old(self).wf(),
            forall|s: int|
                0 <= s < old(self).table().slots().len() && (
                #[trigger] old(self).table().slots()[s]).value is Some
                    ==> old(self).table().slots()[s].value.unwrap().end() <= u64::MAX,
        ensures
            final(self).wf(),
            expired@ == occupied(old(self).table().slots()).filter(
                |id: FlowId| over(old(self).table(), id, now),
            ),
            final(self).table().slots().len() == old(self).table().slots().len(),
            forall|s: int|
                0 <= s < old(self).table().slots().len()
                    ==> #[trigger] final(self).table().slots()[s]
                    == if place_over(old(self).table().slots()[s], now) {
                    vacated(old(self).table().slots()[s])
                } else {
                    old(self).table().slots()[s]
                },
            final(self).table().free() == old(self).table().free() + reusable(expired@),
            final(self).flow_limit() == old(self).flow_limit(),
            final(self).association_limit() == old(self).association_limit(),
    {
        let ghost before = *self;
        let ghost due = |id: FlowId| over(before.table(), id, now);
        let ids = self.flows.active_ids();
        let mut expired: Vec<FlowId> = Vec::new();
        let mut i: usize = 0;
        proof {
            lemma_occupied(before.table().slots());
            assert(ids@.take(0) =~= Seq::empty());
            reveal(Seq::filter);
        }
        while i < ids.len()
            invariant
                *self == before,
                before.wf(),
                due == (|id: FlowId| over(before.table(), id, now)),
                ids@ == occupied(before.table().slots()),
                occupied_properly(before.table().slots(), ids@),
                forall|s: int|
                    0 <= s < before.table().slots().len() && (
                    #[trigger] before.table().slots()[s]).value is Some
                        ==> before.table().slots()[s].value.unwrap().end() <= u64::MAX,
                i <= ids@.len(),
                expired@ == ids@.take(i as int).filter(due),
                forall|j: int|
                    0 <= j < expired@.len() ==> {
                        &&& over(before.table(), #[trigger] expired@[j], now)
                        &&& i > 0
                        &&& expired@[j].slot <= ids@[i - 1].slot
                    },
                forall|j: int, k: int|
                    0 <= j < k < expired@.len() ==> (#[trigger] expired@[j]).slot < (
                    #[trigger] expired@[k]).slot,
                forall|m: int|
                    0 <= m < i && over(before.table(), #[trigger] ids@[m], now)
                        ==> expired@.contains(ids@[m]),
            decreases ids@.len() - i,
        {
            let id = ids[i];
            let ghost held = expired@;
            proof {
                reveal(Seq::filter);
                assert(ids@.take(i + 1).drop_last() =~= ids@.take(i as int));
                assert(before.table().slots()[ids@[i as int].slot as int].value is Some);
            }
            if let Some(flow) = self.flow(id) {
                if flow.expires_at() <= now {
                    expired.push(id);
                    assert(expired@[held.len() as int] == id);
                }
            }
            assert forall|m: int|
                0 <= m < i + 1 && over(
                    before.table(),
                    #[trigger] ids@[m],
                    now,
                ) implies expired@.contains(ids@[m]) by {
                if m < i {
                    let j = choose|j: int| 0 <= j < held.len() && held[j] == ids@[m];
                    assert(expired@[j] == ids@[m]);
                }
            }
            i = i + 1;
        }
        assert(ids@.take(i as int) =~= ids@);
        let mut n: usize = 0;
        assert(expired@.take(0) =~= Seq::empty());
        assert(before.table().free() + reusable(expired@.take(0)) =~= before.table().free());
        while n < expired.len()
            invariant
                self.wf(),
                before.wf(),
                n <= expired@.len(),
                self.table().slots().len() == before.table().slots().len(),
                forall|j: int|
                    0 <= j < expired@.len() ==> over(before.table(), #[trigger] expired@[j], now),
                forall|j: int, k: int|
                    0 <= j < k < expired@.len() ==> (#[trigger] expired@[j]).slot < (
                    #[trigger] expired@[k]).slot,
                forall|s: int|
                    0 <= s < before.table().slots().len()
                        ==> #[trigger] self.table().slots()[s] == if exists|j: int|
                        0 <= j < n && (#[trigger] expired@[j]).slot == s {
                        vacated(before.table().slots()[s])
                    } else {
                        before.table().slots()[s]
                    },
                self.table().free() == before.table().free() + reusable(expired@.take(n as int)),
                self.flow_limit() == before.flow_limit(),
                self.association_limit() == before.association_limit(),
            decreases expired@.len() - n,
        {
            let id = expired[n];
            let ghost held = *self;
            assert(over(before.table(), expired@[n as int], now));
            assert(held.table().slots()[id.slot as int] == before.table().slots()[id.slot as int]);
            let _ = self.remove(id);
            proof {
                assert(expired@.take(n + 1).drop_last() =~= expired@.take(n as int));
                lemma_reusable_one(id);
                assert(expired@.take(n + 1).last() == id);
                assert(self.table().free() =~= before.table().free() + reusable(
                    expired@.take(n + 1),
                ));
                assert forall|s: int|
                    0 <= s < before.table().slots().len() implies #[trigger] self.table().slots()[s]
                    == if exists|j: int| 0 <= j < n + 1 && (#[trigger] expired@[j]).slot == s {
                    vacated(before.table().slots()[s])
                } else {
                    before.table().slots()[s]
                } by {
                    if s == id.slot {
                        assert(expired@[n as int].slot == s);
                    } else if exists|j: int| 0 <= j < n + 1 && (#[trigger] expired@[j]).slot == s {
                        let j = choose|j: int| 0 <= j < n + 1 && (#[trigger] expired@[j]).slot == s;
                        assert(j < n);
                    }
                }
            }
            n = n + 1;
        }
        assert(expired@.take(n as int) =~= expired@);
        assert forall|s: int| 0 <= s < before.table().slots().len() implies place_over(
            before.table().slots()[s],
            now,
        ) == exists|j: int| 0 <= j < n && (#[trigger] expired@[j]).slot == s by {
            let slot = before.table().slots()[s];
            if place_over(slot, now) {
                let id = FlowId { slot: s as u32, generation: slot.generation };
                assert(slot.value is Some);
                assert(ids@.contains(id));
                let m = choose|m: int| 0 <= m < ids@.len() && ids@[m] == id;
                assert(over(before.table(), ids@[m], now));
                assert(expired@.contains(id));
            }
        }
        expired
    }
}

proof fn lemma_members_push(entries: Seq<(FlowKey, FlowId)>, entry: (FlowKey, FlowId))
    ensures
        forall|group: AssociationKey|
            #[trigger] members(entries.push(entry), group) == members(entries, group) + (
            if entry.0.group() == group {
                1int
            } else {
                0
            }),
{
    assert(entries.push(entry).drop_last() =~= entries);
}

proof fn lemma_members_bound(entries: Seq<(FlowKey, FlowId)>, group: AssociationKey)
    ensures
        members(entries, group) <= entries.len(),
    decreases entries.len(),
{
    if entries.len() > 0 {
        lemma_members_bound(entries.drop_last(), group);
    }
}

/// An entry of the association is counted.
proof fn lemma_member_counts(entries: Seq<(FlowKey, FlowId)>, i: int)
    requires
        0 <= i < entries.len(),
    ensures
        members(entries, entries[i].0.group()) > 0,
    decreases entries.len(),
{
    if i < entries.len() - 1 {
        lemma_member_counts(entries.drop_last(), i);
    }
}

/// A counted association has an entry.
proof fn lemma_counted_member(entries: Seq<(FlowKey, FlowId)>, group: AssociationKey)
    requires
        members(entries, group) > 0,
    ensures
        exists|i: int| 0 <= i < entries.len() && (#[trigger] entries[i]).0.group() == group,
    decreases entries.len(),
{
    if entries.last().0.group() == group {
        assert(entries[entries.len() - 1].0.group() == group);
    } else {
        lemma_counted_member(entries.drop_last(), group);
        let i = choose|i: int|
            0 <= i < entries.drop_last().len() && (
            #[trigger] entries.drop_last()[i]).0.group() == group;
        assert(entries[i].0.group() == group);
    }
}

proof fn lemma_no_group_no_members(engine: Engine, group: AssociationKey)
    requires
        engine.wf(),
        !engine.has_group(group),
    ensures
        members(engine.entries(), group) == 0,
{
    if members(engine.entries(), group) > 0 {
        lemma_counted_member(engine.entries(), group);
        let i = choose|i: int|
            0 <= i < engine.entries().len() && (#[trigger] engine.entries()[i]).0.group() == group;
        assert(engine.has_group(engine.entries()[i].0.group()));
    }
}

proof fn lemma_members_remove(entries: Seq<(FlowKey, FlowId)>, at: int)
    requires
        0 <= at < entries.len(),
    ensures
        forall|group: AssociationKey|
            #[trigger] members(entries.remove(at), group) == members(entries, group) - (
            if entries[at].0.group() == group {
                1int
            } else {
                0
            }),
    decreases entries.len(),
{
    if at == entries.len() - 1 {
        assert(entries.remove(at) =~= entries.drop_last());
    } else {
        lemma_members_remove(entries.drop_last(), at);
        assert(entries.remove(at).drop_last() =~= entries.drop_last().remove(at));
        assert forall|group: AssociationKey| #[trigger]
            members(entries.remove(at), group) == members(entries, group) - (
        if entries[at].0.group() == group {
            1int
        } else {
            0
        }) by {
            assert(members(entries.drop_last().remove(at), group) == members(
                entries.remove(at).drop_last(),
                group,
            ));
        }
    }
}

/// The entry under a live flow's key is the flow's own.
proof fn lemma_entry_of(engine: Engine, id: FlowId, at: int)
    requires
        engine.wf(),
        engine.table().lookup(id) is Some,
        0 <= at < engine.entries().len(),
        engine.entries()[at].0 == engine.table().lookup(id).unwrap().key,
    ensures
        engine.entries()[at].1 == id,
{
    let s = id.slot as int;
    assert(engine.table().slots()[s].value is Some);
    let entry = entry_of(engine.table().slots(), s);
    let i = choose|i: int| 0 <= i < engine.entries().len() && engine.entries()[i] == entry;
    if i < at {
        assert(engine.entries()[i].0 != engine.entries()[at].0);
    } else if at < i {
        assert(engine.entries()[at].0 != engine.entries()[i].0);
    }
}

proof fn lemma_reusable_one(id: FlowId)
    ensures
        reusable(seq![id]) == if id.generation < u32::MAX {
            seq![id.slot]
        } else {
            Seq::empty()
        },
{
    assert(seq![id].drop_last() =~= Seq::<FlowId>::empty());
    assert(reusable(seq![id].drop_last()) =~= Seq::<u32>::empty());
    assert(Seq::<u32>::empty().push(id.slot) =~= seq![id.slot]);
}

/// What `occupied` lists: distinct places in order, each with its generation.
spec fn occupied_properly(slots: Seq<Slot<Flow>>, ids: Seq<FlowId>) -> bool {
    &&& forall|i: int|
        0 <= i < ids.len() ==> {
            &&& (#[trigger] ids[i]).slot < slots.len()
            &&& slots[ids[i].slot as int].value is Some
            &&& slots[ids[i].slot as int].generation == ids[i].generation
        }
    &&& forall|i: int, j: int|
        0 <= i < j < ids.len() ==> (#[trigger] ids[i]).slot < (#[trigger] ids[j]).slot
    &&& forall|s: int|
        0 <= s < slots.len() && (#[trigger] slots[s]).value is Some ==> ids.contains(
            FlowId { slot: s as u32, generation: slots[s].generation },
        )
}

proof fn lemma_occupied(slots: Seq<Slot<Flow>>)
    requires
        slots.len() <= MAX_SLOTS,
    ensures
        occupied_properly(slots, occupied(slots)),
    decreases slots.len(),
{
    if slots.len() > 0 {
        let shorter = slots.drop_last();
        lemma_occupied(shorter);
        let ids = occupied(slots);
        assert forall|s: int| 0 <= s < slots.len() && (#[trigger] slots[s]).value
            is Some implies ids.contains(
            FlowId { slot: s as u32, generation: slots[s].generation },
        ) by {
            let id = FlowId { slot: s as u32, generation: slots[s].generation };
            if s < shorter.len() {
                assert(shorter[s].value is Some);
                assert(occupied(shorter).contains(id));
                let j = choose|j: int|
                    0 <= j < occupied(shorter).len() && occupied(shorter)[j] == id;
                assert(ids[j] == id);
            } else {
                assert(ids[ids.len() - 1] == id);
            }
        }
        assert forall|i: int| 0 <= i < ids.len() implies {
            &&& (#[trigger] ids[i]).slot < slots.len()
            &&& slots[ids[i].slot as int].value is Some
            &&& slots[ids[i].slot as int].generation == ids[i].generation
        } by {
            if i < occupied(shorter).len() {
                assert(ids[i] == occupied(shorter)[i]);
            }
        }
        assert forall|i: int, j: int| 0 <= i < j < ids.len() implies (#[trigger] ids[i]).slot < (
        #[trigger] ids[j]).slot by {
            assert(ids[i] == occupied(shorter)[i]);
            if j < occupied(shorter).len() {
                assert(ids[j] == occupied(shorter)[j]);
            }
        }
    }
}

proof fn lemma_remove_keeps_order(before: Engine, after: Engine, id: FlowId)
    requires
        before.wf(),
        before.table().lookup(id) is Some,
        after.table().wf(),
        after.removed(&before, id),
        ({
            let group = before.table().lookup(id).unwrap().key.group();
            exists|at: int|
                {
                    &&& 0 <= at < before.groups().len()
                    &&& (#[trigger] before.groups()[at]).0 == group
                    &&& after.groups() == if before.groups()[at].1 == 1 {
                        before.groups().remove(at)
                    } else {
                        before.groups().update(at, (group, (before.groups()[at].1 - 1) as usize))
                    }
                }
        }),
    ensures
        after.wf(),
{
    let group = before.table().lookup(id).unwrap().key.group();
    let at = choose|at: int|
        {
            &&& 0 <= at < before.entries().len()
            &&& (#[trigger] before.entries()[at]).1 == id
            &&& after.entries() == before.entries().remove(at)
        };
    let g = choose|at: int|
        {
            &&& 0 <= at < before.groups().len()
            &&& (#[trigger] before.groups()[at]).0 == group
            &&& after.groups() == if before.groups()[at].1 == 1 {
                before.groups().remove(at)
            } else {
                before.groups().update(at, (group, (before.groups()[at].1 - 1) as usize))
            }
        };
    lemma_members_remove(before.entries(), at);
    assert(before.entries()[at].0.group() == group);
    let source = |i: int| if i < at { i } else { i + 1 };
    assert forall|i: int| 0 <= i < after.entries().len() implies #[trigger] after.entries()[i]
        == before.entries()[source(i)] by {}
    let gone = before.groups()[g].1 == 1;
    let group_source = |i: int| if gone && i >= g { i + 1 } else { i };
    assert forall|i: int| 0 <= i < after.groups().len() implies (#[trigger] after.groups()[i]).0
        == before.groups()[group_source(i)].0 by {}
    assert forall|i: int, j: int| 0 <= i < j < after.groups().len() implies (
    #[trigger] after.groups()[i]).0 != (#[trigger] after.groups()[j]).0 by {
        assert(before.groups()[group_source(i)].0 != before.groups()[group_source(j)].0);
    }
    assert forall|i: int| 0 <= i < after.groups().len() implies {
        &&& (#[trigger] after.groups()[i]).1 == members(after.entries(), after.groups()[i].0)
        &&& after.groups()[i].1 > 0
    } by {
        let k = group_source(i);
        assert(before.groups()[k].1 == members(before.entries(), before.groups()[k].0));
        if k < g {
            assert(before.groups()[k].0 != before.groups()[g].0);
        } else if k > g {
            assert(before.groups()[g].0 != before.groups()[k].0);
        }
    }
    assert forall|i: int| 0 <= i < after.entries().len() implies {
        &&& after.table().lookup((#[trigger] after.entries()[i]).1) is Some
        &&& after.table().lookup(after.entries()[i].1).unwrap().key == after.entries()[i].0
        &&& after.has_group(after.entries()[i].0.group())
    } by {
        let k = source(i);
        assert(before.entries()[k].1 != id) by {
            if k < at {
                assert(before.entries()[k].1 != before.entries()[at].1);
            } else {
                assert(before.entries()[at].1 != before.entries()[k].1);
            }
        }
        assert(before.table().lookup(before.entries()[k].1) is Some);
        let own = before.entries()[k].0.group();
        assert(before.has_group(own));
        let h = choose|h: int|
            0 <= h < before.groups().len() && (#[trigger] before.groups()[h]).0 == own;
        lemma_member_counts(after.entries(), i);
        assert(members(after.entries(), own) > 0);
        assert(!(gone && h == g)) by {
            assert(before.groups()[g].1 == members(before.entries(), before.groups()[g].0));
        }
        let at_after = if gone && h > g { h - 1 } else { h };
        assert(after.groups()[at_after].0 == own);
    }
    assert forall|s: int|
        0 <= s < after.table().slots().len() && (#[trigger] after.table().slots()[s]).value
            is Some implies after.entries().contains(entry_of(after.table().slots(), s)) by {
        assert(s != id.slot);
        assert(before.table().slots()[s].value is Some);
        let entry = entry_of(before.table().slots(), s);
        let i = choose|i: int| 0 <= i < before.entries().len() && before.entries()[i] == entry;
        assert(after.entries()[if i < at { i } else { i - 1 }] == entry);
    }
    assert forall|i: int, j: int| 0 <= i < j < after.entries().len() implies (
    #[trigger] after.entries()[i]).0 != (#[trigger] after.entries()[j]).0
        && after.entries()[i].1 != after.entries()[j].1 by {
        assert(before.entries()[source(i)].0 != before.entries()[source(j)].0);
    }
}

proof fn lemma_touch_keeps_order(before: Engine, after: Engine, id: FlowId, flow: Flow)
    requires
        before.wf(),
        after.table().wf(),
        before.table().lookup(id) is Some,
        flow.key == before.table().lookup(id).unwrap().key,
        after.touched(&before, id, flow),
    ensures
        after.wf(),
{
    assert forall|i: int| 0 <= i < after.entries().len() implies {
        &&& after.table().lookup((#[trigger] after.entries()[i]).1) is Some
        &&& after.table().lookup(after.entries()[i].1).unwrap().key == after.entries()[i].0
        &&& after.has_group(after.entries()[i].0.group())
    } by {
        assert(before.table().lookup(before.entries()[i].1) is Some);
        let group = before.entries()[i].0.group();
        assert(before.has_group(group));
        let g = choose|g: int|
            0 <= g < before.groups().len() && (#[trigger] before.groups()[g]).0 == group;
        assert(after.groups()[g].0 == group);
    }
    assert forall|s: int|
        0 <= s < after.table().slots().len() && (#[trigger] after.table().slots()[s]).value
            is Some implies after.entries().contains(entry_of(after.table().slots(), s)) by {
        assert(before.table().slots()[s].value is Some);
        assert(entry_of(after.table().slots(), s) == entry_of(before.table().slots(), s));
    }
}

proof fn lemma_accept_keeps_order(
    before: Engine,
    after: Engine,
    key: FlowKey,
    id: FlowId,
    flow: Flow,
)
    requires
        before.wf(),
        !before.known(key),
        flow.key == key,
        before.entries().len() < before.flow_limit(),
        after.flow_limit() == before.flow_limit(),
        after.association_limit() == before.association_limit(),
        after.table().wf(),
        after.table().deferred() == before.table().deferred(),
        id.slot < before.table().slots().len(),
        before.table().slots()[id.slot as int].value is None,
        before.table().slots()[id.slot as int].generation == id.generation,
        after.table().slots() == before.table().slots().update(
            id.slot as int,
            (Slot { value: Some(flow), ..before.table().slots()[id.slot as int] }),
        ),
        after.entries() == before.entries().push((key, id)),
        ({
            let group = key.group();
            ||| exists|at: int|
                {
                    &&& 0 <= at < before.groups().len()
                    &&& (#[trigger] before.groups()[at]).0 == group
                    &&& after.groups() == before.groups().update(
                        at,
                        (group, (before.groups()[at].1 + 1) as usize),
                    )
                    &&& before.groups()[at].1 < usize::MAX
                }
            ||| {
                &&& !before.has_group(group)
                &&& before.groups().len() < before.association_limit()
                &&& after.groups() == before.groups().push((group, 1usize))
            }
        }),
    ensures
        after.wf(),
{
    let group = key.group();
    lemma_members_push(before.entries(), (key, id));
    assert forall|i: int, j: int| 0 <= i < j < after.entries().len() implies (
    #[trigger] after.entries()[i]).0 != (#[trigger] after.entries()[j]).0
        && after.entries()[i].1 != after.entries()[j].1 by {
        assert(after.entries()[i] == before.entries()[i]);
        if j < before.entries().len() {
            assert(after.entries()[j] == before.entries()[j]);
        } else {
            assert(before.table().lookup(before.entries()[i].1) is Some);
        }
    }
    if !before.has_group(group) {
        lemma_no_group_no_members(before, group);
    }
    assert forall|g: AssociationKey| before.has_group(g) || g == group implies after.has_group(
        g,
    ) by {
        if before.has_group(g) {
            let i = choose|i: int|
                0 <= i < before.groups().len() && (#[trigger] before.groups()[i]).0 == g;
            assert(after.groups()[i].0 == g);
        } else {
            assert(after.groups()[before.groups().len() as int].0 == g);
        }
    }
    assert forall|i: int| 0 <= i < after.entries().len() implies {
        &&& after.table().lookup((#[trigger] after.entries()[i]).1) is Some
        &&& after.table().lookup(after.entries()[i].1).unwrap().key == after.entries()[i].0
        &&& after.has_group(after.entries()[i].0.group())
    } by {
        if i < before.entries().len() {
            assert(after.entries()[i] == before.entries()[i]);
            assert(before.table().lookup(before.entries()[i].1) is Some);
            assert(before.has_group(before.entries()[i].0.group()));
        }
    }
    assert forall|s: int|
        0 <= s < after.table().slots().len() && (#[trigger] after.table().slots()[s]).value
            is Some implies after.entries().contains(entry_of(after.table().slots(), s)) by {
        let entry = entry_of(after.table().slots(), s);
        if s == id.slot {
            assert(after.entries()[before.entries().len() as int] == entry);
        } else {
            assert(before.table().slots()[s].value is Some);
            let i = choose|i: int| 0 <= i < before.entries().len() && before.entries()[i] == entry;
            assert(after.entries()[i] == entry);
        }
    }
    assert forall|i: int, j: int| 0 <= i < j < after.groups().len() implies (
    #[trigger] after.groups()[i]).0 != (#[trigger] after.groups()[j]).0 by {
        if j < before.groups().len() {
            assert(before.groups()[i].0 != before.groups()[j].0);
        } else {
            assert(after.groups()[i] == before.groups()[i]);
        }
    }
    assert forall|i: int| 0 <= i < after.groups().len() implies {
        &&& (#[trigger] after.groups()[i]).1 == members(after.entries(), after.groups()[i].0)
        &&& after.groups()[i].1 > 0
    } by {
        if i < before.groups().len() {
            assert(before.groups()[i].1 == members(before.entries(), before.groups()[i].0));
            if before.has_group(group) {
                let at = choose|at: int|
                    {
                        &&& 0 <= at < before.groups().len()
                        &&& (#[trigger] before.groups()[at]).0 == group
                        &&& after.groups() == before.groups().update(
                            at,
                            (group, (before.groups()[at].1 + 1) as usize),
                        )
                        &&& before.groups()[at].1 < usize::MAX
                    };
                if i < at {
                    assert(before.groups()[i].0 != before.groups()[at].0);
                } else if i > at {
                    assert(before.groups()[at].0 != before.groups()[i].0);
                }
            } else {
                assert(before.groups()[i].0 != group);
            }
        }
    }
}

/// A datagram between two addresses of one family, be it IPv4 or IPv6, is accepted
/// wherever there is a place for it; between two families it is refused.
pub proof fn law_one_family_is_accepted(engine: Engine, key: FlowKey)
    ensures
        (key.source.ip is V4 <==> key.target.ip is V6) ==> engine.refusal(key) == Some(
            AcceptError::FamilyMismatch,
        ),
        (key.source.ip is V4 <==> key.target.ip is V4) ==> {
            &&& engine.refusal(key) != Some(AcceptError::FamilyMismatch)
            &&& engine.entries().len() < engine.flow_limit() && engine.groups().len()
                < engine.association_limit() && engine.table().free().len() > 0 ==> engine.refusal(
                key,
            ) is None
        },
{
}

/// A flow that exists goes on whatever the limits say, and a new one needs a place
/// under the limit on flows, and under the limit on associations where its source
/// has none yet.
pub proof fn law_limits_hold_for_new_flows_only(engine: Engine, key: FlowKey)
    requires
        key.source.ip is V4 <==> key.target.ip is V4,
    ensures
        (exists|i: int| 0 <= i < engine.entries().len() && (#[trigger] engine.entries()[i]).0 == key)
            ==> engine.refusal(key) is None,
        (forall|i: int| 0 <= i < engine.entries().len() ==> (#[trigger] engine.entries()[i]).0 != key)
            ==> {
            &&& engine.entries().len() >= engine.flow_limit() ==> engine.refusal(key) == Some(
                AcceptError::FlowLimit,
            )
            &&& engine.entries().len() < engine.flow_limit() && engine.groups().len()
                >= engine.association_limit() && (forall|i: int|
                0 <= i < engine.groups().len() ==> (#[trigger] engine.groups()[i]).0.source
                    != key.source) ==> engine.refusal(key) == Some(AcceptError::AssociationLimit)
            &&& engine.entries().len() < engine.flow_limit() && engine.table().free().len() > 0 && (
            exists|i: int|
                0 <= i < engine.groups().len() && (#[trigger] engine.groups()[i]).0.source
                    == key.source) ==> engine.refusal(key) is None
        },
{
    let group = key.group();
    if exists|i: int|
        0 <= i < engine.groups().len() && (#[trigger] engine.groups()[i]).0.source == key.source {
        let i = choose|i: int|
            0 <= i < engine.groups().len() && (#[trigger] engine.groups()[i]).0.source
                == key.source;
        assert(engine.groups()[i].0 == group);
        assert(engine.has_group(group));
    } else {
        assert(!engine.has_group(group));
    }
}

/// A flow lasts 15 seconds for DNS, two minutes once both sides sent more than one
/// datagram, and half a minute otherwise, counted from its last datagram.
pub proof fn law_flow_lasts_by_its_use(flow: Flow)
    ensures
        ({
            let seconds: int = if flow.key.target.port == 53 {
                15
            } else if flow.outbound_datagrams >= 2 && flow.inbound_datagrams >= 2 {
                120
            } else {
                30
            };
            flow.end() == flow.last_activity + seconds * 1_000_000_000
        }),
        forall|now: Instant, slot: Slot<Flow>|
            slot.value == Some(flow) ==> (#[trigger] place_over(slot, now) <==> flow.end() <= now),
{
}

/// Every datagram renews the flow and is counted on its side, up to 255; nothing
/// else changes.
pub proof fn law_datagrams_renew_the_flow(flow: Flow, now: Instant)
    ensures
        ({
            let sent = flow.sent(now);
            &&& sent.key == flow.key
            &&& sent.last_activity == now
            &&& sent.inbound_datagrams == flow.inbound_datagrams
            &&& flow.outbound_datagrams < 255 ==> sent.outbound_datagrams
                == flow.outbound_datagrams + 1
            &&& flow.outbound_datagrams == 255 ==> sent.outbound_datagrams == 255
        }),
        ({
            let heard = flow.heard(now);
            &&& heard.key == flow.key
            &&& heard.last_activity == now
            &&& heard.outbound_datagrams == flow.outbound_datagrams
            &&& flow.inbound_datagrams < 255 ==> heard.inbound_datagrams == flow.inbound_datagrams
                + 1
            &&& flow.inbound_datagrams == 255 ==> heard.inbound_datagrams == 255
        }),
{
}

/// Flows from one source belong to one association, and flows from two sources to
/// two.
pub proof fn law_association_is_the_source(first: FlowKey, second: FlowKey)
    ensures
        first.group() == second.group() <==> first.source == second.source,
        first.group().source == first.source,
{
}

/// A removed flow is gone, all others stay, and its identifier resolves to nothing.
pub proof fn law_removed_flow_is_gone(before: Engine, after: Engine, id: FlowId)
    requires
        before.wf(),
        after.wf(),
        before.table().lookup(id) is Some,
        after.removed(&before, id),
    ensures
        after.table().lookup(id) is None,
        after.entries().len() == before.entries().len() - 1,
        forall|other: FlowId|
            other.slot != id.slot ==> #[trigger] after.table().lookup(other)
                == before.table().lookup(other),
{
}

/// A flow is over from its end on, and one that is not there is not.
pub proof fn law_flow_is_over_from_its_end_on(table: FlowTable<Flow>, id: FlowId, now: Instant)
    ensures
        table.lookup(id) is None ==> !over(table, id, now),
        table.lookup(id) is Some && now >= table.lookup(id).unwrap().end() ==> over(table, id, now),
        table.lookup(id) is Some && now < table.lookup(id).unwrap().end() ==> !over(table, id, now),
{
}

} // verus!
