//! A table of flows whose identifiers never resolve to a later flow.

use vstd::prelude::*;

verus! {

pub const MAX_SLOTS: usize = 0x10_0000;

#[derive(Clone, Copy, Debug, PartialEq, Eq, Hash, Structural)]
pub struct FlowId {
    pub slot: u32,
    pub generation: u32,
}

#[derive(Clone, Copy, Debug, PartialEq, Eq, Structural)]
pub enum Resource {
    UpstreamSocket,
    Tap,
    Timer,
    Control,
    DnsUpstream,
    UdpSocket,
}

impl Resource {
    /// The number that stands for the resource in a token.
    pub open spec fn number(self) -> u64 {
        match self {
            Resource::UpstreamSocket => 1,
            Resource::Tap => 2,
            Resource::Timer => 3,
            Resource::Control => 4,
            Resource::DnsUpstream => 5,
            Resource::UdpSocket => 6,
        }
    }

    fn code(self) -> (code: u64)
        ensures
            code == self.number(),
    {
        match self {
            Resource::UpstreamSocket => 1,
            Resource::Tap => 2,
            Resource::Timer => 3,
            Resource::Control => 4,
            Resource::DnsUpstream => 5,
            Resource::UdpSocket => 6,
        }
    }
}

/// What an event is registered for: the low twenty bits are a slot, the seven
/// above them a resource, the next one the side, and the upper half is the
/// generation of the flow, zero for none.
#[derive(Clone, Copy, Debug, PartialEq, Eq, Structural)]
pub struct EpollToken(u64);

/// The raw token of a flow's resource.
pub open spec fn flow_token(id: FlowId, resource: Resource, target_side: bool) -> int {
    id.generation * 0x1_0000_0000 + (if target_side {
        0x800_0000int
    } else {
        0
    }) + resource.number() * 0x10_0000 + id.slot
}

/// The resource that a token names, if it names one.
pub open spec fn token_resource(raw: u64) -> Option<Resource> {
    let number = raw / 0x10_0000 % 0x80;
    if raw / 0x1000_0000 % 0x10 != 0 {
        None
    } else if number == 1 {
        Some(Resource::UpstreamSocket)
    } else if number == 2 {
        Some(Resource::Tap)
    } else if number == 3 {
        Some(Resource::Timer)
    } else if number == 4 {
        Some(Resource::Control)
    } else if number == 5 {
        Some(Resource::DnsUpstream)
    } else if number == 6 {
        Some(Resource::UdpSocket)
    } else {
        None
    }
}

/// What a raw token stands for, if it is one.
pub open spec fn decoded(raw: u64) -> Option<(Option<FlowId>, Resource, bool)> {
    match token_resource(raw) {
        None => None,
        Some(resource) => Some(
            (
                if raw / 0x1_0000_0000 == 0 {
                    None
                } else {
                    Some(
                        FlowId {
                            slot: (raw % 0x10_0000) as u32,
                            generation: (raw / 0x1_0000_0000) as u32,
                        },
                    )
                },
                resource,
                raw / 0x800_0000 % 2 != 0,
            ),
        ),
    }
}

impl View for EpollToken {
    type V = u64;

    closed spec fn view(&self) -> u64 {
        self.0
    }
}

impl EpollToken {
    #[must_use]
    pub fn from_raw(raw: u64) -> (token: EpollToken)
        ensures
            token@ == raw,
    {
        EpollToken(raw)
    }

    pub fn flow(id: FlowId, resource: Resource, target_side: bool) -> (token: Option<EpollToken>)
        ensures
            match token {
                Some(token) => {
                    &&& id.slot < 0x10_0000
                    &&& id.generation != 0
                    &&& token@ == flow_token(id, resource, target_side)
                },
                None => id.slot >= 0x10_0000 || id.generation == 0,
            },
    {
        if id.slot >= 0x10_0000 || id.generation == 0 {
            return None;
        }
        let side: u64 = if target_side {
            0x800_0000
        } else {
            0
        };
        Some(
            EpollToken(
                id.generation as u64 * 0x1_0000_0000 + side + resource.code() * 0x10_0000
                    + id.slot as u64,
            ),
        )
    }

    #[must_use]
    pub fn global(resource: Resource) -> (token: EpollToken)
        ensures
            token@ == resource.number() * 0x10_0000,
    {
        EpollToken(resource.code() * 0x10_0000)
    }

    #[must_use]
    pub fn raw(self) -> (raw: u64)
        ensures
            raw == self@,
    {
        self.0
    }

    pub fn decode(self) -> (parts: Option<(Option<FlowId>, Resource, bool)>)
        ensures
            parts == decoded(self@),
    {
        if self.0 / 0x1000_0000 % 0x10 != 0 {
            return None;
        }
        let resource = match self.0 / 0x10_0000 % 0x80 {
            1 => Resource::UpstreamSocket,
            2 => Resource::Tap,
            3 => Resource::Timer,
            4 => Resource::Control,
            5 => Resource::DnsUpstream,
            6 => Resource::UdpSocket,
            _ => return None,
        };
        let generation: u32 = (self.0 / 0x1_0000_0000) as u32;
        let slot: u32 = (self.0 % 0x10_0000) as u32;
        let flow = if generation == 0 {
            None
        } else {
            Some(FlowId { slot, generation })
        };
        Some((flow, resource, self.0 / 0x800_0000 % 2 != 0))
    }
}

/// A token decodes to what it was made from.
pub proof fn law_token_round_trip(id: FlowId, resource: Resource, target_side: bool)
    requires
        id.slot < 0x10_0000,
        id.generation != 0,
    ensures
        flow_token(id, resource, target_side) <= u64::MAX,
        decoded(flow_token(id, resource, target_side) as u64) == Some(
            (Some(id), resource, target_side),
        ),
        decoded((resource.number() * 0x10_0000) as u64) == Some(
            (None::<FlowId>, resource, false),
        ),
{
    let side: int = if target_side {
        1
    } else {
        0
    };
    lemma_token_digits(id.generation as int, side, resource.number() as int, id.slot as int);
    lemma_token_digits(0, 0, resource.number() as int, 0);
}

/// The parts of a token are its digits.
proof fn lemma_token_digits(generation: int, side: int, number: int, slot: int)
    requires
        0 <= generation <= u32::MAX,
        0 <= side <= 1,
        0 <= number <= 6,
        0 <= slot < 0x10_0000,
    ensures
        ({
            let raw = generation * 0x1_0000_0000 + side * 0x800_0000 + number * 0x10_0000 + slot;
            &&& 0 <= raw <= u64::MAX
            &&& raw / 0x1_0000_0000 == generation
            &&& raw / 0x1000_0000 % 0x10 == 0
            &&& raw / 0x800_0000 % 2 == side
            &&& raw / 0x10_0000 % 0x80 == number
            &&& raw % 0x10_0000 == slot
        }),
{
    let raw = generation * 0x1_0000_0000 + side * 0x800_0000 + number * 0x10_0000 + slot;
    let low = side * 0x800_0000 + number * 0x10_0000 + slot;
    assert(0 <= low < 0x1000_0000);
    assert(raw / 0x1_0000_0000 == generation);
    assert(raw / 0x1000_0000 == generation * 0x10);
    assert(raw / 0x800_0000 == generation * 0x20 + side);
    assert(raw / 0x10_0000 == generation * 0x1000 + side * 0x80 + number);
}

/// One place of the table.
pub struct Slot<T> {
    pub generation: u32,
    pub value: Option<T>,
    pub retired: bool,
}

/// The place after its flow was removed: the next flow in it has another
/// generation, and after the last generation there is no next flow.
pub open spec fn vacated<T>(slot: Slot<T>) -> Slot<T> {
    if slot.generation < u32::MAX {
        Slot { generation: (slot.generation + 1) as u32, value: None, retired: slot.retired }
    } else {
        Slot { generation: slot.generation, value: None, retired: true }
    }
}

/// The identifiers of the occupied places, in the order of the places.
pub open spec fn occupied<T>(slots: Seq<Slot<T>>) -> Seq<FlowId>
    decreases slots.len(),
{
    if slots.len() == 0 {
        Seq::empty()
    } else if slots.last().value is Some {
        occupied(slots.drop_last()).push(
            FlowId { slot: (slots.len() - 1) as u32, generation: slots.last().generation },
        )
    } else {
        occupied(slots.drop_last())
    }
}

/// The places of `ids` that a later flow may take, in the order of `ids`.
pub open spec fn reusable(ids: Seq<FlowId>) -> Seq<u32>
    decreases ids.len(),
{
    if ids.len() == 0 {
        Seq::empty()
    } else if ids.last().generation < u32::MAX {
        reusable(ids.drop_last()).push(ids.last().slot)
    } else {
        reusable(ids.drop_last())
    }
}

pub struct FlowTable<T> {
    slots: Vec<Slot<T>>,
    free: Vec<u32>,
    deferred: Vec<FlowId>,
}

impl<T> FlowTable<T> {
    pub closed spec fn slots(&self) -> Seq<Slot<T>> {
        self.slots@
    }

    /// The places that a flow can be put into, the next one last.
    pub closed spec fn free(&self) -> Seq<u32> {
        self.free@
    }

    /// The flows that leave with the next flush.
    pub closed spec fn deferred(&self) -> Seq<FlowId> {
        self.deferred@
    }

    /// The flow that `id` stands for, if it is still there.
    pub open spec fn lookup(&self, id: FlowId) -> Option<T> {
        if id.slot < self.slots().len() && self.slots()[id.slot as int].generation
            == id.generation {
            self.slots()[id.slot as int].value
        } else {
            None
        }
    }

    /// Every place is either occupied, free or retired, no free place is listed
    /// twice, and the flows that wait for the flush are distinct and still
    /// there.
    pub open spec fn wf(&self) -> bool {
        &&& self.slots().len() <= 0x10_0000
        &&& self.free().no_duplicates()
        &&& forall|i: int|
            0 <= i < self.free().len() ==> (#[trigger] self.free()[i]) < self.slots().len()
                && self.slots()[self.free()[i] as int].value is None
                && !self.slots()[self.free()[i] as int].retired
        &&& forall|s: int|
            0 <= s < self.slots().len() ==> {
                &&& (#[trigger] self.slots()[s]).generation > 0
                &&& self.slots()[s].retired ==> self.slots()[s].value is None
                &&& self.slots()[s].value is None && !self.slots()[s].retired
                    ==> self.free().contains(s as u32)
            }
        &&& forall|i: int|
            0 <= i < self.deferred().len() ==> self.lookup(#[trigger] self.deferred()[i]) is Some
        &&& forall|i: int, j: int|
            0 <= i < j < self.deferred().len() ==> (#[trigger] self.deferred()[i]).slot != (
            #[trigger] self.deferred()[j]).slot
    }

    /// Whether a flush takes the flow out of place `s`.
    pub open spec fn leaves(&self, s: int) -> bool {
        exists|i: int| 0 <= i < self.deferred().len() && (#[trigger] self.deferred()[i]).slot == s
    }

    #[must_use]
    pub fn with_capacity(capacity: usize) -> (table: FlowTable<T>)
        requires
            capacity <= MAX_SLOTS,
        ensures
            table.wf(),
            table.slots() == Seq::new(
                capacity as nat,
                |i: int| Slot::<T> { generation: 1, value: None, retired: false },
            ),
            table.free() == Seq::new(capacity as nat, |i: int| (capacity - 1 - i) as u32),
            table.deferred() == Seq::<FlowId>::empty(),
    {
        let mut slots: Vec<Slot<T>> = Vec::new();
        let mut free: Vec<u32> = Vec::new();
        let mut i: usize = 0;
        while i < capacity
            invariant
                i <= capacity <= MAX_SLOTS,
                slots@.len() == i,
                free@.len() == i,
                forall|s: int|
                    0 <= s < i ==> #[trigger] slots@[s] == (Slot::<T> {
                        generation: 1,
                        value: None,
                        retired: false,
                    }),
                forall|j: int| 0 <= j < i ==> #[trigger] free@[j] == capacity - 1 - j,
            decreases capacity - i,
        {
            slots.push(Slot { generation: 1, value: None, retired: false });
            free.push((capacity - 1 - i) as u32);
            i = i + 1;
        }
        let table = FlowTable { slots, free, deferred: Vec::new() };
        assert(table.slots() =~= Seq::new(
            capacity as nat,
            |i: int| Slot::<T> { generation: 1, value: None, retired: false },
        ));
        assert(table.free() =~= Seq::new(capacity as nat, |i: int| (capacity - 1 - i) as u32));
        assert forall|s: int|
            0 <= s < table.slots().len() implies #[trigger] table.free().contains(s as u32) by {
            assert(table.free()[capacity - 1 - s] == s as u32);
        }
        assert(table.wf());
        table
    }

    /// Puts a flow into a free place, or hands it back when there is none.
    pub fn insert(&mut self, value: T) -> (result: Result<FlowId, T>)
        requires
            old(self).wf(),
        ensures
            final(self).wf(),
            table_step(*old(self), *final(self)),
            final(self).deferred() == old(self).deferred(),
            match result {
                Ok(id) => {
                    &&& old(self).free().len() > 0
                    &&& id.slot == old(self).free().last()
                    &&& id.generation == old(self).slots()[id.slot as int].generation
                    &&& old(self).slots()[id.slot as int].value is None
                    &&& final(self).slots() == old(self).slots().update(
                        id.slot as int,
                        (Slot { value: Some(value), ..old(self).slots()[id.slot as int] }),
                    )
                    &&& final(self).free() == old(self).free().drop_last()
                    &&& final(self).lookup(id) == Some(value)
                    &&& id.slot < 0x10_0000
                    &&& id.generation > 0
                },
                Err(back) => {
                    &&& old(self).free().len() == 0
                    &&& back == value
                    &&& final(self).slots() == old(self).slots()
                    &&& final(self).free() == old(self).free()
                },
            },
    {
        let ghost before = *self;
        match self.free.pop() {
            None => Err(value),
            Some(slot) => {
                assert(slot == before.free()[before.free().len() - 1]);
                assert(self.free() =~= before.free().drop_last());
                let generation: u32 = self.slots[slot as usize].generation;
                let retired = self.slots[slot as usize].retired;
                self.slots.set(slot as usize, Slot { generation, value: Some(value), retired });
                assert forall|s: int| 0 <= s < self.slots().len() implies {
                    &&& (#[trigger] self.slots()[s]).generation > 0
                    &&& self.slots()[s].retired ==> self.slots()[s].value is None
                    &&& self.slots()[s].value is None && !self.slots()[s].retired
                        ==> self.free().contains(s as u32)
                } by {
                    if s != slot {
                        assert(self.slots()[s] == before.slots()[s]);
                        if self.slots()[s].value is None && !self.slots()[s].retired {
                            let j = choose|j: int|
                                0 <= j < before.free().len() && before.free()[j] == s as u32;
                            assert(self.free()[j] == s as u32);
                        }
                    } else {
                        assert(before.slots()[s].generation > 0);
                    }
                }
                assert forall|i: int| 0 <= i < self.deferred().len() implies self.lookup(
                    #[trigger] self.deferred()[i],
                ) is Some by {
                    assert(before.lookup(before.deferred()[i]) is Some);
                }
                Ok(FlowId { slot, generation })
            },
        }
    }

    pub fn get(&self, id: FlowId) -> (flow: Option<&T>)
        ensures
            match flow {
                Some(value) => self.lookup(id) == Some(*value),
                None => self.lookup(id) is None,
            },
    {
        if id.slot as usize >= self.slots.len() {
            return None;
        }
        let slot = &self.slots[id.slot as usize];
        if slot.generation != id.generation {
            return None;
        }
        match &slot.value {
            Some(value) => Some(value),
            None => None,
        }
    }

    pub fn get_mut(&mut self, id: FlowId) -> (flow: Option<&mut T>)
        requires
            old(self).wf(),
        ensures
            final(self).wf(),
            table_step(*old(self), *final(self)),
            final(self).free() == old(self).free(),
            final(self).deferred() == old(self).deferred(),
            match flow {
                Some(value) => {
                    &&& old(self).lookup(id) == Some(*value)
                    &&& final(self).slots() == old(self).slots().update(
                        id.slot as int,
                        (Slot {
                            value: Some(*final(value)),
                            ..old(self).slots()[id.slot as int]
                        }),
                    )
                    &&& final(self).lookup(id) == Some(*final(value))
                },
                None => {
                    &&& old(self).lookup(id) is None
                    &&& final(self).slots() == old(self).slots()
                },
            },
    {
        if id.slot as usize >= self.slots.len() {
            return None;
        }
        if self.slots[id.slot as usize].generation != id.generation {
            return None;
        }
        match &mut self.slots[id.slot as usize].value {
            Some(value) => Some(value),
            None => None,
        }
    }

    /// Lets the flow leave with the next flush; until then it stays.
    pub fn defer_remove(&mut self, id: FlowId)
        requires
            old(self).wf(),
        ensures
            final(self).wf(),
            table_step(*old(self), *final(self)),
            final(self).slots() == old(self).slots(),
            final(self).free() == old(self).free(),
            final(self).deferred() == if old(self).lookup(id) is Some
                && !old(self).deferred().contains(id) {
                old(self).deferred().push(id)
            } else {
                old(self).deferred()
            },
    {
        if self.get(id).is_none() {
            return;
        }
        let mut i: usize = 0;
        while i < self.deferred.len()
            invariant
                *self == *old(self),
                self.wf(),
                self.lookup(id) is Some,
                i <= self.deferred@.len(),
                forall|j: int| 0 <= j < i ==> self.deferred@[j] != id,
            decreases self.deferred@.len() - i,
        {
            if self.deferred[i] == id {
                assert(self.deferred@[i as int] == id);
                return;
            }
            i = i + 1;
        }
        let ghost before = *self;
        self.deferred.push(id);
        assert forall|j: int| 0 <= j < self.deferred().len() implies self.lookup(
            #[trigger] self.deferred()[j],
        ) is Some by {
            if j < before.deferred().len() {
                assert(before.lookup(before.deferred()[j]) is Some);
            }
        }
        assert forall|a: int, b: int| 0 <= a < b < self.deferred().len() implies (
        #[trigger] self.deferred()[a]).slot != (#[trigger] self.deferred()[b]).slot by {
            if b == before.deferred().len() {
                assert(before.lookup(before.deferred()[a]) is Some);
                assert(before.deferred()[a] != id);
            }
        }
    }

    #[must_use]
    pub fn active_ids(&self) -> (ids: Vec<FlowId>)
        requires
            self.wf(),
        ensures
            ids@ == occupied(self.slots()),
    {
        let mut ids: Vec<FlowId> = Vec::new();
        let mut i: usize = 0;
        assert(self.slots().take(0) =~= Seq::empty());
        while i < self.slots.len()
            invariant
                self.wf(),
                i <= self.slots@.len(),
                ids@ == occupied(self.slots().take(i as int)),
            decreases self.slots@.len() - i,
        {
            assert(self.slots().take(i + 1).drop_last() =~= self.slots().take(i as int));
            if self.slots[i].value.is_some() {
                ids.push(FlowId { slot: i as u32, generation: self.slots[i].generation });
            }
            i = i + 1;
        }
        assert(self.slots().take(i as int) =~= self.slots());
        ids
    }

    /// Takes out the flows whose removal was deferred. Their places become free
    /// under another generation, except after the last one.
    pub fn flush_deferred(&mut self) -> (removed: Vec<T>)
        requires
            old(self).wf(),
        ensures
            final(self).wf(),
            table_step(*old(self), *final(self)),
            final(self).deferred() == Seq::<FlowId>::empty(),
            final(self).slots().len() == old(self).slots().len(),
            forall|s: int|
                0 <= s < old(self).slots().len() ==> #[trigger] final(self).slots()[s]
                    == if old(self).leaves(s) {
                    vacated(old(self).slots()[s])
                } else {
                    old(self).slots()[s]
                },
            final(self).free() == old(self).free() + reusable(old(self).deferred()),
            removed@.len() == old(self).deferred().len(),
            forall|i: int|
                0 <= i < removed@.len() ==> Some(#[trigger] removed@[i]) == old(self).lookup(
                    old(self).deferred()[i],
                ),
    {
        let ghost before = *self;
        let mut ids: Vec<FlowId> = Vec::new();
        std::mem::swap(&mut self.deferred, &mut ids);
        let mut removed: Vec<T> = Vec::new();
        let mut i: usize = 0;
        assert(ids@.take(0) =~= Seq::empty());
        assert(before.free() + reusable(ids@.take(0)) =~= before.free());
        while i < ids.len()
            invariant
                i <= ids@.len(),
                before.wf(),
                ids@ == before.deferred(),
                self.deferred@ == Seq::<FlowId>::empty(),
                self.slots@.len() == before.slots().len(),
                removed@.len() == i,
                forall|j: int|
                    0 <= j < i ==> Some(#[trigger] removed@[j]) == before.lookup(ids@[j]),
                self.free@ == before.free() + reusable(ids@.take(i as int)),
                forall|s: int|
                    0 <= s < self.slots@.len() ==> #[trigger] self.slots@[s] == if exists|j: int|
                        0 <= j < i && (#[trigger] ids@[j]).slot == s {
                        vacated(before.slots()[s])
                    } else {
                        before.slots()[s]
                    },
            decreases ids@.len() - i,
        {
            let id = ids[i];
            let ghost held = self.slots@;
            assert(before.lookup(before.deferred()[i as int]) is Some);
            assert(held[id.slot as int] == before.slots()[id.slot as int]) by {
                assert forall|j: int| 0 <= j < i implies (#[trigger] ids@[j]).slot != id.slot by {
                    assert(before.deferred()[j].slot != before.deferred()[i as int].slot);
                }
            }
            let slot: usize = id.slot as usize;
            let generation: u32 = self.slots[slot].generation;
            let mut retired = self.slots[slot].retired;
            assert(!retired) by {
                assert(before.slots()[slot as int].value is Some);
            }
            let mut next: u32 = generation;
            assert(ids@.take(i + 1).drop_last() =~= ids@.take(i as int));
            if generation < u32::MAX {
                next = generation + 1;
                self.free.push(id.slot);
                assert(self.free@ =~= before.free() + reusable(ids@.take(i + 1)));
            } else {
                retired = true;
                assert(self.free@ =~= before.free() + reusable(ids@.take(i + 1)));
            }
            let mut vacant = Slot { generation: next, value: None, retired };
            std::mem::swap(&mut self.slots[slot], &mut vacant);
            assert(self.slots@ =~= held.update(slot as int, vacated(before.slots()[slot as int])));
            if let Some(value) = vacant.value {
                removed.push(value);
            }
            assert forall|s: int| 0 <= s < self.slots@.len() implies #[trigger] self.slots@[s]
                == if exists|j: int| 0 <= j < i + 1 && (#[trigger] ids@[j]).slot == s {
                vacated(before.slots()[s])
            } else {
                before.slots()[s]
            } by {
                if s == slot {
                    assert(ids@[i as int].slot == s);
                } else {
                    assert(self.slots@[s] == held[s]);
                    if exists|j: int| 0 <= j < i + 1 && (#[trigger] ids@[j]).slot == s {
                        let j = choose|j: int| 0 <= j < i + 1 && (#[trigger] ids@[j]).slot == s;
                        assert(j < i);
                    }
                }
            }
            i = i + 1;
        }
        assert(ids@.take(i as int) =~= ids@);
        proof {
            lemma_flush_keeps_order(before, *self);
        }
        removed
    }
}

/// After a flush the table is again in order.
proof fn lemma_flush_keeps_order<T>(before: FlowTable<T>, after: FlowTable<T>)
    requires
        before.wf(),
        after.deferred() == Seq::<FlowId>::empty(),
        after.slots().len() == before.slots().len(),
        forall|s: int|
            0 <= s < before.slots().len() ==> #[trigger] after.slots()[s] == if before.leaves(s) {
                vacated(before.slots()[s])
            } else {
                before.slots()[s]
            },
        after.free() == before.free() + reusable(before.deferred()),
    ensures
        after.wf(),
{
    let ids = before.deferred();
    let fresh = reusable(ids);
    lemma_reusable(ids);
    assert forall|i: int| 0 <= i < after.free().len() implies (#[trigger] after.free()[i])
        < after.slots().len() && after.slots()[after.free()[i] as int].value is None
        && !after.slots()[after.free()[i] as int].retired by {
        if i < before.free().len() {
            let s = before.free()[i] as int;
            assert(after.free()[i] == before.free()[i]);
            assert(before.slots()[s].value is None);
            assert(after.slots()[s] == if before.leaves(s) {
                vacated(before.slots()[s])
            } else {
                before.slots()[s]
            });
            if before.leaves(s) {
                let j = choose|j: int| 0 <= j < ids.len() && (#[trigger] ids[j]).slot == s;
                assert(before.lookup(ids[j]) is Some);
            }
        } else {
            let k = i - before.free().len();
            assert(after.free()[i] == fresh[k]);
            let j = choose|j: int|
                0 <= j < ids.len() && (#[trigger] ids[j]).slot == fresh[k] && ids[j].generation
                    < u32::MAX;
            assert(before.lookup(ids[j]) is Some);
            assert(before.leaves(ids[j].slot as int));
            assert(!before.slots()[ids[j].slot as int].retired);
            assert(after.slots()[ids[j].slot as int] == vacated(
                before.slots()[ids[j].slot as int],
            ));
        }
    }
    assert forall|s: int| 0 <= s < after.slots().len() implies {
        &&& (#[trigger] after.slots()[s]).generation > 0
        &&& after.slots()[s].retired ==> after.slots()[s].value is None
        &&& after.slots()[s].value is None && !after.slots()[s].retired ==> after.free().contains(
            s as u32,
        )
    } by {
        assert(before.slots()[s].generation > 0);
        if after.slots()[s].value is None && !after.slots()[s].retired {
            if before.leaves(s) {
                let j = choose|j: int| 0 <= j < ids.len() && (#[trigger] ids[j]).slot == s;
                assert(before.lookup(ids[j]) is Some);
                assert(ids[j].generation < u32::MAX);
                assert(fresh.contains(ids[j].slot));
                let k = choose|k: int| 0 <= k < fresh.len() && fresh[k] == ids[j].slot;
                assert(after.free()[before.free().len() + k] == s as u32);
            } else {
                assert(before.free().contains(s as u32));
                let k = choose|k: int| 0 <= k < before.free().len() && before.free()[k] == s as u32;
                assert(after.free()[k] == s as u32);
            }
        }
    }
    assert forall|i: int, j: int|
        0 <= i < after.free().len() && 0 <= j < after.free().len() && i
            != j implies after.free()[i] != after.free()[j] by {
        let n = before.free().len() as int;
        if i < n && j < n {
        } else if i >= n && j >= n {
            assert(fresh[i - n] != fresh[j - n]);
        } else {
            let old_place = if i < n {
                before.free()[i]
            } else {
                before.free()[j]
            };
            let new_place = if i < n {
                fresh[j - n]
            } else {
                fresh[i - n]
            };
            let m = choose|m: int|
                0 <= m < ids.len() && (#[trigger] ids[m]).slot == new_place && ids[m].generation
                    < u32::MAX;
            assert(before.lookup(ids[m]) is Some);
            assert(before.slots()[old_place as int].value is None);
        }
    }
}

proof fn lemma_reusable(ids: Seq<FlowId>)
    requires
        forall|i: int, j: int|
            0 <= i < j < ids.len() ==> (#[trigger] ids[i]).slot != (#[trigger] ids[j]).slot,
    ensures
        forall|k: int|
            0 <= k < reusable(ids).len() ==> exists|j: int|
                0 <= j < ids.len() && (#[trigger] ids[j]).slot == #[trigger] reusable(ids)[k]
                    && ids[j].generation < u32::MAX,
        forall|j: int|
            0 <= j < ids.len() && (#[trigger] ids[j]).generation < u32::MAX ==> reusable(
                ids,
            ).contains(ids[j].slot),
        reusable(ids).no_duplicates(),
    decreases ids.len(),
{
    if ids.len() > 0 {
        let rest = ids.drop_last();
        let last = ids.last();
        let fresh = reusable(ids);
        lemma_reusable(rest);
        assert forall|k: int| 0 <= k < fresh.len() implies exists|j: int|
            0 <= j < ids.len() && (#[trigger] ids[j]).slot == #[trigger] fresh[k]
                && ids[j].generation < u32::MAX by {
            if k < reusable(rest).len() {
                let j = choose|j: int|
                    0 <= j < rest.len() && (#[trigger] rest[j]).slot == reusable(rest)[k]
                        && rest[j].generation < u32::MAX;
                assert(ids[j].slot == fresh[k]);
            } else {
                assert(ids[ids.len() - 1].slot == fresh[k]);
            }
        }
        assert forall|j: int|
            0 <= j < ids.len() && (#[trigger] ids[j]).generation < u32::MAX implies fresh.contains(
            ids[j].slot,
        ) by {
            if j < rest.len() {
                assert(rest[j].generation < u32::MAX);
                assert(reusable(rest).contains(rest[j].slot));
                let k = choose|k: int|
                    0 <= k < reusable(rest).len() && reusable(rest)[k] == rest[j].slot;
                assert(fresh[k] == ids[j].slot);
            } else {
                assert(fresh[fresh.len() - 1] == ids[j].slot);
            }
        }
        if last.generation < u32::MAX {
            assert forall|a: int, b: int|
                0 <= a < fresh.len() && 0 <= b < fresh.len() && a != b implies fresh[a]
                != fresh[b] by {
                let top = fresh.len() - 1;
                if a == top || b == top {
                    let k = if a == top {
                        b
                    } else {
                        a
                    };
                    let j = choose|j: int|
                        0 <= j < rest.len() && (#[trigger] rest[j]).slot == reusable(rest)[k]
                            && rest[j].generation < u32::MAX;
                    assert(ids[j].slot != ids[ids.len() - 1].slot);
                }
            }
        }
    }
}

/// What can become of a place in one step: its flow leaves, or it stays as it is
/// but for its flow, which may come or change, and comes to no retired place.
pub open spec fn place_step<T>(before: Slot<T>, after: Slot<T>) -> bool {
    ||| before.value is Some && after == vacated(before)
    ||| {
        &&& after.generation == before.generation
        &&& after.retired == before.retired
        &&& before.value is Some ==> after.value is Some
        &&& after.retired ==> after.value is None
    }
}

/// What can become of a table in one step.
pub open spec fn table_step<T>(before: FlowTable<T>, after: FlowTable<T>) -> bool {
    &&& after.slots().len() == before.slots().len()
    &&& forall|s: int|
        0 <= s < before.slots().len() ==> place_step(
            before.slots()[s],
            #[trigger] after.slots()[s],
        )
}

/// A removed flow is gone for good: once its identifier resolves to nothing, it
/// does so ever after, however many flows come into its place and leave it.
pub proof fn law_stale_id_never_resolves<T>(
    tables: Seq<FlowTable<T>>,
    id: FlowId,
    from: int,
    to: int,
)
    requires
        0 <= from < to < tables.len(),
        tables[from].lookup(id) is Some,
        tables[from + 1].lookup(id) is None,
        forall|i: int|
            from <= i < to ==> table_step(#[trigger] tables[i], tables[i + 1]),
    ensures
        tables[to].lookup(id) is None,
{
    lemma_stale_id(tables, id, from, to);
}

/// A place whose flow left has a later generation or is retired.
proof fn lemma_stale_id<T>(tables: Seq<FlowTable<T>>, id: FlowId, from: int, to: int)
    requires
        0 <= from < to < tables.len(),
        tables[from].lookup(id) is Some,
        tables[from + 1].lookup(id) is None,
        forall|i: int|
            from <= i < to ==> table_step(#[trigger] tables[i], tables[i + 1]),
    ensures
        tables[to].lookup(id) is None,
        id.slot < tables[to].slots().len(),
        ({
            let slot = tables[to].slots()[id.slot as int];
            slot.generation > id.generation || slot.retired && slot.value is None
                && slot.generation == id.generation
        }),
    decreases to - from,
{
    assert(table_step(tables[to - 1], tables[to]));
    let s = id.slot as int;
    if to == from + 1 {
        assert(place_step(tables[from].slots()[s], tables[to].slots()[s]));
    } else {
        lemma_stale_id(tables, id, from, to - 1);
        assert(place_step(tables[to - 1].slots()[s], tables[to].slots()[s]));
    }
}

/// A place whose flow waits for the flush is not handed out again before it.
pub proof fn law_deferred_place_is_not_reused<T>(table: FlowTable<T>, i: int, j: int)
    requires
        table.wf(),
        0 <= i < table.deferred().len(),
        0 <= j < table.free().len(),
    ensures
        table.free()[j] != table.deferred()[i].slot,
{
    assert(table.lookup(table.deferred()[i]) is Some);
    assert(table.slots()[table.free()[j] as int].value is None);
}

/// The resources are numbered from one to six, and a token names its resource by
/// that number.
pub proof fn law_resources_are_numbered(resource: Resource)
    ensures
        Resource::UpstreamSocket.number() == 1,
        Resource::Tap.number() == 2,
        Resource::Timer.number() == 3,
        Resource::Control.number() == 4,
        Resource::DnsUpstream.number() == 5,
        Resource::UdpSocket.number() == 6,
        token_resource((resource.number() * 0x10_0000) as u64) == Some(resource),
{
}

/// The place of a flow that left takes the next generation, or is retired with
/// the last, and holds no flow.
pub proof fn law_left_place_has_the_next_generation<T>(slot: Slot<T>)
    ensures
        vacated(slot).value is None,
        slot.generation < 0xffff_ffff ==> vacated(slot).generation == slot.generation + 1
            && vacated(slot).retired == slot.retired,
        slot.generation == 0xffff_ffff ==> vacated(slot).retired,
{
}

/// A flow is found by its place and its generation, and by nothing else.
pub proof fn law_flow_is_found_by_place_and_generation<T>(table: FlowTable<T>, id: FlowId)
    ensures
        table.lookup(id) is Some ==> id.slot < table.slots().len()
            && table.slots()[id.slot as int].generation == id.generation
            && table.slots()[id.slot as int].value == table.lookup(id),
        id.slot < table.slots().len() && table.slots()[id.slot as int].generation == id.generation
            ==> table.lookup(id) == table.slots()[id.slot as int].value,
{
}

/// Every occupied place is listed once under its identifier, and no empty one.
pub proof fn law_occupied_places_are_listed<T>(slots: Seq<Slot<T>>)
    requires
        slots.len() <= 0x10_0000,
    ensures
        forall|i: int|
            0 <= i < occupied(slots).len() ==> {
                let id = #[trigger] occupied(slots)[i];
                &&& id.slot < slots.len()
                &&& slots[id.slot as int].value is Some
                &&& slots[id.slot as int].generation == id.generation
            },
        forall|s: int|
            0 <= s < slots.len() && (#[trigger] slots[s]).value is Some ==> occupied(
                slots,
            ).contains(FlowId { slot: s as u32, generation: slots[s].generation }),
    decreases slots.len(),
{
    if slots.len() > 0 {
        let front = slots.drop_last();
        law_occupied_places_are_listed(front);
        assert forall|i: int| 0 <= i < occupied(slots).len() implies {
            let id = #[trigger] occupied(slots)[i];
            &&& id.slot < slots.len()
            &&& slots[id.slot as int].value is Some
            &&& slots[id.slot as int].generation == id.generation
        } by {
            if i < occupied(front).len() {
                assert(occupied(slots)[i] == occupied(front)[i]);
                assert(front[occupied(front)[i].slot as int]
                    == slots[occupied(front)[i].slot as int]);
            }
        }
        assert forall|s: int|
            0 <= s < slots.len() && (#[trigger] slots[s]).value is Some implies occupied(
            slots,
        ).contains(FlowId { slot: s as u32, generation: slots[s].generation }) by {
            let id = FlowId { slot: s as u32, generation: slots[s].generation };
            if s < front.len() {
                assert(front[s] == slots[s]);
                assert(occupied(front).contains(id));
                let j = choose|j: int| 0 <= j < occupied(front).len() && occupied(front)[j] == id;
                assert(occupied(slots)[j] == id);
            } else {
                assert(occupied(slots)[occupied(slots).len() - 1] == id);
            }
        }
    }
}

} // verus!
