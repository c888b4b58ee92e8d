//! A hashed timer wheel.

use crate::time::{Duration, Instant};
use std::collections::VecDeque;
use vstd::multiset::Multiset;
use vstd::prelude::*;

verus! {

#[derive(Clone, Copy, Debug, PartialEq, Eq, Structural)]
pub enum TimerKind {
    Retransmit,
    Connect,
    Idle,
    TimeWait,
    ZeroWindowProbe,
}

#[derive(Clone, Copy, Debug, PartialEq, Eq)]
pub struct TimerEntry<T> {
    pub key: T,
    pub kind: TimerKind,
    pub deadline: Instant,
    pub sequence: u32,
}

/// The entries of `s` whose deadline has come, in order.
pub open spec fn due<T>(s: Seq<TimerEntry<T>>, now: Instant) -> Seq<TimerEntry<T>> {
    s.filter(|entry: TimerEntry<T>| entry.deadline <= now)
}

/// The entries of `s` whose deadline has not come, in order.
pub open spec fn waiting<T>(s: Seq<TimerEntry<T>>, now: Instant) -> Seq<TimerEntry<T>> {
    s.filter(|entry: TimerEntry<T>| entry.deadline > now)
}

/// The ticks between `epoch` and `at`. A tick of zero counts as one nanosecond.
pub open spec fn ticks_between(epoch: Instant, at: Instant, tick: Duration) -> u64 {
    if at <= epoch {
        0
    } else {
        ((at - epoch) / (if tick == 0 {
            1int
        } else {
            tick as int
        })) as u64
    }
}

/// What a pass over the ticks `from..=to` takes out of the buckets, and what it
/// leaves in them.
pub open spec fn pass<T>(
    buckets: Seq<Seq<TimerEntry<T>>>,
    from: int,
    to: int,
    now: Instant,
) -> (Seq<Seq<TimerEntry<T>>>, Seq<TimerEntry<T>>)
    decreases to - from + 1,
{
    if from > to || buckets.len() == 0 {
        (buckets, Seq::empty())
    } else {
        let slot = slot_of(from as u64, buckets.len());
        let left = buckets.update(slot, waiting(buckets[slot], now));
        let rest = pass(left, from + 1, to, now);
        (rest.0, due(buckets[slot], now) + rest.1)
    }
}

/// The bucket that tick `tick` falls into.
pub open spec fn slot_of(tick: u64, buckets: nat) -> int {
    (tick as usize) as int % buckets as int
}

/// What a wheel holds.
pub struct Wheel<T> {
    pub epoch: Instant,
    pub tick: Duration,
    /// The first tick that no pass has visited.
    pub cursor: u64,
    /// The buckets, each with its entries in the order they came in.
    pub buckets: Seq<Seq<TimerEntry<T>>>,
}

impl<T> Wheel<T> {
    /// A wheel without entries.
    pub open spec fn fresh(epoch: Instant, tick: Duration, buckets: nat) -> Wheel<T> {
        Wheel {
            epoch,
            tick,
            cursor: 0,
            buckets: Seq::new(buckets, |i: int| Seq::<TimerEntry<T>>::empty()),
        }
    }

    /// The bucket that an entry with this deadline belongs to.
    pub open spec fn slot(self, deadline: Instant) -> int {
        slot_of(ticks_between(self.epoch, deadline, self.tick), self.buckets.len())
    }

    /// There is a bucket, and every entry is in its own.
    pub open spec fn wf(self) -> bool {
        &&& self.buckets.len() > 0
        &&& forall|i: int, j: int|
            0 <= i < self.buckets.len() && 0 <= j < self.buckets[i].len() ==> self.slot(
                (#[trigger] self.buckets[i][j]).deadline,
            ) == i
    }

    /// The wheel with one more entry.
    pub open spec fn scheduled(self, entry: TimerEntry<T>) -> Wheel<T> {
        let slot = self.slot(entry.deadline);
        Wheel { buckets: self.buckets.update(slot, self.buckets[slot].push(entry)), ..self }
    }

    /// The wheel after a pass up to `now`, and what the pass took out of it.
    pub open spec fn expired(self, now: Instant) -> (Wheel<T>, Seq<TimerEntry<T>>) {
        let target = ticks_between(self.epoch, now, self.tick);
        let passed = pass(self.buckets, self.cursor as int, target as int, now);
        (
            Wheel {
                cursor: if self.cursor <= target {
                    (target + 1) as u64
                } else {
                    self.cursor
                },
                buckets: passed.0,
                ..self
            },
            passed.1,
        )
    }
}

pub struct TimerWheel<T> {
    epoch: Instant,
    tick: Duration,
    cursor: u64,
    buckets: Vec<VecDeque<TimerEntry<T>>>,
}

impl<T> View for TimerWheel<T> {
    type V = Wheel<T>;

    closed spec fn view(&self) -> Wheel<T> {
        Wheel {
            epoch: self.epoch,
            tick: self.tick,
            cursor: self.cursor,
            buckets: Seq::new(self.buckets@.len(), |i: int| self.buckets@[i]@),
        }
    }
}

impl<T: Copy> TimerWheel<T> {
    #[must_use]
    pub fn new(epoch: Instant, tick: Duration, buckets: usize) -> (wheel: TimerWheel<T>)
        requires
            buckets > 0,
        ensures
            wheel@.wf(),
            wheel@ == Wheel::<T>::fresh(epoch, tick, buckets as nat),
    {
        let mut list: Vec<VecDeque<TimerEntry<T>>> = Vec::new();
        let mut i: usize = 0;
        while i < buckets
            invariant
                i <= buckets,
                list@.len() == i,
                forall|j: int| 0 <= j < i ==> (#[trigger] list@[j])@.len() == 0,
            decreases buckets - i,
        {
            list.push(VecDeque::new());
            i = i + 1;
        }
        let wheel = TimerWheel { epoch, tick, cursor: 0, buckets: list };
        assert(wheel@.buckets =~= Seq::new(
            buckets as nat,
            |i: int| Seq::<TimerEntry<T>>::empty(),
        )) by {
            assert forall|j: int| 0 <= j < buckets implies #[trigger] wheel@.buckets[j]
                == Seq::<TimerEntry<T>>::empty() by {
                assert(wheel@.buckets[j] =~= Seq::<TimerEntry<T>>::empty());
            }
        }
        wheel
    }

    fn slot_index(&self, deadline: Instant) -> (slot: usize)
        requires
            self@.buckets.len() > 0,
        ensures
            slot == self@.slot(deadline),
            slot < self@.buckets.len(),
    {
        let elapsed: u64 = deadline.saturating_sub(self.epoch);
        let tick: u64 = if self.tick == 0 {
            1
        } else {
            self.tick
        };
        proof {
            lemma_quotient(elapsed, tick);
        }
        let ticks: u64 = elapsed / tick;
        (ticks as usize) % self.buckets.len()
    }

    pub fn schedule(&mut self, entry: TimerEntry<T>)
        requires
            old(self)@.wf(),
        ensures
            final(self)@.wf(),
            final(self)@ == old(self)@.scheduled(entry),
    {
        let slot: usize = self.slot_index(entry.deadline);
        let ghost before = self@.buckets;
        self.buckets[slot].push_back(entry);
        assert(self@.buckets =~= before.update(
            slot as int,
            before[slot as int].push(entry),
        ));
    }

    /// Takes the entries that are due out of the buckets of every tick up to
    /// `now` and appends them to `out`.
    pub fn expire(&mut self, now: Instant, out: &mut Vec<TimerEntry<T>>)
        requires
            old(self)@.wf(),
            ticks_between(old(self)@.epoch, now, old(self)@.tick) < u64::MAX,
        ensures
            final(self)@.wf(),
            final(self)@ == old(self)@.expired(now).0,
            final(out)@ == old(out)@ + old(self)@.expired(now).1,
    {
        let elapsed: u64 = now.saturating_sub(self.epoch);
        let tick: u64 = if self.tick == 0 {
            1
        } else {
            self.tick
        };
        proof {
            lemma_quotient(elapsed, tick);
        }
        let target: u64 = elapsed / tick;
        let ghost first = *self;
        let ghost before = out@;
        let ghost start = self.cursor as int;
        let ghost whole = pass(self@.buckets, start, target as int, now);
        assert(before + whole.1 =~= out@ + whole.1);
        while self.cursor <= target
            invariant
                self@.wf(),
                self.epoch == first.epoch,
                self.tick == first.tick,
                target < u64::MAX,
                self@.buckets.len() == first@.buckets.len(),
                first.cursor <= self.cursor,
                self.cursor > first.cursor ==> self.cursor <= target + 1,
                whole.0 == pass(self@.buckets, self.cursor as int, target as int, now).0,
                before + whole.1 == out@ + pass(
                    self@.buckets,
                    self.cursor as int,
                    target as int,
                    now,
                ).1,
            decreases target + 1 - self.cursor,
        {
            let ghost buckets = self@.buckets;
            let ghost taken = out@;
            let ghost rest = pass(self@.buckets, self.cursor as int, target as int, now);
            let slot: usize = (self.cursor as usize) % self.buckets.len();
            self.visit(slot, now, out);
            let ghost after = pass(self@.buckets, self.cursor + 1, target as int, now);
            assert(rest.1 == due(buckets[slot as int], now) + after.1);
            assert(taken + rest.1 =~= out@ + after.1);
            self.cursor = self.cursor.saturating_add(1);
        }
        assert(out@ + Seq::<TimerEntry<T>>::empty() =~= out@);
    }

    /// Takes the entries that are due out of one bucket.
    fn visit(&mut self, slot: usize, now: Instant, out: &mut Vec<TimerEntry<T>>)
        requires
            old(self)@.wf(),
            slot < old(self)@.buckets.len(),
        ensures
            final(self)@.wf(),
            final(self).epoch == old(self).epoch,
            final(self).tick == old(self).tick,
            final(self).cursor == old(self).cursor,
            final(self)@.buckets == old(self)@.buckets.update(
                slot as int,
                waiting(old(self)@.buckets[slot as int], now),
            ),
            final(out)@ == old(out)@ + due(old(self)@.buckets[slot as int], now),
    {
        let ghost first = *self;
        let ghost bucket = self@.buckets[slot as int];
        let ghost before = out@;
        let count: usize = self.buckets[slot].len();
        let mut i: usize = 0;
        proof {
            assert(bucket.take(0) =~= Seq::empty());
            assert(bucket.skip(0) =~= bucket);
            assert(waiting(bucket.take(0), now) =~= Seq::empty()) by {
                reveal(Seq::filter);
            }
            assert(due(bucket.take(0), now) =~= Seq::empty()) by {
                reveal(Seq::filter);
            }
            assert(self@.buckets.update(slot as int, bucket) =~= self@.buckets);
            assert(bucket + Seq::<TimerEntry<T>>::empty() =~= bucket);
            assert(before + Seq::<TimerEntry<T>>::empty() =~= before);
        }
        while i < count
            invariant
                i <= count,
                count == bucket.len(),
                slot < self@.buckets.len(),
                slot < first@.buckets.len(),
                first@.wf(),
                bucket == first@.buckets[slot as int],
                self.epoch == first.epoch,
                self.tick == first.tick,
                self.cursor == first.cursor,
                self@.buckets == first@.buckets.update(
                    slot as int,
                    bucket.skip(i as int) + waiting(bucket.take(i as int), now),
                ),
                out@ == before + due(bucket.take(i as int), now),
            decreases count - i,
        {
            let ghost buckets = self@.buckets;
            let ghost kept = waiting(bucket.take(i as int), now);
            assert(buckets[slot as int] == bucket.skip(i as int) + kept);
            let ghost queues = self.buckets@;
            assert(queues[slot as int]@ == buckets[slot as int]);
            let front = self.buckets[slot].pop_front();
            assert(self.buckets@ =~= queues.update(slot as int, self.buckets@[slot as int]));
            assert(self.buckets@[slot as int]@ =~= bucket.skip(i + 1) + kept);
            assert(self@.buckets =~= buckets.update(slot as int, bucket.skip(i + 1) + kept));
            assert(self@.buckets =~= first@.buckets.update(
                slot as int,
                bucket.skip(i + 1) + kept,
            ));
            assert(front == Some(bucket[i as int]));
            if let Some(entry) = front {
                proof {
                    lemma_filter_step(bucket, i as int, now);
                }
                if entry.deadline <= now {
                    out.push(entry);
                } else {
                    let home: usize = self.slot_index(entry.deadline);
                    assert(home == slot) by {
                        assert(first@.slot(first@.buckets[slot as int][i as int].deadline)
                            == slot);
                    }
                    let ghost rest = self.buckets@;
                    let ghost held = self@.buckets;
                    self.buckets[slot].push_back(entry);
                    assert(self.buckets@ =~= rest.update(slot as int, self.buckets@[slot as int]));
                    assert(self.buckets@[slot as int]@ =~= bucket.skip(i + 1) + kept.push(entry));
                    assert(self@.buckets =~= held.update(
                        slot as int,
                        bucket.skip(i + 1) + kept.push(entry),
                    ));
                    assert(self@.buckets =~= first@.buckets.update(
                        slot as int,
                        bucket.skip(i + 1) + kept.push(entry),
                    ));
                }
            }
            i = i + 1;
        }
        proof {
            assert(bucket.take(count as int) =~= bucket);
            assert(bucket.skip(count as int) + waiting(bucket, now) =~= waiting(bucket, now));
            assert forall|a: int, b: int|
                0 <= a < self@.buckets.len() && 0 <= b < self@.buckets[a].len() implies self@.slot(
                (#[trigger] self@.buckets[a][b]).deadline,
            ) == a by {
                if a == slot {
                    lemma_filter_from(bucket, now, b);
                } else {
                    assert(self@.buckets[a] == first@.buckets[a]);
                    assert(first@.slot(first@.buckets[a][b].deadline) == a);
                }
            }
        }
    }
}

proof fn lemma_quotient(elapsed: u64, tick: u64)
    requires
        tick > 0,
    ensures
        elapsed / tick <= elapsed,
{
    assert(elapsed / tick <= elapsed) by (nonlinear_arith)
        requires
            tick > 0,
    ;
}

proof fn lemma_filter_step<T>(bucket: Seq<TimerEntry<T>>, i: int, now: Instant)
    requires
        0 <= i < bucket.len(),
    ensures
        bucket[i].deadline <= now ==> {
            &&& due(bucket.take(i + 1), now) == due(bucket.take(i), now).push(bucket[i])
            &&& waiting(bucket.take(i + 1), now) == waiting(bucket.take(i), now)
        },
        bucket[i].deadline > now ==> {
            &&& due(bucket.take(i + 1), now) == due(bucket.take(i), now)
            &&& waiting(bucket.take(i + 1), now) == waiting(bucket.take(i), now).push(bucket[i])
        },
{
    reveal(Seq::filter);
    assert(bucket.take(i + 1).drop_last() =~= bucket.take(i));
    assert(bucket.take(i + 1).last() == bucket[i]);
}

proof fn lemma_filter_from<T>(bucket: Seq<TimerEntry<T>>, now: Instant, b: int)
    requires
        0 <= b < waiting(bucket, now).len(),
    ensures
        waiting(bucket, now)[b].deadline > now,
        exists|j: int| 0 <= j < bucket.len() && bucket[j] == waiting(bucket, now)[b],
{
    let kept = waiting(bucket, now);
    bucket.lemma_filter_pred(|entry: TimerEntry<T>| entry.deadline > now, b);
    assert(kept.contains(kept[b]));
    bucket.lemma_filter_contains_rev(|entry: TimerEntry<T>| entry.deadline > now, kept[b]);
}

/// All entries of the buckets, however they are spread.
pub open spec fn contents<T>(buckets: Seq<Seq<TimerEntry<T>>>) -> Multiset<TimerEntry<T>>
    decreases buckets.len(),
{
    if buckets.len() == 0 {
        Multiset::empty()
    } else {
        contents(buckets.drop_last()).add(buckets.last().to_multiset())
    }
}

/// A pass loses and invents nothing: what it takes out and what it leaves are
/// together what was there.
pub proof fn law_pass_conserves<T>(
    buckets: Seq<Seq<TimerEntry<T>>>,
    from: int,
    to: int,
    now: Instant,
)
    ensures
        contents(pass(buckets, from, to, now).0).add(pass(buckets, from, to, now).1.to_multiset())
            =~= contents(buckets),
    decreases to - from + 1,
{
    broadcast use {
        vstd::seq_lib::group_to_multiset_ensures,
        vstd::multiset::group_multiset_axioms,
    };

    if from > to || buckets.len() == 0 {
        assert(Seq::<TimerEntry<T>>::empty().to_multiset() =~= Multiset::empty());
    } else {
        let slot = slot_of(from as u64, buckets.len());
        let bucket = buckets[slot];
        let left = buckets.update(slot, waiting(bucket, now));
        let rest = pass(left, from + 1, to, now);
        law_pass_conserves(left, from + 1, to, now);
        lemma_contents_update(buckets, slot, waiting(bucket, now));
        lemma_split_conserves(bucket, now);
        vstd::seq_lib::lemma_multiset_commutative(due(bucket, now), rest.1);
        let whole = contents(rest.0).add((due(bucket, now) + rest.1).to_multiset());
        assert forall|e: TimerEntry<T>| whole.count(e) == contents(buckets).count(e) by {
            let updated = contents(left).add(bucket.to_multiset());
            let original = contents(buckets).add(waiting(bucket, now).to_multiset());
            assert(updated.count(e) == original.count(e));
            let split = due(bucket, now).to_multiset().add(waiting(bucket, now).to_multiset());
            assert(split.count(e) == bucket.to_multiset().count(e));
            let later = contents(rest.0).add(rest.1.to_multiset());
            assert(later.count(e) == contents(left).count(e));
        }
        assert(whole =~= contents(buckets));
    }
}

/// Everything that a pass takes out is due.
pub proof fn law_pass_takes_due_only<T>(
    buckets: Seq<Seq<TimerEntry<T>>>,
    from: int,
    to: int,
    now: Instant,
    i: int,
)
    requires
        0 <= i < pass(buckets, from, to, now).1.len(),
    ensures
        pass(buckets, from, to, now).1[i].deadline <= now,
    decreases to - from + 1,
{
    let slot = slot_of(from as u64, buckets.len());
    let taken = due(buckets[slot], now);
    let left = buckets.update(slot, waiting(buckets[slot], now));
    if i < taken.len() {
        buckets[slot].lemma_filter_pred(|entry: TimerEntry<T>| entry.deadline <= now, i);
    } else {
        law_pass_takes_due_only(left, from + 1, to, now, i - taken.len());
    }
}

/// After a pass no entry in a visited bucket is due.
pub proof fn law_visited_buckets_wait<T>(
    buckets: Seq<Seq<TimerEntry<T>>>,
    from: int,
    to: int,
    now: Instant,
    tick: int,
    i: int,
)
    requires
        0 <= from <= tick <= to <= u64::MAX,
        buckets.len() > 0,
        0 <= i < pass(buckets, from, to, now).0[slot_of(tick as u64, buckets.len())].len(),
    ensures
        pass(buckets, from, to, now).0[slot_of(tick as u64, buckets.len())][i].deadline > now,
    decreases to - from + 1,
{
    let slot = slot_of(from as u64, buckets.len());
    let left = buckets.update(slot, waiting(buckets[slot], now));
    if tick == from {
        assert forall|j: int| 0 <= j < left[slot].len() implies (#[trigger] left[slot][j]).deadline
            > now by {
            lemma_filter_from(buckets[slot], now, j);
        }
        lemma_pass_keeps_waiting(left, from + 1, to, now, slot, i);
    } else {
        law_visited_buckets_wait(left, from + 1, to, now, tick, i);
    }
}

/// An entry that is due, and whose tick no pass has visited yet, does not stay
/// in the wheel when it expires.
pub proof fn law_due_entry_leaves<T>(wheel: Wheel<T>, now: Instant, slot: int, i: int)
    requires
        wheel.wf(),
        0 <= slot < wheel.buckets.len(),
        ({
            let target = ticks_between(wheel.epoch, now, wheel.tick);
            let left = pass(wheel.buckets, wheel.cursor as int, target as int, now).0;
            &&& left.len() == wheel.buckets.len()
            &&& 0 <= i < left[slot].len()
            &&& wheel.slot(left[slot][i].deadline) == slot
            &&& wheel.cursor <= ticks_between(
                wheel.epoch,
                left[slot][i].deadline,
                wheel.tick,
            )
        }),
    ensures
        ({
            let target = ticks_between(wheel.epoch, now, wheel.tick);
            let left = pass(wheel.buckets, wheel.cursor as int, target as int, now).0;
            left[slot][i].deadline > now
        }),
{
    let target = ticks_between(wheel.epoch, now, wheel.tick);
    let left = pass(wheel.buckets, wheel.cursor as int, target as int, now).0;
    let deadline = left[slot][i].deadline;
    let tick = ticks_between(wheel.epoch, deadline, wheel.tick);
    if deadline <= now {
        lemma_ticks_monotonic(wheel.epoch, deadline, now, wheel.tick);
        law_visited_buckets_wait(
            wheel.buckets,
            wheel.cursor as int,
            target as int,
            now,
            tick as int,
            i,
        );
    }
}

proof fn lemma_ticks_monotonic(epoch: Instant, a: Instant, b: Instant, tick: Duration)
    requires
        a <= b,
    ensures
        ticks_between(epoch, a, tick) <= ticks_between(epoch, b, tick),
{
    let step = if tick == 0 {
        1int
    } else {
        tick as int
    };
    if a > epoch {
        let x = a - epoch;
        let y = b - epoch;
        vstd::arithmetic::div_mod::lemma_div_is_ordered(x, y, step);
        vstd::arithmetic::div_mod::lemma_div_nonincreasing(x, step);
        vstd::arithmetic::div_mod::lemma_div_nonincreasing(y, step);
        vstd::arithmetic::div_mod::lemma_div_pos_is_pos(x, step);
    } else if b > epoch {
        let y = b - epoch;
        vstd::arithmetic::div_mod::lemma_div_pos_is_pos(y, step);
        vstd::arithmetic::div_mod::lemma_div_nonincreasing(y, step);
    }
}

proof fn lemma_pass_keeps_waiting<T>(
    buckets: Seq<Seq<TimerEntry<T>>>,
    from: int,
    to: int,
    now: Instant,
    slot: int,
    i: int,
)
    requires
        0 <= slot < buckets.len(),
        forall|j: int| 0 <= j < buckets[slot].len() ==> (#[trigger] buckets[slot][j]).deadline > now,
        0 <= i < pass(buckets, from, to, now).0[slot].len(),
    ensures
        pass(buckets, from, to, now).0[slot][i].deadline > now,
    decreases to - from + 1,
{
    if from <= to {
        let other = slot_of(from as u64, buckets.len());
        let left = buckets.update(other, waiting(buckets[other], now));
        assert forall|j: int| 0 <= j < left[slot].len() implies (#[trigger] left[slot][j]).deadline
            > now by {
            if other == slot {
                lemma_filter_from(buckets[slot], now, j);
            }
        }
        lemma_pass_keeps_waiting(left, from + 1, to, now, slot, i);
    }
}

proof fn lemma_split_conserves<T>(bucket: Seq<TimerEntry<T>>, now: Instant)
    ensures
        due(bucket, now).to_multiset().add(waiting(bucket, now).to_multiset())
            =~= bucket.to_multiset(),
    decreases bucket.len(),
{
    broadcast use vstd::seq_lib::group_to_multiset_ensures;

    reveal(Seq::filter);
    if bucket.len() > 0 {
        lemma_split_conserves(bucket.drop_last(), now);
        assert(bucket =~= bucket.drop_last().push(bucket.last()));
    }
}

proof fn lemma_contents_update<T>(
    buckets: Seq<Seq<TimerEntry<T>>>,
    slot: int,
    bucket: Seq<TimerEntry<T>>,
)
    requires
        0 <= slot < buckets.len(),
    ensures
        contents(buckets.update(slot, bucket)).add(buckets[slot].to_multiset()) =~= contents(
            buckets,
        ).add(bucket.to_multiset()),
    decreases buckets.len(),
{
    broadcast use vstd::multiset::group_multiset_axioms;

    let updated = buckets.update(slot, bucket);
    let left = contents(updated).add(buckets[slot].to_multiset());
    let right = contents(buckets).add(bucket.to_multiset());
    assert(updated.len() == buckets.len());
    if slot == buckets.len() - 1 {
        assert(updated.drop_last() =~= buckets.drop_last());
        assert forall|e: TimerEntry<T>| left.count(e) == right.count(e) by {}
    } else {
        assert(updated.drop_last() =~= buckets.drop_last().update(slot, bucket));
        lemma_contents_update(buckets.drop_last(), slot, bucket);
        let inner_left = contents(updated.drop_last()).add(buckets[slot].to_multiset());
        let inner_right = contents(buckets.drop_last()).add(bucket.to_multiset());
        assert(updated.last() == buckets.last());
        assert forall|e: TimerEntry<T>| left.count(e) == right.count(e) by {
            assert(inner_left.count(e) == inner_right.count(e));
        }
    }
    assert(left =~= right);
}

proof fn lemma_pass_from<T>(
    buckets: Seq<Seq<TimerEntry<T>>>,
    from: int,
    to: int,
    now: Instant,
    slot: int,
)
    requires
        0 <= slot < buckets.len(),
    ensures
        pass(buckets, from, to, now).0.len() == buckets.len(),
        forall|i: int|
            0 <= i < pass(buckets, from, to, now).0[slot].len() ==> buckets[slot].contains(
                #[trigger] pass(buckets, from, to, now).0[slot][i],
            ),
    decreases to - from + 1,
{
    if from <= to {
        let other = slot_of(from as u64, buckets.len());
        let left = buckets.update(other, waiting(buckets[other], now));
        let kept = pass(buckets, from, to, now).0[slot];
        lemma_pass_from(left, from + 1, to, now, slot);
        assert forall|i: int| 0 <= i < kept.len() implies buckets[slot].contains(
            #[trigger] kept[i],
        ) by {
            assert(left[slot].contains(kept[i]));
            if other == slot {
                let j = choose|j: int| 0 <= j < left[slot].len() && left[slot][j] == kept[i];
                lemma_filter_from(buckets[slot], now, j);
            }
        }
    }
}

proof fn lemma_contents_has<T>(buckets: Seq<Seq<TimerEntry<T>>>, entry: TimerEntry<T>)
    requires
        contents(buckets).count(entry) > 0,
    ensures
        exists|s: int, i: int|
            0 <= s < buckets.len() && 0 <= i < buckets[s].len() && #[trigger] buckets[s][i]
                == entry,
    decreases buckets.len(),
{
    broadcast use {
        vstd::seq_lib::group_to_multiset_ensures,
        vstd::multiset::group_multiset_axioms,
    };

    if buckets.len() > 0 {
        if buckets.last().to_multiset().count(entry) > 0 {
            assert(buckets.last().contains(entry));
            let i = choose|i: int|
                0 <= i < buckets.last().len() && buckets.last()[i] == entry;
            assert(buckets[buckets.len() - 1][i] == entry);
        } else {
            lemma_contents_has(buckets.drop_last(), entry);
            let (s, i) = choose|s: int, i: int|
                0 <= s < buckets.drop_last().len() && 0 <= i < buckets.drop_last()[s].len()
                    && #[trigger] buckets.drop_last()[s][i] == entry;
            assert(buckets[s][i] == entry);
        }
    }
}

/// What is done to a wheel.
pub enum WheelStep<T> {
    Schedule(TimerEntry<T>),
    Expire(Instant),
}

/// The wheel after a step, and the entries that the step gives out.
pub open spec fn stepped<T>(wheel: Wheel<T>, step: WheelStep<T>) -> (
    Wheel<T>,
    Seq<TimerEntry<T>>,
) {
    match step {
        WheelStep::Schedule(entry) => (wheel.scheduled(entry), Seq::empty()),
        WheelStep::Expire(now) => wheel.expired(now),
    }
}

/// The wheel after all steps, and the entries that they give out together.
pub open spec fn run<T>(wheel: Wheel<T>, steps: Seq<WheelStep<T>>) -> (
    Wheel<T>,
    Seq<TimerEntry<T>>,
)
    decreases steps.len(),
{
    if steps.len() == 0 {
        (wheel, Seq::empty())
    } else {
        let before = run(wheel, steps.drop_last());
        let last = stepped(before.0, steps.last());
        (last.0, before.1 + last.1)
    }
}

/// The entries that the steps schedule.
pub open spec fn scheduled_in<T>(steps: Seq<WheelStep<T>>) -> Multiset<TimerEntry<T>>
    decreases steps.len(),
{
    if steps.len() == 0 {
        Multiset::empty()
    } else {
        match steps.last() {
            WheelStep::Schedule(entry) => scheduled_in(steps.drop_last()).insert(entry),
            WheelStep::Expire(_) => scheduled_in(steps.drop_last()),
        }
    }
}

proof fn lemma_fresh_is_empty<T>(buckets: Seq<Seq<TimerEntry<T>>>)
    requires
        forall|i: int| 0 <= i < buckets.len() ==> (#[trigger] buckets[i]).len() == 0,
    ensures
        contents(buckets) == Multiset::<TimerEntry<T>>::empty(),
    decreases buckets.len(),
{
    broadcast use {
        vstd::seq_lib::group_to_multiset_ensures,
        vstd::multiset::group_multiset_axioms,
    };

    if buckets.len() > 0 {
        lemma_fresh_is_empty(buckets.drop_last());
        assert(buckets.last() == buckets[buckets.len() - 1]);
        assert(buckets.last() =~= Seq::empty());
        assert(contents(buckets) =~= Multiset::empty());
    }
}

proof fn lemma_schedule_adds<T>(wheel: Wheel<T>, entry: TimerEntry<T>)
    requires
        wheel.buckets.len() > 0,
    ensures
        contents(wheel.scheduled(entry).buckets) == contents(wheel.buckets).insert(entry),
{
    broadcast use {
        vstd::seq_lib::group_to_multiset_ensures,
        vstd::multiset::group_multiset_axioms,
    };

    let slot = wheel.slot(entry.deadline);
    let bucket = wheel.buckets[slot];
    let after = contents(wheel.scheduled(entry).buckets);
    let expected = contents(wheel.buckets).insert(entry);
    lemma_contents_update(wheel.buckets, slot, bucket.push(entry));
    assert forall|e: TimerEntry<T>| after.count(e) == expected.count(e) by {
        let updated = after.add(bucket.to_multiset());
        let grown = contents(wheel.buckets).add(bucket.push(entry).to_multiset());
        assert(updated.count(e) == grown.count(e));
        assert(bucket.push(entry).to_multiset() == bucket.to_multiset().insert(entry));
    }
    assert(after =~= expected);
}

/// Whatever is done to a wheel, what it gave out in all and what it still holds
/// are together what was scheduled: an entry comes out at most once for each time
/// it was scheduled. And what a pass gives out is due by then.
pub proof fn law_entries_leave_once_and_due<T>(
    epoch: Instant,
    tick: Duration,
    buckets: nat,
    steps: Seq<WheelStep<T>>,
)
    requires
        buckets > 0,
    ensures
        ({
            let end = run(Wheel::<T>::fresh(epoch, tick, buckets), steps);
            &&& end.0.buckets.len() == buckets
            &&& contents(end.0.buckets).add(end.1.to_multiset()) == scheduled_in(steps)
            &&& forall|entry: TimerEntry<T>|
                #![trigger end.1.to_multiset().count(entry)]
                end.1.to_multiset().count(entry) <= scheduled_in(steps).count(entry)
        }),
        steps.len() > 0 ==> match steps.last() {
            WheelStep::Expire(now) => {
                let before = run(Wheel::<T>::fresh(epoch, tick, buckets), steps.drop_last()).0;
                forall|i: int|
                    0 <= i < before.expired(now).1.len() ==> (
                    #[trigger] before.expired(now).1[i]).deadline <= now
            },
            WheelStep::Schedule(_) => true,
        },
    decreases steps.len(),
{
    broadcast use {
        vstd::seq_lib::group_to_multiset_ensures,
        vstd::multiset::group_multiset_axioms,
    };

    let fresh = Wheel::<T>::fresh(epoch, tick, buckets);
    let end = run(fresh, steps);
    if steps.len() == 0 {
        lemma_fresh_is_empty(fresh.buckets);
        assert(Seq::<TimerEntry<T>>::empty().to_multiset() =~= Multiset::empty());
        assert(contents(end.0.buckets).add(end.1.to_multiset()) =~= scheduled_in(steps));
    } else {
        let earlier = steps.drop_last();
        let before = run(fresh, earlier);
        let last = stepped(before.0, steps.last());
        law_entries_leave_once_and_due(epoch, tick, buckets, earlier);
        vstd::seq_lib::lemma_multiset_commutative(before.1, last.1);
        match steps.last() {
            WheelStep::Schedule(entry) => {
                lemma_schedule_adds(before.0, entry);
                assert(before.1 + last.1 =~= before.1);
                assert(contents(end.0.buckets).add(end.1.to_multiset()) =~= scheduled_in(steps));
            },
            WheelStep::Expire(now) => {
                let target = ticks_between(epoch, now, tick) as int;
                lemma_run_keeps_clock(fresh, earlier);
                law_pass_conserves(before.0.buckets, before.0.cursor as int, target, now);
                lemma_pass_from(before.0.buckets, before.0.cursor as int, target, now, 0);
                assert forall|i: int| 0 <= i < last.1.len() implies (
                #[trigger] last.1[i]).deadline <= now by {
                    law_pass_takes_due_only(
                        before.0.buckets,
                        before.0.cursor as int,
                        target,
                        now,
                        i,
                    );
                }
                let whole = contents(end.0.buckets).add(end.1.to_multiset());
                assert forall|e: TimerEntry<T>| whole.count(e) == scheduled_in(steps).count(
                    e,
                ) by {
                    let passed = contents(last.0.buckets).add(last.1.to_multiset());
                    assert(passed.count(e) == contents(before.0.buckets).count(e));
                    let held = contents(before.0.buckets).add(before.1.to_multiset());
                    assert(held.count(e) == scheduled_in(earlier).count(e));
                }
                assert(whole =~= scheduled_in(steps));
            },
        }
    }
    assert forall|entry: TimerEntry<T>|
        #![trigger end.1.to_multiset().count(entry)]
        end.1.to_multiset().count(entry) <= scheduled_in(steps).count(entry) by {
        let whole = contents(end.0.buckets).add(end.1.to_multiset());
        assert(whole.count(entry) == scheduled_in(steps).count(entry));
    }
}

proof fn lemma_run_keeps_clock<T>(wheel: Wheel<T>, steps: Seq<WheelStep<T>>)
    ensures
        run(wheel, steps).0.epoch == wheel.epoch,
        run(wheel, steps).0.tick == wheel.tick,
    decreases steps.len(),
{
    if steps.len() > 0 {
        lemma_run_keeps_clock(wheel, steps.drop_last());
    }
}

proof fn lemma_scheduling_only<T>(wheel: Wheel<T>, steps: Seq<WheelStep<T>>)
    requires
        wheel.wf(),
        forall|i: int| 0 <= i < steps.len() ==> (#[trigger] steps[i]) is Schedule,
    ensures
        run(wheel, steps).0.wf(),
        run(wheel, steps).0.cursor == wheel.cursor,
        run(wheel, steps).1.len() == 0,
    decreases steps.len(),
{
    if steps.len() > 0 {
        let before = run(wheel, steps.drop_last()).0;
        lemma_scheduling_only(wheel, steps.drop_last());
        assert(steps[steps.len() - 1] is Schedule);
        let entry = steps.last()->Schedule_0;
        let after = before.scheduled(entry);
        assert forall|i: int, j: int|
            0 <= i < after.buckets.len() && 0 <= j < after.buckets[i].len() implies after.slot(
            (#[trigger] after.buckets[i][j]).deadline,
        ) == i by {
            if j < before.buckets[i].len() {
                assert(after.buckets[i][j] == before.buckets[i][j]);
            }
        }
    }
}

/// The first pass over a wheel gives out exactly the scheduled entries that are
/// due, each as often as it was scheduled; the others stay.
pub proof fn law_first_pass_takes_what_is_due<T>(
    epoch: Instant,
    tick: Duration,
    buckets: nat,
    steps: Seq<WheelStep<T>>,
    now: Instant,
)
    requires
        buckets > 0,
        forall|i: int| 0 <= i < steps.len() ==> (#[trigger] steps[i]) is Schedule,
    ensures
        ({
            let wheel = run(Wheel::<T>::fresh(epoch, tick, buckets), steps).0;
            let (left, taken) = wheel.expired(now);
            &&& taken.to_multiset() == scheduled_in(steps).filter(
                |entry: TimerEntry<T>| entry.deadline <= now,
            )
            &&& contents(left.buckets) == scheduled_in(steps).filter(
                |entry: TimerEntry<T>| entry.deadline > now,
            )
        }),
{
    broadcast use {
        vstd::seq_lib::group_to_multiset_ensures,
        vstd::multiset::group_multiset_axioms,
    };

    let fresh = Wheel::<T>::fresh(epoch, tick, buckets);
    let given = run(fresh, steps);
    let wheel = given.0;
    let (left, taken) = wheel.expired(now);
    let all = scheduled_in(steps);
    let target = ticks_between(epoch, now, tick) as int;
    lemma_scheduling_only(fresh, steps);
    lemma_run_keeps_clock(fresh, steps);
    law_entries_leave_once_and_due(epoch, tick, buckets, steps);
    assert(given.1 =~= Seq::empty());
    assert(contents(wheel.buckets) =~= all);
    law_pass_conserves(wheel.buckets, 0, target, now);
    assert forall|e: TimerEntry<T>| e.deadline > now implies taken.to_multiset().count(e) == 0 by {
        if taken.contains(e) {
            let i = choose|i: int| 0 <= i < taken.len() && taken[i] == e;
            law_pass_takes_due_only(wheel.buckets, 0, target, now, i);
        }
    }
    assert forall|e: TimerEntry<T>| e.deadline <= now implies contents(left.buckets).count(e)
        == 0 by {
        if contents(left.buckets).count(e) > 0 {
            lemma_contents_has(left.buckets, e);
            let (s, i) = choose|s: int, i: int|
                0 <= s < left.buckets.len() && 0 <= i < left.buckets[s].len()
                    && #[trigger] left.buckets[s][i] == e;
            lemma_pass_from(wheel.buckets, 0, target, now, 0);
            lemma_pass_from(wheel.buckets, 0, target, now, s);
            assert(wheel.buckets[s].contains(left.buckets[s][i]));
            let j = choose|j: int| 0 <= j < wheel.buckets[s].len() && wheel.buckets[s][j] == e;
            assert(wheel.slot(wheel.buckets[s][j].deadline) == s);
            law_due_entry_leaves(wheel, now, s, i);
        }
    }
    let whole = contents(left.buckets).add(taken.to_multiset());
    assert(whole == all);
    assert forall|e: TimerEntry<T>| whole.count(e) == contents(left.buckets).count(e)
        + taken.to_multiset().count(e) by {}
    assert(taken.to_multiset() =~= all.filter(|entry: TimerEntry<T>| entry.deadline <= now));
    assert(contents(left.buckets) =~= all.filter(|entry: TimerEntry<T>| entry.deadline > now));
}

} // verus!
