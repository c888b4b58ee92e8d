//! Frames lent out of the fixed pools.

use super::metrics::{Metrics, count, counted};
use crate::dataplane::buffer::{BufferPool, FrameBuffer};
use vstd::prelude::*;

verus! {

/// Which fixed pool a frame belongs to: MTU-sized frames for regular traffic or
/// the small pool of maximum-size super-frames.
#[derive(Clone, Copy, Debug, PartialEq, Eq, Structural)]
pub enum FrameTier {
    Mtu,
    Gso,
}

pub struct PooledFrame {
    pub tier: FrameTier,
    pub pool_index: usize,
    pub buffer: FrameBuffer,
}

impl PooledFrame {
    /// Whether two frames come from the same place.
    pub open spec fn same_place(&self, other: &PooledFrame) -> bool {
        self.tier == other.tier && self.pool_index == other.pool_index
    }
}

/// Whether every buffer that is in the pool has room for `capacity` octets.
pub open spec fn holds_capacity(pool: BufferPool, capacity: usize) -> bool {
    forall|p: int|
        0 <= p < pool.places().len() && (#[trigger] pool.places()[p]) is Some
            ==> pool.places()[p].unwrap().storage().len() == capacity
}

pub struct Pools {
    frame_pool: BufferPool,
    gso_pool: BufferPool,
    mtu_frame_capacity: usize,
    gso_frame_capacity: usize,
}

impl Pools {
    pub closed spec fn pool(&self, tier: FrameTier) -> BufferPool {
        match tier {
            FrameTier::Mtu => self.frame_pool,
            FrameTier::Gso => self.gso_pool,
        }
    }

    /// The room in a frame of the tier.
    pub closed spec fn room(&self, tier: FrameTier) -> usize {
        match tier {
            FrameTier::Mtu => self.mtu_frame_capacity,
            FrameTier::Gso => self.gso_frame_capacity,
        }
    }

    pub open spec fn wf(&self) -> bool {
        &&& self.pool(FrameTier::Mtu).wf()
        &&& self.pool(FrameTier::Gso).wf()
        &&& holds_capacity(self.pool(FrameTier::Mtu), self.room(FrameTier::Mtu))
        &&& holds_capacity(self.pool(FrameTier::Gso), self.room(FrameTier::Gso))
    }

    /// Whether the frame is out of the pools, and of the size of its tier.
    pub open spec fn lent(&self, frame: &PooledFrame) -> bool {
        &&& frame.pool_index < self.pool(frame.tier).places().len()
        &&& self.pool(frame.tier).places()[frame.pool_index as int] is None
        &&& frame.buffer.storage().len() == self.room(frame.tier)
    }

    /// The pools with another pool in one tier.
    pub open spec fn with(&self, before: &Pools, tier: FrameTier) -> bool {
        &&& forall|t: FrameTier| #[trigger] self.room(t) == before.room(t)
        &&& forall|t: FrameTier| t != tier ==> #[trigger] self.pool(t) == before.pool(t)
    }

    /// The pools after `frame` was lent.
    pub open spec fn lending(&self, before: &Pools, frame: &PooledFrame) -> bool {
        &&& self.with(before, frame.tier)
        &&& before.pool(frame.tier).free().len() > 0
        &&& frame.pool_index == before.pool(frame.tier).free().last()
        &&& before.pool(frame.tier).places()[frame.pool_index as int] == Some(frame.buffer)
        &&& self.pool(frame.tier).places() == before.pool(frame.tier).places().update(
            frame.pool_index as int,
            None,
        )
        &&& self.pool(frame.tier).free() == before.pool(frame.tier).free().drop_last()
    }

    /// The pools after the frame of this place was taken back.
    pub open spec fn given_back(&self, before: &Pools, tier: FrameTier, index: usize) -> bool {
        &&& self.with(before, tier)
        &&& self.pool(tier).free() == before.pool(tier).free().push(index)
    }

    /// Whether one ordinary frame more is out than before.
    pub open spec fn one_out(&self, before: &Pools) -> bool {
        &&& self.with(before, FrameTier::Mtu)
        &&& self.pool(FrameTier::Mtu).free() == before.pool(FrameTier::Mtu).free().drop_last()
    }

    /// Whether the same frames are out as before.
    pub open spec fn none_out(&self, before: &Pools) -> bool {
        &&& forall|t: FrameTier| #[trigger] self.room(t) == before.room(t)
        &&& forall|t: FrameTier| (#[trigger] self.pool(t)).free() == before.pool(t).free()
    }

    /// The tier that a frame for `required` octets is lent from, if there is
    /// one.
    pub open spec fn tier_for(&self, required: usize) -> Option<FrameTier> {
        if required > self.room(FrameTier::Mtu) && self.pool(FrameTier::Gso).free().len() > 0 {
            Some(FrameTier::Gso)
        } else if self.pool(FrameTier::Mtu).free().len() > 0 {
            Some(FrameTier::Mtu)
        } else {
            None
        }
    }

    /// The counters after a frame for `required` octets was asked for.
    pub open spec fn acquire_metrics(&self, required: usize, metrics: Metrics) -> Metrics {
        let dry = required > self.room(FrameTier::Mtu) && self.pool(FrameTier::Gso).free().len()
            == 0;
        Metrics {
            gso_pool_exhaustions: if dry {
                counted(metrics.gso_pool_exhaustions)
            } else {
                metrics.gso_pool_exhaustions
            },
            frame_pool_exhaustions: if self.tier_for(required) is None {
                counted(metrics.frame_pool_exhaustions)
            } else {
                metrics.frame_pool_exhaustions
            },
            ..metrics
        }
    }

    #[must_use]
    pub fn new(
        frames: usize,
        frame_capacity: usize,
        gso_frames: usize,
        gso_frame_capacity: usize,
    ) -> (pools: Pools)
        ensures
            pools.wf(),
            pools.room(FrameTier::Mtu) == frame_capacity,
            pools.room(FrameTier::Gso) == gso_frame_capacity,
            pools.pool(FrameTier::Mtu).free().len() == frames,
            pools.pool(FrameTier::Gso).free().len() == gso_frames,
            pools.pool(FrameTier::Mtu).places().len() == frames,
            pools.pool(FrameTier::Gso).places().len() == gso_frames,
    {
        Pools {
            frame_pool: BufferPool::new(frames, frame_capacity),
            gso_pool: BufferPool::new(gso_frames, gso_frame_capacity),
            mtu_frame_capacity: frame_capacity,
            gso_frame_capacity,
        }
    }

    /// How many ordinary frames can still be lent.
    #[must_use]
    pub fn available(&self) -> (count: usize)
        ensures
            count == self.pool(FrameTier::Mtu).free().len(),
    {
        self.frame_pool.available()
    }

    #[must_use]
    pub fn mtu_frame_capacity(&self) -> (capacity: usize)
        ensures
            capacity == self.room(FrameTier::Mtu),
    {
        self.mtu_frame_capacity
    }

    /// Lends an ordinary frame, or counts that there is none.
    pub fn acquire_frame(&mut self, metrics: &mut Metrics) -> (lent: Option<PooledFrame>)
        requires
            old(self).wf(),
        ensures
            final(self).wf(),
            match lent {
                Some(frame) => {
                    &&& frame.tier == FrameTier::Mtu
                    &&& final(self).lending(old(self), &frame)
                    &&& final(self).lent(&frame)
                    &&& *final(metrics) == *old(metrics)
                },
                None => {
                    &&& old(self).pool(FrameTier::Mtu).free().len() == 0
                    &&& *final(self) == *old(self)
                    &&& *final(metrics) == (Metrics {
                        frame_pool_exhaustions: counted(old(metrics).frame_pool_exhaustions),
                        ..*old(metrics)
                    })
                },
            },
    {
        if self.frame_pool.available() == 0 {
            metrics.frame_pool_exhaustions = count(metrics.frame_pool_exhaustions);
            return None;
        }
        let ghost before = *self;
        match self.frame_pool.acquire() {
            Some((pool_index, buffer)) => {
                assert(before.pool(FrameTier::Mtu).places()[pool_index as int] is Some);
                assert(forall|p: int|
                    0 <= p < self.frame_pool.places().len() && (
                    #[trigger] self.frame_pool.places()[p]) is Some
                        ==> before.frame_pool.places()[p] is Some);
                Some(PooledFrame { tier: FrameTier::Mtu, pool_index, buffer })
            },
            None => None,
        }
    }

    /// Lends a frame for `required` octets. Beyond an ordinary frame it comes
    /// from the large tier; a dry one degrades to an ordinary frame, the send
    /// then carries less, and that is counted.
    pub fn acquire_payload_frame(&mut self, required: usize, metrics: &mut Metrics) -> (lent:
        Option<PooledFrame>)
        requires
            old(self).wf(),
        ensures
            final(self).wf(),
            *final(metrics) == old(self).acquire_metrics(required, *old(metrics)),
            match lent {
                Some(frame) => {
                    &&& old(self).tier_for(required) == Some(frame.tier)
                    &&& final(self).lending(old(self), &frame)
                    &&& final(self).lent(&frame)
                },
                None => {
                    &&& old(self).tier_for(required) is None
                    &&& *final(self) == *old(self)
                },
            },
    {
        if required > self.mtu_frame_capacity {
            if self.gso_pool.available() > 0 {
                let ghost before = *self;
                if let Some((pool_index, buffer)) = self.gso_pool.acquire() {
                    assert(before.pool(FrameTier::Gso).places()[pool_index as int] is Some);
                    assert(forall|p: int|
                        0 <= p < self.gso_pool.places().len() && (
                        #[trigger] self.gso_pool.places()[p]) is Some
                            ==> before.gso_pool.places()[p] is Some);
                    return Some(PooledFrame { tier: FrameTier::Gso, pool_index, buffer });
                }
            }
            metrics.gso_pool_exhaustions = count(metrics.gso_pool_exhaustions);
        }
        self.acquire_frame(metrics)
    }

    /// Takes a lent frame back.
    pub fn release_frame(&mut self, frame: PooledFrame)
        requires
            old(self).wf(),
            old(self).lent(&frame),
        ensures
            final(self).wf(),
            final(self).with(old(self), frame.tier),
            final(self).pool(frame.tier).places() == old(self).pool(frame.tier).places().update(
                frame.pool_index as int,
                Some(frame.buffer),
            ),
            final(self).pool(frame.tier).free() == old(self).pool(frame.tier).free().push(
                frame.pool_index,
            ),
    {
        let ghost before = *self;
        match frame.tier {
            FrameTier::Mtu => {
                self.frame_pool.release(frame.pool_index, frame.buffer);
                assert(forall|p: int|
                    0 <= p < self.frame_pool.places().len() && p != frame.pool_index && (
                    #[trigger] self.frame_pool.places()[p]) is Some
                        ==> before.frame_pool.places()[p] is Some);
            },
            FrameTier::Gso => {
                self.gso_pool.release(frame.pool_index, frame.buffer);
                assert(forall|p: int|
                    0 <= p < self.gso_pool.places().len() && p != frame.pool_index && (
                    #[trigger] self.gso_pool.places()[p]) is Some
                        ==> before.gso_pool.places()[p] is Some);
            },
        }
    }
}

/// A frame that is taken back leaves every other lent frame lent.
pub proof fn law_release_keeps_others_lent(
    before: Pools,
    after: Pools,
    released: PooledFrame,
    other: PooledFrame,
)
    requires
        after.with(&before, released.tier),
        after.pool(released.tier).places() == before.pool(released.tier).places().update(
            released.pool_index as int,
            Some(released.buffer),
        ),
        before.lent(&released),
        before.lent(&other),
        !released.same_place(&other),
    ensures
        after.lent(&other),
{
    assert(after.room(other.tier) == before.room(other.tier));
    if other.tier != released.tier {
        assert(after.pool(other.tier) == before.pool(other.tier));
    }
}

/// Lending a frame and taking it back leaves the same frames out.
pub proof fn law_frame_taken_back(before: Pools, between: Pools, after: Pools, frame: PooledFrame)
    requires
        between.lending(&before, &frame),
        after.given_back(&between, frame.tier, frame.pool_index),
    ensures
        after.none_out(&before),
{
    assert forall|t: FrameTier| (#[trigger] after.pool(t)).free() == before.pool(t).free() by {
        if t == frame.tier {
            assert(after.pool(t).free() =~= before.pool(t).free());
        } else {
            assert(after.pool(t) == between.pool(t));
            assert(between.pool(t) == before.pool(t));
        }
    }
    assert forall|t: FrameTier| #[trigger] after.room(t) == before.room(t) by {
        assert(after.room(t) == between.room(t));
        assert(between.room(t) == before.room(t));
    }
}

/// A frame that is lent is not one that is out already, and those stay out.
pub proof fn law_lent_frames_are_distinct(
    before: Pools,
    after: Pools,
    frame: PooledFrame,
    other: PooledFrame,
)
    requires
        before.wf(),
        after.lending(&before, &frame),
        before.lent(&other),
    ensures
        !frame.same_place(&other),
        after.lent(&other),
{
    assert(after.room(other.tier) == before.room(other.tier));
    let pool = before.pool(frame.tier);
    assert(pool.wf());
    assert(pool.free()[pool.free().len() - 1] < pool.places().len());
    if other.tier != frame.tier {
        assert(after.pool(other.tier) == before.pool(other.tier));
    }
}

/// A frame is lent from the large tier exactly when an ordinary one is too small
/// and a large one is free. Otherwise an ordinary one is lent while there is
/// any, and only then is the request turned down and counted.
pub proof fn law_large_frames_are_for_large_packets(
    pools: Pools,
    required: usize,
    metrics: Metrics,
)
    ensures
        required <= pools.room(FrameTier::Mtu) ==> pools.tier_for(required) != Some(FrameTier::Gso),
        required > pools.room(FrameTier::Mtu) && pools.pool(FrameTier::Gso).free().len() > 0
            ==> pools.tier_for(required) == Some(FrameTier::Gso),
        pools.pool(FrameTier::Mtu).free().len() > 0 ==> pools.tier_for(required) is Some,
        pools.tier_for(required) == Some(FrameTier::Mtu) ==> pools.pool(
            FrameTier::Mtu,
        ).free().len() > 0,
        pools.tier_for(required) is None <==> pools.acquire_metrics(
            required,
            Metrics { frame_pool_exhaustions: 0, ..metrics },
        ).frame_pool_exhaustions == 1,
        required <= pools.room(FrameTier::Mtu) ==> pools.acquire_metrics(
            required,
            metrics,
        ).gso_pool_exhaustions == metrics.gso_pool_exhaustions,
        required > pools.room(FrameTier::Mtu) && pools.pool(FrameTier::Gso).free().len() == 0
            && metrics.gso_pool_exhaustions < u64::MAX ==> pools.acquire_metrics(
            required,
            metrics,
        ).gso_pool_exhaustions == metrics.gso_pool_exhaustions + 1,
        pools.acquire_metrics(required, metrics).tap_tx_packets == metrics.tap_tx_packets,
{
}

} // verus!
