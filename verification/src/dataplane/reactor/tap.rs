//! Frames on their way to the TAP device.

use super::entry::FlowEntry;
use super::frame::Error;
use super::ledger::Ledger;
use super::metrics::{Metrics, count, counted};
use super::pools::{FrameTier, PooledFrame, Pools};
use super::segment::{RETRANSMIT_INITIAL, SentSegment, one_if, payload_sum};
use crate::dataplane::flow_table::FlowId;
use crate::tcp_adapter::flow::{FlowState, SendPlan};
use crate::tcp_adapter::sequence;
use crate::tcp_adapter::sequence::ahead;
use crate::time::Instant;
use std::collections::VecDeque;
use vstd::prelude::*;

verus! {

/// A frame that waits to be written, or was handed out to be.
pub struct QueuedFrame {
    pub flow: Option<FlowId>,
    pub frame: PooledFrame,
    pub plan: Option<SendPlan>,
    pub reserved_retained: usize,
}

/// Sends that a test lets go missing: each counter is how many more.
#[derive(Clone, Copy, Debug, PartialEq, Eq, Structural)]
pub struct InjectedDrops {
    pub syn_ack: usize,
    pub fin: usize,
    pub data: usize,
    pub ack: usize,
}

impl InjectedDrops {
    /// Whether the next send of this plan goes missing, and what is left.
    pub open spec fn taken(self, plan: SendPlan) -> (bool, InjectedDrops) {
        if plan.syn && self.syn_ack > 0 {
            (true, InjectedDrops { syn_ack: (self.syn_ack - 1) as usize, ..self })
        } else if plan.fin && self.fin > 0 {
            (true, InjectedDrops { fin: (self.fin - 1) as usize, ..self })
        } else if plan.length > 0 && self.data > 0 {
            (true, InjectedDrops { data: (self.data - 1) as usize, ..self })
        } else if !plan.syn && !plan.fin && plan.length == 0 && self.ack > 0 {
            (true, InjectedDrops { ack: (self.ack - 1) as usize, ..self })
        } else {
            (false, self)
        }
    }

    pub fn take(&mut self, plan: SendPlan) -> (dropped: bool)
        ensures
            (dropped, *final(self)) == old(self).taken(plan),
    {
        if plan.syn && self.syn_ack > 0 {
            self.syn_ack = self.syn_ack - 1;
            true
        } else if plan.fin && self.fin > 0 {
            self.fin = self.fin - 1;
            true
        } else if plan.length > 0 && self.data > 0 {
            self.data = self.data - 1;
            true
        } else if !plan.syn && !plan.fin && plan.length == 0 && self.ack > 0 {
            self.ack = self.ack - 1;
            true
        } else {
            false
        }
    }
}

/// What becomes of a frame that is to be sent.
pub enum Offer {
    /// It would hold more bytes than the limit allows; it is back in its pool.
    Refused,
    /// It counts as sent, but goes missing.
    Missing(QueuedFrame),
    /// It is to be written now.
    Write(QueuedFrame),
    /// It waits behind other frames.
    Queued,
}

/// How a write to the TAP device went.
#[derive(Clone, Copy, Debug, PartialEq, Eq, Structural)]
pub enum WriteOutcome {
    Complete,
    Short,
    WouldBlock,
    Failed,
}

/// What becomes of a frame after it was written.
pub enum Settled {
    /// It was sent: the flow takes note, and its frame goes back.
    Sent(QueuedFrame),
    /// It waits.
    Queued,
    /// It was cut off, which a TAP device never does.
    Short,
    /// The device failed.
    Failed,
}

/// The octets that a plan holds back until the namespace acknowledges them.
pub open spec fn held_by(plan: Option<SendPlan>) -> usize {
    match plan {
        Some(plan) => plan.length,
        None => 0,
    }
}

pub struct TapOutput {
    pools: Pools,
    queue: VecDeque<QueuedFrame>,
    drops: InjectedDrops,
}

impl TapOutput {
    pub closed spec fn pools(&self) -> Pools {
        self.pools
    }

    /// The frames that wait, the next to be written first.
    pub closed spec fn queue(&self) -> Seq<QueuedFrame> {
        self.queue@
    }

    pub closed spec fn drops(&self) -> InjectedDrops {
        self.drops
    }

    /// Every waiting frame is out of the pools, and no two are the same.
    pub open spec fn wf(&self) -> bool {
        &&& self.pools().wf()
        &&& forall|i: int|
            0 <= i < self.queue().len() ==> self.pools().lent(&(#[trigger] self.queue()[i]).frame)
        &&& forall|i: int, j: int|
            0 <= i < j < self.queue().len() ==> !(#[trigger] self.queue()[i]).frame.same_place(
                &(#[trigger] self.queue()[j]).frame,
            )
    }

    /// Whether the frame is out of the pools and does not wait.
    pub open spec fn handed_out(&self, frame: &PooledFrame) -> bool {
        &&& self.pools().lent(frame)
        &&& forall|i: int|
            0 <= i < self.queue().len() ==> !(#[trigger] self.queue()[i]).frame.same_place(frame)
    }

    /// Whether a frame of the flow waits.
    pub open spec fn waits(&self, id: FlowId) -> bool {
        exists|i: int| 0 <= i < self.queue().len() && (#[trigger] self.queue()[i]).flow == Some(id)
    }

    #[must_use]
    pub fn new(pools: Pools, drops: InjectedDrops) -> (output: TapOutput)
        requires
            pools.wf(),
        ensures
            output.wf(),
            output.pools() == pools,
            output.queue().len() == 0,
            output.drops() == drops,
    {
        TapOutput { pools, queue: VecDeque::new(), drops }
    }

    #[must_use]
    pub fn queued(&self) -> (count: usize)
        ensures
            count == self.queue().len(),
    {
        self.queue.len()
    }

    #[must_use]
    pub fn available(&self) -> (count: usize)
        ensures
            count == self.pools().pool(super::pools::FrameTier::Mtu).free().len(),
    {
        self.pools.available()
    }

    #[must_use]
    pub fn mtu_frame_capacity(&self) -> (capacity: usize)
        ensures
            capacity == self.pools().room(super::pools::FrameTier::Mtu),
    {
        self.pools.mtu_frame_capacity()
    }

    /// Whether a frame of the flow waits to be written.
    #[must_use]
    pub fn frame_waits(&self, id: FlowId) -> (waits: bool)
        ensures
            waits == self.waits(id),
    {
        let mut i: usize = 0;
        while i < self.queue.len()
            invariant
                i <= self.queue@.len(),
                forall|j: int| 0 <= j < i ==> (#[trigger] self.queue@[j]).flow != Some(id),
            decreases self.queue@.len() - i,
        {
            if let Some(held) = self.queue[i].flow {
                if held == id {
                    assert(self.queue()[i as int].flow == Some(id));
                    return true;
                }
            }
            i = i + 1;
        }
        false
    }

    /// Lends a frame for `required` octets.
    pub fn acquire(&mut self, required: usize, metrics: &mut Metrics) -> (lent: Option<PooledFrame>)
        requires
            old(self).wf(),
        ensures
            final(self).wf(),
            final(self).queue() == old(self).queue(),
            final(self).drops() == old(self).drops(),
            *final(metrics) == old(self).pools().acquire_metrics(required, *old(metrics)),
            match lent {
                Some(frame) => {
                    &&& old(self).pools().tier_for(required) == Some(frame.tier)
                    &&& final(self).pools().lending(&old(self).pools(), &frame)
                    &&& final(self).handed_out(&frame)
                },
                None => {
                    &&& old(self).pools().tier_for(required) is None
                    &&& final(self).pools() == old(self).pools()
                },
            },
    {
        let ghost before = *self;
        let lent = self.pools.acquire_payload_frame(required, metrics);
        proof {
            if lent is Some {
                let frame = lent.unwrap();
                assert forall|i: int| 0 <= i < self.queue().len() implies {
                    &&& self.pools().lent(&(#[trigger] self.queue()[i]).frame)
                    &&& !self.queue()[i].frame.same_place(&frame)
                } by {
                    assert(before.pools().lent(&before.queue()[i].frame));
                    super::pools::law_lent_frames_are_distinct(
                        before.pools(),
                        self.pools(),
                        frame,
                        before.queue()[i].frame,
                    );
                }
            }
        }
        lent
    }

    /// Takes a frame back into its pool.
    pub fn release(&mut self, frame: PooledFrame)
        requires
            old(self).wf(),
            old(self).handed_out(&frame),
        ensures
            final(self).wf(),
            final(self).queue() == old(self).queue(),
            final(self).drops() == old(self).drops(),
            final(self).pools().given_back(&old(self).pools(), frame.tier, frame.pool_index),
            final(self).pools().pool(frame.tier).places() == old(self).pools().pool(
                frame.tier,
            ).places().update(frame.pool_index as int, Some(frame.buffer)),
    {
        let ghost before = *self;
        self.pools.release_frame(frame);
        proof {
            assert forall|i: int| 0 <= i < self.queue().len() implies self.pools().lent(
                &(#[trigger] self.queue()[i]).frame,
            ) by {
                assert(before.pools().lent(&before.queue()[i].frame));
                super::pools::law_release_keeps_others_lent(
                    before.pools(),
                    self.pools(),
                    frame,
                    before.queue()[i].frame,
                );
            }
        }
    }

    /// Reserves the octets of a frame and sends it on its way: behind the
    /// frames that wait, or at once.
    pub fn queue_tap(
        &mut self,
        ledger: &mut Ledger,
        flow: Option<FlowId>,
        frame: PooledFrame,
        plan: Option<SendPlan>,
    ) -> (offer: Offer)
        requires
            old(self).wf(),
            old(ledger).wf(),
            old(self).handed_out(&frame),
        ensures
            final(self).wf(),
            final(ledger).wf(),
            ({
                let length = held_by(plan);
                let missing = match plan {
                    Some(plan) => old(self).queue().len() == 0 && old(self).drops().taken(
                        plan,
                    ).0,
                    None => false,
                };
                let queued = QueuedFrame { flow, frame, plan, reserved_retained: length };
                &&& !(offer is Refused) ==> {
                    &&& old(ledger).admits(length as int)
                    &&& *final(ledger) == old(ledger).reserved(length as int)
                    &&& final(self).pools() == old(self).pools()
                }
                &&& match offer {
                    Offer::Refused => {
                        &&& !old(ledger).admits(length as int)
                        &&& *final(ledger) == old(ledger).refused()
                        &&& final(self).pools().given_back(
                            &old(self).pools(),
                            frame.tier,
                            frame.pool_index,
                        )
                        &&& final(self).queue() == old(self).queue()
                        &&& final(self).drops() == old(self).drops()
                    },
                    Offer::Missing(held) => {
                        &&& missing
                        &&& held == queued
                        &&& final(self).handed_out(&held.frame)
                        &&& final(self).queue() == old(self).queue()
                        &&& final(self).drops() == old(self).drops().taken(plan.unwrap()).1
                    },
                    Offer::Write(held) => {
                        &&& !missing
                        &&& old(self).queue().len() == 0
                        &&& held == queued
                        &&& final(self).handed_out(&held.frame)
                        &&& final(self).queue() == old(self).queue()
                        &&& final(self).drops() == old(self).drops()
                    },
                    Offer::Queued => {
                        &&& old(self).queue().len() > 0
                        &&& final(self).queue() == old(self).queue().push(queued)
                        &&& final(self).drops() == old(self).drops()
                    },
                }
            }),
    {
        let reserved_retained: usize = match plan {
            Some(plan) => plan.length,
            None => 0,
        };
        if !ledger.reserve_retained_bytes(reserved_retained) {
            self.release(frame);
            return Offer::Refused;
        }
        let queued = QueuedFrame { flow, frame, plan, reserved_retained };
        if self.queue.len() == 0 {
            if let Some(plan) = plan {
                if self.drops.take(plan) {
                    return Offer::Missing(queued);
                }
            }
            return Offer::Write(queued);
        }
        let ghost before = *self;
        self.queue.push_back(queued);
        proof {
            lemma_push_back(before, *self, queued);
        }
        Offer::Queued
    }

    /// Takes the next waiting frame out to be written.
    pub fn next_queued(&mut self) -> (next: Option<QueuedFrame>)
        requires
            old(self).wf(),
        ensures
            final(self).wf(),
            final(self).pools() == old(self).pools(),
            final(self).drops() == old(self).drops(),
            match next {
                Some(queued) => {
                    &&& old(self).queue().len() > 0
                    &&& queued == old(self).queue()[0]
                    &&& final(self).queue() == old(self).queue().drop_first()
                    &&& final(self).handed_out(&queued.frame)
                },
                None => old(self).queue().len() == 0 && final(self).queue() == old(self).queue(),
            },
    {
        let ghost before = *self;
        let next = self.queue.pop_front();
        proof {
            if next is Some {
                assert(self.queue() =~= before.queue().drop_first());
                assert forall|i: int| 0 <= i < self.queue().len() implies {
                    &&& self.pools().lent(&(#[trigger] self.queue()[i]).frame)
                    &&& !self.queue()[i].frame.same_place(&next.unwrap().frame)
                } by {
                    assert(self.queue()[i] == before.queue()[i + 1]);
                    assert(!before.queue()[0].frame.same_place(&before.queue()[i + 1].frame));
                }
                assert forall|i: int, j: int| 0 <= i < j < self.queue().len() implies !(
                #[trigger] self.queue()[i]).frame.same_place(
                    &(#[trigger] self.queue()[j]).frame,
                ) by {
                    assert(!before.queue()[i + 1].frame.same_place(&before.queue()[j + 1].frame));
                }
                assert(before.pools().lent(&before.queue()[0].frame));
            }
        }
        next
    }

    /// Settles a write. A frame that the device has no room for waits: again at
    /// the front if it waited before.
    pub fn settle_write(
        &mut self,
        ledger: &mut Ledger,
        queued: QueuedFrame,
        outcome: WriteOutcome,
        waited: bool,
    ) -> (settled: Settled)
        requires
            old(self).wf(),
            old(ledger).wf(),
            old(self).handed_out(&queued.frame),
        ensures
            final(self).wf(),
            final(ledger).wf(),
            final(self).drops() == old(self).drops(),
            match outcome {
                WriteOutcome::Complete => {
                    &&& settled == Settled::Sent(queued)
                    &&& final(self).handed_out(&queued.frame)
                    &&& final(self).queue() == old(self).queue()
                    &&& final(self).pools() == old(self).pools()
                    &&& *final(ledger) == (Ledger {
                        metrics: Metrics {
                            tap_tx_packets: counted(old(ledger).metrics.tap_tx_packets),
                            ..old(ledger).metrics
                        },
                        ..*old(ledger)
                    })
                },
                WriteOutcome::WouldBlock => {
                    &&& settled is Queued
                    &&& final(self).pools() == old(self).pools()
                    &&& final(self).queue() == if waited {
                        seq![queued] + old(self).queue()
                    } else {
                        old(self).queue().push(queued)
                    }
                    &&& *final(ledger) == *old(ledger)
                },
                WriteOutcome::Short | WriteOutcome::Failed => {
                    &&& settled == if outcome == WriteOutcome::Short {
                        Settled::Short
                    } else {
                        Settled::Failed
                    }
                    &&& final(self).queue() == old(self).queue()
                    &&& *final(ledger) == old(ledger).released(queued.reserved_retained as int)
                    &&& final(self).pools().given_back(
                        &old(self).pools(),
                        queued.frame.tier,
                        queued.frame.pool_index,
                    )
                },
            },
    {
        match outcome {
            WriteOutcome::Complete => {
                ledger.metrics.tap_tx_packets = count(ledger.metrics.tap_tx_packets);
                Settled::Sent(queued)
            },
            WriteOutcome::WouldBlock => {
                let ghost before = *self;
                if waited {
                    self.queue.push_front(queued);
                    proof {
                        lemma_push_front(before, *self, queued);
                    }
                } else {
                    self.queue.push_back(queued);
                    proof {
                        lemma_push_back(before, *self, queued);
                    }
                }
                Settled::Queued
            },
            WriteOutcome::Short => {
                ledger.release_retained_bytes(queued.reserved_retained);
                self.release(queued.frame);
                Settled::Short
            },
            WriteOutcome::Failed => {
                ledger.release_retained_bytes(queued.reserved_retained);
                self.release(queued.frame);
                Settled::Failed
            },
        }
    }

    /// Takes back every waiting frame of a flow, with the octets it held.
    pub fn drop_flow(&mut self, ledger: &mut Ledger, id: FlowId)
        requires
            old(self).wf(),
            old(ledger).wf(),
        ensures
            final(self).wf(),
            final(ledger).wf(),
            final(self).drops() == old(self).drops(),
            final(self).queue() == kept(old(self).queue(), id),
            *final(ledger) == released_frames(*old(ledger), old(self).queue(), id),
            frames_freed(old(self).pools(), final(self).pools(), old(self).queue(), id),
            !final(self).waits(id),
    {
        let ghost before = *self;
        let ghost ledger_before = *ledger;
        let total: usize = self.queue.len();
        let mut seen: usize = 0;
        assert(before.queue().take(0) =~= Seq::empty());
        assert(before.queue().skip(0) + kept(before.queue().take(0), id) =~= before.queue());
        while seen < total
            invariant
                seen <= total,
                total == before.queue().len(),
                self.wf(),
                ledger.wf(),
                self.drops() == before.drops(),
                self.queue() == before.queue().skip(seen as int) + kept(
                    before.queue().take(seen as int),
                    id,
                ),
                *ledger == released_frames(ledger_before, before.queue().take(seen as int), id),
                frames_freed(
                    before.pools(),
                    self.pools(),
                    before.queue().take(seen as int),
                    id,
                ),
            decreases total - seen,
        {
            let ghost held = *self;
            let ghost queue = before.queue();
            assert(queue.take(seen + 1).drop_last() =~= queue.take(seen as int));
            assert(queue.take(seen + 1).last() == queue[seen as int]);
            assert(held.queue()[0] == queue[seen as int]);
            if let Some(queued) = self.next_queued() {
                assert(self.queue() =~= queue.skip(seen + 1) + kept(queue.take(seen as int), id));
                let ours = match queued.flow {
                    Some(flow) => flow == id,
                    None => false,
                };
                if ours {
                    ledger.release_retained_bytes(queued.reserved_retained);
                    self.release(queued.frame);
                    proof {
                        let first = queue.take(seen as int);
                        let more = queue.take(seen + 1);
                        assert forall|t: FrameTier| (#[trigger] self.pools().pool(t)).free()
                            == freed(before.pools().pool(t).free(), more, id, t) by {
                            assert(held.pools().pool(t).free() == freed(
                                before.pools().pool(t).free(),
                                first,
                                id,
                                t,
                            ));
                            if t != queued.frame.tier {
                                assert(self.pools().pool(t) == held.pools().pool(t));
                            }
                        }
                        assert forall|t: FrameTier| #[trigger] self.pools().room(t)
                            == before.pools().room(t) by {
                            assert(self.pools().room(t) == held.pools().room(t));
                        }
                    }
                } else {
                    let ghost shorter = *self;
                    self.queue.push_back(queued);
                    proof {
                        lemma_push_back(shorter, *self, queued);
                    }
                    assert(self.queue() =~= queue.skip(seen + 1) + kept(
                        queue.take(seen + 1),
                        id,
                    ));
                }
            }
            seen = seen + 1;
        }
        proof {
            assert(before.queue().take(seen as int) =~= before.queue());
            assert(before.queue().skip(seen as int) =~= Seq::<QueuedFrame>::empty());
            assert(self.queue() =~= kept(before.queue(), id));
            lemma_kept_has_none(before.queue(), id);
        }
    }
}

/// The frames of `queue` that do not belong to the flow, in their order.
pub open spec fn kept(queue: Seq<QueuedFrame>, id: FlowId) -> Seq<QueuedFrame>
    decreases queue.len(),
{
    if queue.len() == 0 {
        Seq::empty()
    } else if queue.last().flow == Some(id) {
        kept(queue.drop_last(), id)
    } else {
        kept(queue.drop_last(), id).push(queue.last())
    }
}

/// The free places of a tier after the frames of the flow were taken back.
pub open spec fn freed(
    free: Seq<usize>,
    queue: Seq<QueuedFrame>,
    id: FlowId,
    tier: FrameTier,
) -> Seq<usize>
    decreases queue.len(),
{
    if queue.len() == 0 {
        free
    } else if queue.last().flow == Some(id) && queue.last().frame.tier == tier {
        freed(free, queue.drop_last(), id, tier).push(queue.last().frame.pool_index)
    } else {
        freed(free, queue.drop_last(), id, tier)
    }
}

/// Whether the frames of the flow, and no others, were taken back.
pub open spec fn frames_freed(
    before: Pools,
    after: Pools,
    queue: Seq<QueuedFrame>,
    id: FlowId,
) -> bool {
    &&& forall|t: FrameTier| #[trigger] after.room(t) == before.room(t)
    &&& forall|t: FrameTier|
        (#[trigger] after.pool(t)).free() == freed(before.pool(t).free(), queue, id, t)
}

/// The ledger after the frames of the flow let their octets go.
pub open spec fn released_frames(ledger: Ledger, queue: Seq<QueuedFrame>, id: FlowId) -> Ledger
    decreases queue.len(),
{
    if queue.len() == 0 {
        ledger
    } else if queue.last().flow == Some(id) {
        released_frames(ledger, queue.drop_last(), id).released(
            queue.last().reserved_retained as int,
        )
    } else {
        released_frames(ledger, queue.drop_last(), id)
    }
}

proof fn lemma_kept_has_none(queue: Seq<QueuedFrame>, id: FlowId)
    ensures
        forall|i: int|
            0 <= i < kept(queue, id).len() ==> (#[trigger] kept(queue, id)[i]).flow != Some(id),
    decreases queue.len(),
{
    if queue.len() > 0 {
        lemma_kept_has_none(queue.drop_last(), id);
    }
}

proof fn lemma_push_back(before: TapOutput, after: TapOutput, queued: QueuedFrame)
    requires
        before.wf(),
        before.handed_out(&queued.frame),
        after.pools() == before.pools(),
        after.queue() == before.queue().push(queued),
    ensures
        after.wf(),
{
    assert forall|i: int| 0 <= i < after.queue().len() implies after.pools().lent(
        &(#[trigger] after.queue()[i]).frame,
    ) by {
        if i < before.queue().len() {
            assert(after.queue()[i] == before.queue()[i]);
        }
    }
    assert forall|i: int, j: int| 0 <= i < j < after.queue().len() implies !(
    #[trigger] after.queue()[i]).frame.same_place(&(#[trigger] after.queue()[j]).frame) by {
        assert(after.queue()[i] == before.queue()[i]);
        if j < before.queue().len() {
            assert(after.queue()[j] == before.queue()[j]);
        }
    }
}

proof fn lemma_push_front(before: TapOutput, after: TapOutput, queued: QueuedFrame)
    requires
        before.wf(),
        before.handed_out(&queued.frame),
        after.pools() == before.pools(),
        after.queue() == seq![queued] + before.queue(),
    ensures
        after.wf(),
{
    assert forall|i: int| 0 <= i < after.queue().len() implies after.pools().lent(
        &(#[trigger] after.queue()[i]).frame,
    ) by {
        if i > 0 {
            assert(after.queue()[i] == before.queue()[i - 1]);
        }
    }
    assert forall|i: int, j: int| 0 <= i < j < after.queue().len() implies !(
    #[trigger] after.queue()[i]).frame.same_place(&(#[trigger] after.queue()[j]).frame) by {
        assert(after.queue()[j] == before.queue()[j - 1]);
        if i > 0 {
            assert(after.queue()[i] == before.queue()[i - 1]);
        }
    }
}

/// The flow state once a plan was sent.
pub open spec fn after_send(flow: FlowState, plan: SendPlan) -> FlowState {
    if plan.length > 0 || plan.fin {
        flow.sent(plan)
    } else {
        flow
    }
}

/// Whether what was sent is what the sequence numbers of the flow say.
pub open spec fn commits(flow: FlowState, plan: SendPlan) -> bool {
    let span = plan.length + one_if(plan.syn) + one_if(plan.fin);
    span > 0 && ahead(plan.sequence, after_send(flow, plan).local_next) == span
}

/// What it comes to that `plan` was sent: the flow has moved on, and keeps the
/// segment unless its sequence numbers say otherwise.
pub open spec fn committed(
    before: FlowEntry,
    after: FlowEntry,
    plan: SendPlan,
    now: Instant,
    result: Result<(), Error>,
) -> bool {
    &&& after.flow@ == after_send(before.flow@, plan)
    &&& after == (FlowEntry { flow: after.flow, sent_segments: after.sent_segments, ..before })
    &&& match result {
        Ok(()) => {
            &&& commits(before.flow@, plan)
            &&& after.sent_segments@ == before.sent_segments@.push(
                SentSegment {
                    sequence: plan.sequence,
                    payload_len: plan.length,
                    syn: plan.syn,
                    fin: plan.fin,
                    last_sent: now,
                    retransmit_timeout: RETRANSMIT_INITIAL,
                    retries: 0,
                },
            )
        },
        Err(error) => {
            &&& !commits(before.flow@, plan)
            &&& error == Error::Invariant("TAP transmission sequence commitment mismatch")
            &&& after.sent_segments@ == before.sent_segments@
        },
    }
}

/// Takes note in the flow that `plan` was sent, so that it can be sent again.
pub fn commit_tap_send(entry: &mut FlowEntry, plan: SendPlan, now: Instant) -> (result: Result<
    (),
    Error,
>)
    requires
        old(entry).wf(),
        plan.length < 0x7fff_0000,
        payload_sum(old(entry).sent_segments@) + plan.length <= usize::MAX,
    ensures
        final(entry).wf(),
        committed(*old(entry), *final(entry), plan, now, result),
{
    if plan.length > 0 || plan.fin {
        entry.flow.commit_send(plan);
    }
    let sequence_len: u32 = sequence::distance(plan.sequence, entry.flow.local_next());
    let expected: u32 = plan.length as u32 + (if plan.syn {
        1
    } else {
        0
    }) + (if plan.fin {
        1
    } else {
        0
    });
    if sequence_len != expected || expected == 0 {
        return Err(Error::Invariant("TAP transmission sequence commitment mismatch"));
    }
    let segment = SentSegment {
        sequence: plan.sequence,
        payload_len: plan.length,
        syn: plan.syn,
        fin: plan.fin,
        last_sent: now,
        retransmit_timeout: RETRANSMIT_INITIAL,
        retries: 0,
    };
    let ghost before = entry.sent_segments@;
    entry.sent_segments.push_back(segment);
    proof {
        lemma_payload_sum_push(before, segment);
        assert forall|i: int| 0 <= i < entry.sent_segments@.len() implies (
        #[trigger] entry.sent_segments@[i]).wf() by {
            if i < before.len() {
                assert(before[i].wf());
            }
        }
    }
    Ok(())
}

/// A segment behind the others adds its payload.
pub proof fn lemma_payload_sum_push(segments: Seq<SentSegment>, segment: SentSegment)
    ensures
        payload_sum(segments.push(segment)) == payload_sum(segments) + segment.payload_len,
    decreases segments.len(),
{
    if segments.len() == 0 {
        assert(segments.push(segment).drop_first() =~= segments);
        assert(payload_sum(segments) == 0);
    } else {
        assert(segments.push(segment).drop_first() =~= segments.drop_first().push(segment));
        lemma_payload_sum_push(segments.drop_first(), segment);
    }
}

/// A plan for the next octets or the FIN is always committed: its sequence
/// number is where the flow stands.
pub proof fn law_next_plan_commits(flow: FlowState, length: usize, fin: bool)
    requires
        length < 0x7fff_0000,
        length > 0 || fin,
    ensures
        commits(
            flow,
            SendPlan {
                sequence: flow.local_next,
                acknowledgment: flow.namespace_acked,
                length,
                syn: false,
                fin,
            },
        ),
{
}

/// Only as many sends go missing as are set: each takes one off its counter, and
/// with none left every send arrives.
pub proof fn law_missing_sends_are_counted_off(drops: InjectedDrops, plan: SendPlan)
    ensures
        ({
            let (missing, left) = drops.taken(plan);
            &&& !missing ==> left == drops
            &&& missing ==> left.syn_ack + left.fin + left.data + left.ack + 1 == drops.syn_ack
                + drops.fin + drops.data + drops.ack
            &&& left.syn_ack < drops.syn_ack ==> plan.syn
            &&& left.fin < drops.fin ==> plan.fin
            &&& left.data < drops.data ==> plan.length > 0
            &&& left.ack < drops.ack ==> !plan.syn && !plan.fin && plan.length == 0
            &&& drops.syn_ack == 0 && drops.fin == 0 && drops.data == 0 && drops.ack == 0
                ==> !missing
            &&& plan.syn && drops.syn_ack > 0 ==> missing
            &&& plan.fin && drops.fin > 0 ==> missing
            &&& plan.length > 0 && drops.data > 0 ==> missing
            &&& !plan.syn && !plan.fin && plan.length == 0 && drops.ack > 0 ==> missing
        }),
{
}

/// A frame holds back exactly the payload of its plan.
pub proof fn law_frame_holds_its_payload(plan: SendPlan)
    ensures
        held_by(Some(plan)) == plan.length,
        held_by(None) == 0,
{
}

/// When the frames of a flow are taken back, those of the others stay, in their
/// order, and none of the flow is left.
pub proof fn law_frames_of_others_stay(queue: Seq<QueuedFrame>, id: FlowId)
    ensures
        forall|i: int|
            0 <= i < kept(queue, id).len() ==> (#[trigger] kept(queue, id)[i]).flow != Some(id)
                && queue.contains(kept(queue, id)[i]),
        forall|i: int|
            0 <= i < queue.len() && (#[trigger] queue[i]).flow != Some(id) ==> kept(
                queue,
                id,
            ).contains(queue[i]),
        (forall|i: int| 0 <= i < queue.len() ==> (#[trigger] queue[i]).flow != Some(id)) ==> kept(
            queue,
            id,
        ) == queue,
    decreases queue.len(),
{
    if queue.len() > 0 {
        let front = queue.drop_last();
        law_frames_of_others_stay(front, id);
        let last = queue.last();
        assert forall|i: int| 0 <= i < kept(queue, id).len() implies (#[trigger] kept(
            queue,
            id,
        )[i]).flow != Some(id) && queue.contains(kept(queue, id)[i]) by {
            if i < kept(front, id).len() {
                assert(kept(queue, id)[i] == kept(front, id)[i]);
                let j = choose|j: int| 0 <= j < front.len() && front[j] == kept(front, id)[i];
                assert(queue[j] == kept(queue, id)[i]);
            } else {
                assert(queue[queue.len() - 1] == kept(queue, id)[i]);
            }
        }
        assert forall|i: int| 0 <= i < queue.len() && (#[trigger] queue[i]).flow != Some(
            id,
        ) implies kept(queue, id).contains(queue[i]) by {
            if i < front.len() {
                assert(front[i] == queue[i]);
                let j = choose|j: int|
                    0 <= j < kept(front, id).len() && kept(front, id)[j] == front[i];
                assert(kept(queue, id)[j] == queue[i]);
            } else {
                assert(kept(queue, id)[kept(queue, id).len() - 1] == queue[i]);
            }
        }
        if forall|i: int| 0 <= i < queue.len() ==> (#[trigger] queue[i]).flow != Some(id) {
            assert forall|i: int| 0 <= i < front.len() implies (#[trigger] front[i]).flow != Some(
                id,
            ) by {
                assert(front[i] == queue[i]);
            }
            assert(queue[queue.len() - 1].flow != Some(id));
            assert(kept(queue, id) =~= queue);
        }
    } else {
        assert(kept(queue, id) =~= queue);
    }
}

/// What was sent is kept as one segment that can be sent again: from its
/// sequence number, with its payload and flags, due after a second at first, and
/// not yet tried again. The segments before it stay.
pub proof fn law_sent_segment_is_kept(
    before: FlowEntry,
    after: FlowEntry,
    plan: SendPlan,
    now: Instant,
    result: Result<(), Error>,
)
    requires
        committed(before, after, plan, now, result),
    ensures
        result is Ok ==> {
            let kept = after.sent_segments@;
            &&& kept.len() == before.sent_segments@.len() + 1
            &&& kept.drop_last() == before.sent_segments@
            &&& kept.last().sequence == plan.sequence
            &&& kept.last().payload_len == plan.length
            &&& kept.last().syn == plan.syn
            &&& kept.last().fin == plan.fin
            &&& kept.last().last_sent == now
            &&& kept.last().retransmit_timeout == 1_000_000_000
            &&& kept.last().retries == 0
        },
        result is Err ==> after.sent_segments@ == before.sent_segments@,
        result is Ok ==> plan.length > 0 || plan.syn || plan.fin,
        !plan.syn && !plan.fin && plan.length == 0 ==> after.flow@ == before.flow@,
{
    if result is Ok {
        assert(after.sent_segments@.drop_last() =~= before.sent_segments@);
    }
}

proof fn lemma_span_ends(start: u32, end: u32, span: int)
    ensures
        span > 0 ==> (ahead(start, end) == span <==> span < 0x1_0000_0000 && (start + span)
            % 0x1_0000_0000 == end),
{
}

/// What is sent counts against the sequence space: an octet for each of payload
/// and one for the SYN and the FIN each. A plan whose span ends where the flow
/// stands is committed, and no other.
pub proof fn law_committed_plan_ends_where_the_flow_stands(flow: FlowState, plan: SendPlan)
    ensures
        ({
            let span = plan.length + (if plan.syn {
                1int
            } else {
                0
            }) + (if plan.fin {
                1int
            } else {
                0
            });
            commits(flow, plan) <==> span > 0 && span < 0x1_0000_0000 && (plan.sequence + span)
                % 0x1_0000_0000 == after_send(flow, plan).local_next
        }),
        plan.length == 0 && !plan.fin ==> after_send(flow, plan) == flow,
{
    lemma_span_ends(
        plan.sequence,
        after_send(flow, plan).local_next,
        plan.length + one_if(plan.syn) + one_if(plan.fin),
    );
}

} // verus!
