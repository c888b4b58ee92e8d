//! The accounts of the data plane: what the ledger says is held is what the
//! flows and the frames on their way hold.

use super::entry::FlowEntry;
use super::flows::others_kept;
use super::ledger::Ledger;
use super::segment::{SentSegment, payload_sum};
use super::tap::{QueuedFrame, kept, lemma_payload_sum_push, released_frames};
use crate::dataplane::flow_table::{FlowId, Slot, vacated};
use vstd::prelude::*;

verus! {

/// The octets that wait for the upstream socket of the flow in a place. A closed
/// flow has let its octets go.
pub open spec fn waiting_in(slot: Slot<FlowEntry>) -> int {
    match slot.value {
        Some(entry) if !entry.closed() => entry.pending_socket.waiting().len() as int,
        _ => 0,
    }
}

/// The octets that the flow in a place holds until the namespace acknowledges
/// them.
pub open spec fn held_in(slot: Slot<FlowEntry>) -> int {
    match slot.value {
        Some(entry) if !entry.closed() => payload_sum(entry.sent_segments@) as int,
        _ => 0,
    }
}

pub open spec fn waiting_total(slots: Seq<Slot<FlowEntry>>) -> int
    decreases slots.len(),
{
    if slots.len() == 0 {
        0
    } else {
        waiting_total(slots.drop_last()) + waiting_in(slots.last())
    }
}

pub open spec fn held_total(slots: Seq<Slot<FlowEntry>>) -> int
    decreases slots.len(),
{
    if slots.len() == 0 {
        0
    } else {
        held_total(slots.drop_last()) + held_in(slots.last())
    }
}

/// The octets that the frames on their way have reserved.
pub open spec fn reserved_total(frames: Seq<QueuedFrame>) -> int
    decreases frames.len(),
{
    if frames.len() == 0 {
        0
    } else {
        reserved_total(frames.drop_last()) + frames.last().reserved_retained
    }
}

/// Whether the ledger agrees with the flows and with the frames on their way.
pub open spec fn balanced(
    slots: Seq<Slot<FlowEntry>>,
    frames: Seq<QueuedFrame>,
    ledger: Ledger,
) -> bool {
    &&& ledger.pending == waiting_total(slots)
    &&& ledger.retained == held_total(slots) + reserved_total(frames)
}

/// A place is part of the total, and no part is negative.
proof fn lemma_parts_of_totals(slots: Seq<Slot<FlowEntry>>)
    ensures
        waiting_total(slots) >= 0,
        held_total(slots) >= 0,
        forall|s: int|
            0 <= s < slots.len() ==> waiting_in(#[trigger] slots[s]) <= waiting_total(slots),
        forall|s: int| 0 <= s < slots.len() ==> held_in(#[trigger] slots[s]) <= held_total(slots),
    decreases slots.len(),
{
    if slots.len() > 0 {
        let front = slots.drop_last();
        lemma_parts_of_totals(front);
        assert forall|s: int| 0 <= s < slots.len() implies {
            &&& waiting_in(#[trigger] slots[s]) <= waiting_total(slots)
            &&& held_in(slots[s]) <= held_total(slots)
        } by {
            if s < front.len() {
                assert(front[s] == slots[s]);
            }
        }
    }
}

proof fn lemma_reserved_not_negative(frames: Seq<QueuedFrame>)
    ensures
        reserved_total(frames) >= 0,
    decreases frames.len(),
{
    if frames.len() > 0 {
        lemma_reserved_not_negative(frames.drop_last());
    }
}

/// Where one place changes, the totals change by as much.
proof fn lemma_one_place_changes(
    before: Seq<Slot<FlowEntry>>,
    after: Seq<Slot<FlowEntry>>,
    place: int,
)
    requires
        after.len() == before.len(),
        0 <= place < before.len(),
        forall|s: int| 0 <= s < before.len() && s != place ==> #[trigger] after[s] == before[s],
    ensures
        waiting_total(after) - waiting_total(before) == waiting_in(after[place]) - waiting_in(
            before[place],
        ),
        held_total(after) - held_total(before) == held_in(after[place]) - held_in(before[place]),
    decreases before.len(),
{
    let last = before.len() - 1;
    if place == last {
        assert(after.drop_last() =~= before.drop_last());
    } else {
        assert(after[last] == before[last]);
        lemma_one_place_changes(before.drop_last(), after.drop_last(), place);
    }
}

/// Without flows and frames nothing is held.
pub proof fn law_accounts_start_balanced(slots: Seq<Slot<FlowEntry>>, ledger: Ledger)
    requires
        forall|s: int| 0 <= s < slots.len() ==> (#[trigger] slots[s]).value is None,
        ledger.pending == 0,
        ledger.retained == 0,
    ensures
        balanced(slots, Seq::empty(), ledger),
    decreases slots.len(),
{
    if slots.len() > 0 {
        let front = slots.drop_last();
        assert forall|s: int| 0 <= s < front.len() implies (#[trigger] front[s]).value is None by {
            assert(front[s] == slots[s]);
        }
        law_accounts_start_balanced(front, ledger);
        assert(slots.last() == slots[slots.len() - 1]);
    }
}

/// A new flow holds nothing yet, so the accounts stay balanced.
pub proof fn law_new_flow_keeps_balance(
    slots: Seq<Slot<FlowEntry>>,
    place: int,
    entry: FlowEntry,
    frames: Seq<QueuedFrame>,
    ledger: Ledger,
)
    requires
        balanced(slots, frames, ledger),
        0 <= place < slots.len(),
        slots[place].value is None,
        entry.pending_socket.waiting().len() == 0,
        entry.sent_segments@.len() == 0,
    ensures
        balanced(
            slots.update(place, (Slot { value: Some(entry), ..slots[place] })),
            frames,
            ledger.opened(entry.socket_receive_buffer_bytes, entry.socket_send_buffer_bytes),
        ),
{
    lemma_one_place_changes(
        slots,
        slots.update(place, (Slot { value: Some(entry), ..slots[place] })),
        place,
    );
}

/// Whether `after` is `before` but for the open flow `id`, which was `earlier`
/// and is `later`.
pub open spec fn flow_changed(
    before: Seq<Slot<FlowEntry>>,
    after: Seq<Slot<FlowEntry>>,
    id: FlowId,
    earlier: FlowEntry,
    later: FlowEntry,
) -> bool {
    &&& id.slot < before.len()
    &&& others_kept(before, after, id)
    &&& before[id.slot as int].value == Some(earlier)
    &&& after[id.slot as int].value == Some(later)
    &&& !earlier.closed()
    &&& !later.closed()
}

/// Payload that starts to wait is counted.
pub proof fn law_enqueued_payload_keeps_balance(
    before: Seq<Slot<FlowEntry>>,
    after: Seq<Slot<FlowEntry>>,
    id: FlowId,
    earlier: FlowEntry,
    later: FlowEntry,
    frames: Seq<QueuedFrame>,
    ledger: Ledger,
    length: int,
)
    requires
        balanced(before, frames, ledger),
        flow_changed(before, after, id, earlier, later),
        0 <= length <= ledger.max_pending - ledger.pending,
        later.pending_socket.waiting().len() == earlier.pending_socket.waiting().len() + length,
        later.sent_segments == earlier.sent_segments,
    ensures
        balanced(after, frames, ledger.enqueued(length)),
{
    lemma_one_place_changes(before, after, id.slot as int);
}

/// Payload that the upstream socket takes is counted off, and there was as much
/// to count off.
pub proof fn law_consumed_payload_keeps_balance(
    before: Seq<Slot<FlowEntry>>,
    after: Seq<Slot<FlowEntry>>,
    id: FlowId,
    earlier: FlowEntry,
    later: FlowEntry,
    frames: Seq<QueuedFrame>,
    ledger: Ledger,
    length: int,
)
    requires
        balanced(before, frames, ledger),
        flow_changed(before, after, id, earlier, later),
        0 <= length <= earlier.pending_socket.waiting().len(),
        later.pending_socket.waiting().len() == earlier.pending_socket.waiting().len() - length,
        later.sent_segments == earlier.sent_segments,
    ensures
        balanced(after, frames, ledger.consumed(length)),
        ledger.consumed(length).pending == ledger.pending - length,
{
    lemma_parts_of_totals(before);
    assert(waiting_in(before[id.slot as int]) <= waiting_total(before));
    lemma_one_place_changes(before, after, id.slot as int);
}

/// A frame that starts on its way has its octets reserved.
pub proof fn law_offered_frame_keeps_balance(
    slots: Seq<Slot<FlowEntry>>,
    frames: Seq<QueuedFrame>,
    frame: QueuedFrame,
    ledger: Ledger,
)
    requires
        balanced(slots, frames, ledger),
        ledger.admits(frame.reserved_retained as int),
        ledger.retained <= ledger.max_retained,
    ensures
        balanced(slots, frames.push(frame), ledger.reserved(frame.reserved_retained as int)),
{
    assert(frames.push(frame).drop_last() =~= frames);
}

proof fn lemma_reserved_front(frames: Seq<QueuedFrame>)
    requires
        frames.len() > 0,
    ensures
        reserved_total(frames) == frames[0].reserved_retained + reserved_total(
            frames.drop_first(),
        ),
    decreases frames.len(),
{
    if frames.len() == 1 {
        assert(frames.drop_last() =~= Seq::empty());
        assert(frames.drop_first() =~= Seq::empty());
        assert(reserved_total(Seq::empty()) == 0);
    } else {
        lemma_reserved_front(frames.drop_last());
        assert(frames.drop_last().drop_first() =~= frames.drop_first().drop_last());
        assert(frames.drop_first().last() == frames.last());
    }
}

/// A frame that the device took hands its reservation over to the flow, which
/// holds the octets until they are acknowledged.
pub proof fn law_sent_frame_keeps_balance(
    before: Seq<Slot<FlowEntry>>,
    after: Seq<Slot<FlowEntry>>,
    id: FlowId,
    earlier: FlowEntry,
    later: FlowEntry,
    frames: Seq<QueuedFrame>,
    ledger: Ledger,
    segment: SentSegment,
)
    requires
        balanced(before, frames, ledger),
        flow_changed(before, after, id, earlier, later),
        frames.len() > 0,
        frames[0].reserved_retained == segment.payload_len,
        later.pending_socket == earlier.pending_socket,
        later.sent_segments@ == earlier.sent_segments@.push(segment),
    ensures
        balanced(after, frames.drop_first(), ledger),
{
    lemma_reserved_front(frames);
    lemma_payload_sum_push(earlier.sent_segments@, segment);
    lemma_one_place_changes(before, after, id.slot as int);
}

/// Payload that the namespace acknowledged is let go, and there was as much to
/// let go.
pub proof fn law_acknowledged_payload_keeps_balance(
    before: Seq<Slot<FlowEntry>>,
    after: Seq<Slot<FlowEntry>>,
    id: FlowId,
    earlier: FlowEntry,
    later: FlowEntry,
    frames: Seq<QueuedFrame>,
    ledger: Ledger,
    length: int,
)
    requires
        balanced(before, frames, ledger),
        flow_changed(before, after, id, earlier, later),
        length >= 0,
        later.pending_socket == earlier.pending_socket,
        payload_sum(earlier.sent_segments@) == payload_sum(later.sent_segments@) + length,
    ensures
        balanced(after, frames, ledger.released(length)),
        ledger.released(length).retained == ledger.retained - length,
{
    lemma_parts_of_totals(before);
    lemma_reserved_not_negative(frames);
    assert(held_in(before[id.slot as int]) <= held_total(before));
    lemma_one_place_changes(before, after, id.slot as int);
}

/// The frames of a flow let go what they reserved, and leave the others theirs.
proof fn lemma_dropped_frames(ledger: Ledger, frames: Seq<QueuedFrame>, id: FlowId, others: int)
    requires
        others >= 0,
        ledger.retained == others + reserved_total(frames),
    ensures
        released_frames(ledger, frames, id).retained == others + reserved_total(kept(frames, id)),
        released_frames(ledger, frames, id).pending == ledger.pending,
        released_frames(ledger, frames, id).pressured == ledger.pressured,
        released_frames(ledger, frames, id).max_pending == ledger.max_pending,
    decreases frames.len(),
{
    if frames.len() > 0 {
        let front = frames.drop_last();
        let last = frames.last().reserved_retained as int;
        lemma_dropped_frames(ledger, front, id, others + last);
        lemma_reserved_not_negative(kept(front, id));
        if frames.last().flow != Some(id) {
            assert(kept(frames, id).drop_last() =~= kept(front, id));
        }
    }
}

/// A flow that is closed lets go of all that it holds and of what its frames
/// reserved, and of nothing else.
pub proof fn law_closed_flow_keeps_balance(
    before: Seq<Slot<FlowEntry>>,
    after: Seq<Slot<FlowEntry>>,
    id: FlowId,
    earlier: FlowEntry,
    later: FlowEntry,
    frames: Seq<QueuedFrame>,
    ledger: Ledger,
)
    requires
        balanced(before, frames, ledger),
        id.slot < before.len(),
        others_kept(before, after, id),
        before[id.slot as int].value == Some(earlier),
        after[id.slot as int].value == Some(later),
        !earlier.closed(),
        later.closed(),
    ensures
        balanced(
            after,
            kept(frames, id),
            released_frames(ledger, frames, id).closed(
                earlier.pending_socket.waiting().len() as int,
                payload_sum(earlier.sent_segments@) as int,
                earlier.socket_receive_buffer_bytes,
                earlier.socket_send_buffer_bytes,
                earlier.zero_window_probe is Some,
            ),
        ),
{
    lemma_parts_of_totals(before);
    lemma_reserved_not_negative(kept(frames, id));
    lemma_dropped_frames(ledger, frames, id, held_total(before));
    assert(waiting_in(before[id.slot as int]) <= waiting_total(before));
    assert(held_in(before[id.slot as int]) <= held_total(before));
    lemma_one_place_changes(before, after, id.slot as int);
}

/// To remove closed flows changes no account.
pub proof fn law_cleanup_keeps_balance(
    before: Seq<Slot<FlowEntry>>,
    after: Seq<Slot<FlowEntry>>,
    frames: Seq<QueuedFrame>,
    ledger: Ledger,
)
    requires
        balanced(before, frames, ledger),
        after.len() == before.len(),
        forall|s: int|
            0 <= s < before.len() ==> (#[trigger] after[s] == before[s] || (after[s] == vacated(
                before[s],
            ) && before[s].value is Some && before[s].value.unwrap().closed())),
    ensures
        balanced(after, frames, ledger),
{
    lemma_cleaned_totals(before, after);
}

proof fn lemma_cleaned_totals(before: Seq<Slot<FlowEntry>>, after: Seq<Slot<FlowEntry>>)
    requires
        after.len() == before.len(),
        forall|s: int|
            0 <= s < before.len() ==> (#[trigger] after[s] == before[s] || (after[s] == vacated(
                before[s],
            ) && before[s].value is Some && before[s].value.unwrap().closed())),
    ensures
        waiting_total(after) == waiting_total(before),
        held_total(after) == held_total(before),
    decreases before.len(),
{
    if before.len() > 0 {
        let last = before.len() - 1;
        assert(after[last] == before[last] || after[last].value is None);
        assert forall|s: int| 0 <= s < before.drop_last().len() implies (
        #[trigger] after.drop_last()[s] == before.drop_last()[s] || (after.drop_last()[s]
            == vacated(before.drop_last()[s]) && before.drop_last()[s].value is Some
            && before.drop_last()[s].value.unwrap().closed())) by {
            assert(after[s] == before[s] || after[s] == vacated(before[s]));
        }
        lemma_cleaned_totals(before.drop_last(), after.drop_last());
    }
}

} // verus!
