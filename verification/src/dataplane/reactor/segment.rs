//! Segments sent to the namespace that are not acknowledged yet.

use super::probe::backed_off;
use crate::packet::tcp::TcpFlags;
use crate::tcp_adapter::sequence;
use crate::tcp_adapter::sequence::{
    advanced, ahead, lemma_advanced_twice, lemma_ahead_advances, lemma_places, lemma_step_is_short,
    lemma_steps_add_up, precedes,
};
use crate::time::{Duration, Instant};
use std::collections::VecDeque;
use vstd::prelude::*;

verus! {

pub const RETRANSMIT_INITIAL: Duration = 1_000_000_000;
pub const RETRANSMIT_MAX: Duration = 8_000_000_000;
pub const MAX_RETRIES: u8 = 5;

#[derive(Clone, Copy, Debug, PartialEq, Eq, Structural)]
pub struct SentSegment {
    pub sequence: u32,
    pub payload_len: usize,
    pub syn: bool,
    pub fin: bool,
    pub last_sent: Instant,
    pub retransmit_timeout: Duration,
    pub retries: u8,
}

pub open spec fn one_if(flag: bool) -> int {
    if flag {
        1
    } else {
        0
    }
}

impl SentSegment {
    /// The sequence numbers that the segment takes: one for each octet and one
    /// for each of SYN and FIN.
    pub open spec fn span(self) -> int {
        self.payload_len + one_if(self.syn) + one_if(self.fin)
    }

    /// Whether the segment takes less than half of the sequence space.
    pub open spec fn wf(self) -> bool {
        self.span() < 0x8000_0000
    }

    pub open spec fn end(self) -> u32 {
        advanced(self.sequence, self.span())
    }

    /// Whether an acknowledgment covers the whole segment.
    pub open spec fn covered(self, acknowledgment: u32) -> bool {
        precedes(self.sequence, acknowledgment) && !precedes(acknowledgment, self.end())
    }

    /// What is left of the segment after an acknowledgment that does not cover
    /// it.
    pub open spec fn trimmed(self, acknowledgment: u32) -> SentSegment {
        if precedes(self.sequence, acknowledgment) {
            let passed = ahead(self.sequence, acknowledgment) - one_if(self.syn);
            let payload = if passed <= self.payload_len {
                passed
            } else {
                self.payload_len as int
            };
            SentSegment {
                sequence: acknowledgment,
                syn: false,
                payload_len: (self.payload_len - payload) as usize,
                fin: self.fin && passed == payload,
                ..self
            }
        } else {
            self
        }
    }

    /// The segment after it was sent once more because its time ran out.
    pub open spec fn timed_out(self, now: Instant) -> SentSegment {
        SentSegment {
            last_sent: now,
            retries: if self.retries < u8::MAX {
                (self.retries + 1) as u8
            } else {
                u8::MAX
            },
            retransmit_timeout: backed_off(self.retransmit_timeout, RETRANSMIT_MAX) as u64,
            ..self
        }
    }

    #[must_use]
    pub fn sequence_len(&self) -> (length: u32)
        requires
            self.wf(),
        ensures
            length == self.span(),
    {
        self.payload_len as u32 + (if self.syn {
            1
        } else {
            0
        }) + (if self.fin {
            1
        } else {
            0
        })
    }

    #[must_use]
    pub fn end_sequence(&self) -> (sequence: u32)
        requires
            self.wf(),
        ensures
            sequence == self.end(),
    {
        self.sequence.wrapping_add(self.sequence_len())
    }

    /// Takes an acknowledgment and tells whether it covers the segment. One
    /// that covers a part leaves the rest.
    pub fn acknowledge(&mut self, acknowledgment: u32) -> (done: bool)
        requires
            old(self).wf(),
        ensures
            done == old(self).covered(acknowledgment),
            *final(self) == if done {
                *old(self)
            } else {
                old(self).trimmed(acknowledgment)
            },
    {
        if !sequence::after(acknowledgment, self.sequence) {
            return false;
        }
        if !sequence::before(acknowledgment, self.end_sequence()) {
            return true;
        }
        let mut acknowledged: u32 = sequence::distance(self.sequence, acknowledgment);
        self.sequence = acknowledgment;
        if self.syn && acknowledged > 0 {
            self.syn = false;
            acknowledged = acknowledged - 1;
        }
        let payload: usize = if acknowledged as usize <= self.payload_len {
            acknowledged as usize
        } else {
            self.payload_len
        };
        self.payload_len = self.payload_len - payload;
        acknowledged = acknowledged - payload as u32;
        if self.fin && acknowledged > 0 {
            self.fin = false;
        }
        false
    }

    #[must_use]
    pub fn flags(&self) -> (flags: TcpFlags)
        ensures
            flags == (TcpFlags {
                syn: self.syn,
                fin: self.fin,
                psh: self.payload_len > 0,
                ack: true,
                rst: false,
            }),
    {
        TcpFlags {
            syn: self.syn,
            fin: self.fin,
            psh: self.payload_len > 0,
            ack: true,
            rst: false,
        }
    }

    pub fn record_timeout_retransmit(&mut self, now: Instant)
        ensures
            *final(self) == old(self).timed_out(now),
    {
        self.last_sent = now;
        self.retries = self.retries.saturating_add(1);
        self.retransmit_timeout =
        if self.retransmit_timeout <= RETRANSMIT_MAX / 2 {
            self.retransmit_timeout * 2
        } else {
            RETRANSMIT_MAX
        };
    }

    #[must_use]
    pub fn retries_exhausted(&self) -> (exhausted: bool)
        ensures
            exhausted == (self.retries >= MAX_RETRIES),
    {
        self.retries >= MAX_RETRIES
    }
}

/// The payload octets of the segments.
pub open spec fn payload_sum(segments: Seq<SentSegment>) -> nat
    decreases segments.len(),
{
    if segments.len() == 0 {
        0
    } else {
        segments[0].payload_len as nat + payload_sum(segments.drop_first())
    }
}

/// The segments after an acknowledgment: those that it covers are gone from the
/// front, and the next one is trimmed.
pub open spec fn acknowledged(segments: Seq<SentSegment>, acknowledgment: u32) -> Seq<SentSegment>
    decreases segments.len(),
{
    if segments.len() == 0 {
        segments
    } else if segments[0].covered(acknowledgment) {
        acknowledged(segments.drop_first(), acknowledgment)
    } else {
        segments.update(0, segments[0].trimmed(acknowledgment))
    }
}

/// What holds of the segments of a flow: each is well formed, and together
/// their payload can be counted.
pub open spec fn all_wf(segments: Seq<SentSegment>) -> bool {
    &&& forall|i: int| 0 <= i < segments.len() ==> (#[trigger] segments[i]).wf()
    &&& payload_sum(segments) <= usize::MAX
}

/// The payload octets that the flow holds for the namespace.
#[must_use]
pub fn retained_payload(segments: &VecDeque<SentSegment>) -> (length: usize)
    requires
        all_wf(segments@),
    ensures
        length == payload_sum(segments@),
{
    let mut total: usize = 0;
    let mut i: usize = 0;
    assert(segments@.skip(0) =~= segments@);
    while i < segments.len()
        invariant
            i <= segments@.len(),
            all_wf(segments@),
            total + payload_sum(segments@.skip(i as int)) == payload_sum(segments@),
        decreases segments@.len() - i,
    {
        assert(segments@.skip(i as int).drop_first() =~= segments@.skip(i + 1));
        assert(segments@.skip(i as int)[0] == segments@[i as int]);
        total = total + segments[i].payload_len;
        i = i + 1;
    }
    total
}

/// Hands an acknowledgment to the segments, from the oldest on.
pub fn acknowledge_sent(segments: &mut VecDeque<SentSegment>, acknowledgment: u32)
    requires
        all_wf(old(segments)@),
    ensures
        final(segments)@ == acknowledged(old(segments)@, acknowledgment),
        all_wf(final(segments)@),
{
    let mut going = true;
    while going
        invariant
            all_wf(segments@),
            acknowledged(old(segments)@, acknowledgment) == if going {
                acknowledged(segments@, acknowledgment)
            } else {
                segments@
            },
        decreases segments@.len(), going as int,
    {
        let ghost before = segments@;
        match segments.pop_front() {
            None => {
                assert(before.len() == 0);
                assert(segments@ =~= before);
                going = false;
            },
            Some(first) => {
                assert(segments@ =~= before.drop_first());
                assert(first == before[0]);
                assert forall|i: int| 0 <= i < segments@.len() implies (
                #[trigger] segments@[i]).wf() by {
                    assert(segments@[i] == before[i + 1]);
                }
                let mut first = first;
                if !first.acknowledge(acknowledgment) {
                    let ghost rest = segments@;
                    segments.push_front(first);
                    going = false;
                    assert(segments@ =~= before.update(0, before[0].trimmed(acknowledgment)));
                    assert(segments@.drop_first() =~= rest);
                    assert forall|i: int| 0 <= i < segments@.len() implies (
                    #[trigger] segments@[i]).wf() by {
                        if i > 0 {
                            assert(segments@[i] == before[i]);
                        }
                    }
                }
            },
        }
    }
}

/// An acknowledgment inside a segment moves its start there and leaves its end.
pub proof fn law_trimming_keeps_the_end(segment: SentSegment, acknowledgment: u32)
    requires
        segment.wf(),
        precedes(segment.sequence, acknowledgment),
        precedes(acknowledgment, segment.end()),
        ahead(segment.sequence, acknowledgment) != 0x8000_0000,
        ahead(acknowledgment, segment.end()) != 0x8000_0000,
    ensures
        segment.trimmed(acknowledgment).sequence == acknowledgment,
        segment.trimmed(acknowledgment).end() == segment.end(),
        segment.trimmed(acknowledgment).wf(),
{
    let passed = ahead(segment.sequence, acknowledgment);
    let rest = segment.trimmed(acknowledgment);
    lemma_step_is_short(segment.sequence, acknowledgment);
    lemma_step_is_short(acknowledgment, segment.end());
    lemma_steps_add_up(segment.sequence, acknowledgment, segment.end());
    lemma_places(segment.sequence, segment.span(), segment.span());
    assert(passed < segment.span());
    assert(rest.span() == segment.span() - passed);
    lemma_ahead_advances(segment.sequence, acknowledgment);
    lemma_advanced_twice(segment.sequence, passed, rest.span());
}

/// After five retransmissions a segment is given up, and by then its timeout is
/// eight seconds.
pub proof fn law_retries_end(segment: SentSegment, now: Instant)
    requires
        segment.retries == 0,
        segment.retransmit_timeout == RETRANSMIT_INITIAL,
    ensures
        ({
            let last = segment.timed_out(now).timed_out(now).timed_out(now).timed_out(
                now,
            );
            &&& last.retries < MAX_RETRIES
            &&& last.timed_out(now).retries == MAX_RETRIES
            &&& last.timed_out(now).retransmit_timeout == RETRANSMIT_MAX
        }),
{
}

/// A segment takes one number for each octet and for each of its flags, is done with
/// by an acknowledgment at or behind its end, and by none in front of it. Places are
/// counted from its start.
pub proof fn law_segment_is_done_at_its_end(segment: SentSegment, step: int)
    requires
        segment.payload_len < 0x3fff_0000,
        -0x4000_0000 < step < 0x4000_0000,
    ensures
        ({
            let flags = (if segment.syn {
                1int
            } else {
                0
            }) + (if segment.fin {
                1int
            } else {
                0
            });
            let acknowledgment = ((segment.sequence + step) % 0x1_0000_0000) as u32;
            &&& segment.span() == segment.payload_len + flags
            &&& segment.end() == (segment.sequence + segment.payload_len + flags) % 0x1_0000_0000
            &&& segment.covered(acknowledgment) <==> step > 0 && step >= segment.payload_len + flags
        }),
{
}

/// An acknowledgment inside a segment takes the octets in front of it away, and
/// nothing else: the SYN is gone, and the FIN stays.
pub proof fn law_acknowledged_octets_leave_the_segment(segment: SentSegment, step: int)
    requires
        segment.payload_len < 0x3fff_0000,
        0 < step,
        step < segment.payload_len + (if segment.syn {
            1int
        } else {
            0
        }) + (if segment.fin {
            1int
        } else {
            0
        }),
    ensures
        ({
            let first = if segment.syn {
                1int
            } else {
                0
            };
            let rest = segment.trimmed(((segment.sequence + step) % 0x1_0000_0000) as u32);
            &&& rest.sequence == (segment.sequence + step) % 0x1_0000_0000
            &&& !rest.syn
            &&& rest.fin == segment.fin
            &&& rest.payload_len == segment.payload_len - (step - first)
            &&& rest.last_sent == segment.last_sent
            &&& rest.retries == segment.retries
            &&& rest.retransmit_timeout == segment.retransmit_timeout
        }),
{
}

/// Every timeout doubles the wait for the next one, up to eight seconds, and is
/// counted; the segment stays as it is.
pub proof fn law_timeouts_double(segment: SentSegment, now: Instant)
    requires
        segment.retries < 255,
    ensures
        ({
            let next = segment.timed_out(now);
            &&& next.last_sent == now
            &&& next.retries == segment.retries + 1
            &&& segment.retransmit_timeout <= 4_000_000_000 ==> next.retransmit_timeout == 2
                * segment.retransmit_timeout
            &&& segment.retransmit_timeout > 4_000_000_000 ==> next.retransmit_timeout
                == 8_000_000_000
            &&& next.sequence == segment.sequence
            &&& next.payload_len == segment.payload_len
            &&& next.syn == segment.syn
            &&& next.fin == segment.fin
        }),
        RETRANSMIT_INITIAL == 1_000_000_000,
        MAX_RETRIES == 5,
{
}

/// The payload of some segments is the sum of their payloads.
pub proof fn law_payload_adds_up(first: SentSegment, rest: Seq<SentSegment>)
    ensures
        payload_sum(Seq::<SentSegment>::empty()) == 0,
        payload_sum(seq![first] + rest) == first.payload_len + payload_sum(rest),
{
    assert((seq![first] + rest).drop_first() =~= rest);
}

} // verus!
