//! Namespace payload that waits for room in the upstream socket.

use std::collections::VecDeque;
use vstd::prelude::*;

verus! {

/// The octets of `chunks`, one behind the other.
pub open spec fn joined(chunks: Seq<Vec<u8>>) -> Seq<u8>
    decreases chunks.len(),
{
    if chunks.len() == 0 {
        Seq::empty()
    } else {
        chunks[0]@ + joined(chunks.drop_first())
    }
}

/// The octets of each of `chunks`.
pub open spec fn pieces(chunks: Seq<Vec<u8>>) -> Seq<Seq<u8>> {
    Seq::new(chunks.len(), |i: int| chunks[i]@)
}

/// Pieces after `taken` octets of the first one were taken: a piece that is used
/// up leaves, and the others stay.
pub open spec fn without(pieces: Seq<Seq<u8>>, taken: int) -> Seq<Seq<u8>> {
    if pieces.len() == 0 {
        pieces
    } else if taken < pieces[0].len() {
        pieces.update(0, pieces[0].skip(taken))
    } else {
        pieces.drop_first()
    }
}

#[derive(Debug)]
pub struct PendingSocketQueue {
    chunks: VecDeque<Vec<u8>>,
    bytes: usize,
    limit: usize,
}

impl PendingSocketQueue {
    /// The waiting octets, in the pieces in which they came.
    pub closed spec fn chunks(&self) -> Seq<Vec<u8>> {
        self.chunks@
    }

    pub closed spec fn bound(&self) -> usize {
        self.limit
    }

    /// The waiting octets.
    pub open spec fn waiting(&self) -> Seq<u8> {
        joined(self.chunks())
    }

    #[verifier::type_invariant]
    spec fn counted(self) -> bool {
        &&& self.bytes == joined(self.chunks@).len()
        &&& self.bytes <= self.limit
        &&& forall|i: int| 0 <= i < self.chunks@.len() ==> (#[trigger] self.chunks@[i])@.len() > 0
    }

    #[must_use]
    pub fn new(limit: usize) -> (queue: PendingSocketQueue)
        ensures
            queue.chunks().len() == 0,
            queue.waiting() == Seq::<u8>::empty(),
            queue.bound() == limit,
    {
        PendingSocketQueue { chunks: VecDeque::new(), bytes: 0, limit }
    }

    /// Appends `bytes`, if they fit under the limit.
    pub fn push(&mut self, bytes: &[u8]) -> (result: Result<(), ()>)
        ensures
            result is Err <==> old(self).waiting().len() + bytes@.len() > old(self).bound(),
            final(self).bound() == old(self).bound(),
            result is Ok ==> final(self).waiting() == old(self).waiting() + bytes@,
            result is Err ==> final(self).chunks() == old(self).chunks(),
            result is Ok ==> final(self).chunks().len() == old(self).chunks().len() + (
            if bytes@.len() > 0 {
                1int
            } else {
                0
            }),
            result is Ok ==> forall|i: int|
                0 <= i < old(self).chunks().len() ==> final(self).chunks()[i] == old(self).chunks()[i],
    {
        proof {
            use_type_invariant(&*self);
        }
        if bytes.len() > self.limit - self.bytes {
            return Err(());
        }
        if bytes.len() > 0 {
            let chunks: VecDeque<Vec<u8>> = VecDeque::new();
            let total: usize = self.bytes + bytes.len();
            let limit: usize = self.limit;
            let ghost before = self.chunks@;
            let chunk = vstd::slice::slice_to_vec(bytes);
            *self = {
                let mut empty = PendingSocketQueue { chunks, bytes: 0, limit };
                std::mem::swap(&mut empty, self);
                let mut held = empty.chunks;
                held.push_back(chunk);
                proof {
                    lemma_joined_push(before, chunk);
                }
                PendingSocketQueue { chunks: held, bytes: total, limit }
            };
        }
        assert(self.waiting() =~= old(self).waiting() + bytes@);
        Ok(())
    }

    #[must_use]
    pub fn front(&self) -> (chunk: Option<&[u8]>)
        ensures
            match chunk {
                Some(bytes) => self.chunks().len() > 0 && bytes@ == self.chunks()[0]@ && bytes@.len()
                    > 0,
                None => self.chunks().len() == 0,
            },
    {
        proof {
            use_type_invariant(self);
        }
        if self.chunks.len() == 0 {
            None
        } else {
            Some(self.chunks[0].as_slice())
        }
    }

    /// Takes up to `length` octets from the first piece and tells how many.
    pub fn consume(&mut self, length: usize) -> (taken: usize)
        ensures
            final(self).bound() == old(self).bound(),
            taken == if old(self).chunks().len() == 0 {
                0
            } else if length <= old(self).chunks()[0]@.len() {
                length as int
            } else {
                old(self).chunks()[0]@.len() as int
            },
            taken <= old(self).waiting().len(),
            final(self).waiting() == old(self).waiting().skip(taken as int),
            pieces(final(self).chunks()) == without(pieces(old(self).chunks()), taken as int),
    {
        proof {
            use_type_invariant(&*self);
        }
        if self.chunks.len() == 0 {
            assert(self.waiting() =~= self.waiting().skip(0));
            return 0;
        }
        let ghost before = self.chunks@;
        let total: usize = self.bytes;
        let limit: usize = self.limit;
        let mut taken: usize = 0;
        *self = {
            let mut empty = PendingSocketQueue { chunks: VecDeque::new(), bytes: 0, limit };
            std::mem::swap(&mut empty, self);
            let mut held = empty.chunks;
            let first = held.pop_front();
            assert(held@ =~= before.drop_first());
            match first {
                Some(front) => {
                    let size: usize = front.len();
                    taken = if length <= size {
                        length
                    } else {
                        size
                    };
                    let rest = vstd::slice::slice_subrange(front.as_slice(), taken, size);
                    assert(front@ == before[0]@);
                    assert(joined(before) == front@ + joined(held@));
                    assert(joined(before).skip(taken as int) =~= rest@ + joined(held@));
                    assert forall|i: int| 0 <= i < held@.len() implies (
                    #[trigger] held@[i])@.len() > 0 by {
                        assert(held@[i] == before[i + 1]);
                    }
                    if taken < size {
                        let ghost tail = held@;
                        let rest = vstd::slice::slice_to_vec(rest);
                        held.push_front(rest);
                        assert(held@.drop_first() =~= tail);
                        assert(pieces(held@) =~= without(pieces(before), taken as int)) by {
                            assert(rest@ =~= before[0]@.skip(taken as int));
                        }
                        assert forall|i: int| 0 <= i < held@.len() implies (
                        #[trigger] held@[i])@.len() > 0 by {
                            if i > 0 {
                                assert(held@[i] == tail[i - 1]);
                            }
                        }
                    } else {
                        assert(rest@ + joined(held@) =~= joined(held@));
                        assert(pieces(held@) =~= without(pieces(before), taken as int));
                    }
                    PendingSocketQueue { chunks: held, bytes: total - taken, limit }
                },
                None => PendingSocketQueue { chunks: VecDeque::new(), bytes: 0, limit },
            }
        };
        taken
    }

    #[must_use]
    pub fn is_empty(&self) -> (empty: bool)
        ensures
            empty == (self.waiting().len() == 0),
    {
        proof {
            use_type_invariant(self);
        }
        self.bytes == 0
    }

    #[must_use]
    pub fn remaining(&self) -> (room: usize)
        ensures
            room == self.bound() - self.waiting().len(),
    {
        proof {
            use_type_invariant(self);
        }
        self.limit - self.bytes
    }

    #[must_use]
    pub fn len(&self) -> (length: usize)
        ensures
            length == self.waiting().len(),
            length <= self.bound(),
    {
        proof {
            use_type_invariant(self);
        }
        self.bytes
    }
}

proof fn lemma_joined_push(chunks: Seq<Vec<u8>>, chunk: Vec<u8>)
    ensures
        joined(chunks.push(chunk)) == joined(chunks) + chunk@,
    decreases chunks.len(),
{
    if chunks.len() == 0 {
        assert(chunks.push(chunk).drop_first() =~= Seq::<Vec<u8>>::empty());
        assert(joined(chunks.push(chunk).drop_first()) =~= Seq::<u8>::empty());
        assert(chunks.push(chunk)[0] == chunk);
        assert(joined(chunks.push(chunk)) =~= joined(chunks) + chunk@);
    } else {
        assert(chunks.push(chunk).drop_first() =~= chunks.drop_first().push(chunk));
        lemma_joined_push(chunks.drop_first(), chunk);
        assert(joined(chunks.push(chunk)) =~= joined(chunks) + chunk@);
    }
}

/// Octets that are taken come off the front: what is left is the rest, in order.
pub proof fn law_octets_are_taken_from_the_front(pieces: Seq<Seq<u8>>, taken: int)
    requires
        pieces.len() > 0,
        0 <= taken <= pieces[0].len(),
    ensures
        taken < pieces[0].len() ==> {
            &&& without(pieces, taken).len() == pieces.len()
            &&& without(pieces, taken)[0] == pieces[0].skip(taken)
            &&& forall|i: int|
                1 <= i < pieces.len() ==> #[trigger] without(pieces, taken)[i] == pieces[i]
        },
        taken == pieces[0].len() ==> {
            &&& without(pieces, taken).len() == pieces.len() - 1
            &&& forall|i: int|
                0 <= i < pieces.len() - 1 ==> #[trigger] without(pieces, taken)[i] == pieces[i + 1]
        },
{
}

} // verus!
