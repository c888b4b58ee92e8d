//! A fixed pool of frame buffers.

use vstd::prelude::*;

verus! {

pub struct FrameBuffer {
    bytes: Vec<u8>,
    len: usize,
}

impl FrameBuffer {
    /// All octets of the buffer, used or not.
    pub closed spec fn storage(&self) -> Seq<u8> {
        self.bytes@
    }

    /// How many octets are in use.
    pub closed spec fn used(&self) -> nat {
        self.len as nat
    }

    /// The used octets lie within the buffer.
    pub open spec fn wf(&self) -> bool {
        self.used() <= self.storage().len()
    }

    /// The octets in use.
    pub open spec fn content(&self) -> Seq<u8> {
        self.storage().subrange(0, self.used() as int)
    }

    #[must_use]
    pub fn new(capacity: usize) -> (buffer: FrameBuffer)
        ensures
            buffer.wf(),
            buffer.storage() == Seq::new(capacity as nat, |i: int| 0u8),
            buffer.used() == 0,
    {
        let buffer = FrameBuffer { bytes: vec![0; capacity], len: 0 };
        assert(buffer.storage() =~= Seq::new(capacity as nat, |i: int| 0u8));
        buffer
    }

    #[must_use]
    pub fn capacity(&self) -> (capacity: usize)
        ensures
            capacity == self.storage().len(),
    {
        self.bytes.len()
    }

    /// The whole buffer for writing; nothing is in use afterwards.
    #[must_use]
    pub fn writable(&mut self) -> (bytes: &mut [u8])
        ensures
            bytes@ == old(self).storage(),
            final(self).storage() == final(bytes)@,
            final(self).used() == 0,
    {
        self.len = 0;
        self.bytes.as_mut_slice()
    }

    /// One octet of the buffer, used or not.
    #[must_use]
    pub fn octet(&self, at: usize) -> (octet: u8)
        requires
            at < self.storage().len(),
        ensures
            octet == self.storage()[at as int],
    {
        self.bytes[at]
    }

    pub fn set_len(&mut self, len: usize)
        requires
            len <= old(self).storage().len(),
        ensures
            final(self).wf(),
            final(self).storage() == old(self).storage(),
            final(self).used() == len,
    {
        self.len = len;
    }

    #[must_use]
    pub fn bytes(&self) -> (bytes: &[u8])
        requires
            self.wf(),
        ensures
            bytes@ == self.content(),
    {
        vstd::slice::slice_subrange(self.bytes.as_slice(), 0, self.len)
    }
}

pub struct BufferPool {
    buffers: Vec<Option<FrameBuffer>>,
    free: Vec<usize>,
}

impl BufferPool {
    /// The places of the pool: each holds its buffer unless it is out.
    pub closed spec fn places(&self) -> Seq<Option<FrameBuffer>> {
        self.buffers@
    }

    /// The places whose buffer is in, the next to go out last.
    pub closed spec fn free(&self) -> Seq<usize> {
        self.free@
    }

    /// The free list names every place whose buffer is in, once each.
    pub open spec fn wf(&self) -> bool {
        &&& self.free().no_duplicates()
        &&& forall|i: int|
            0 <= i < self.free().len() ==> (#[trigger] self.free()[i]) < self.places().len()
                && self.places()[self.free()[i] as int] is Some
        &&& forall|p: int|
            0 <= p < self.places().len() && (#[trigger] self.places()[p]) is Some
                ==> self.free().contains(p as usize)
    }

    #[must_use]
    pub fn new(count: usize, frame_capacity: usize) -> (pool: BufferPool)
        ensures
            pool.wf(),
            pool.places().len() == count,
            forall|p: int|
                0 <= p < count ==> {
                    &&& (#[trigger] pool.places()[p]) is Some
                    &&& pool.places()[p].unwrap().storage() == Seq::new(
                        frame_capacity as nat,
                        |i: int| 0u8,
                    )
                    &&& pool.places()[p].unwrap().used() == 0
                },
            pool.free() == Seq::new(count as nat, |i: int| (count - 1 - i) as usize),
    {
        let mut buffers: Vec<Option<FrameBuffer>> = Vec::new();
        let mut free: Vec<usize> = Vec::new();
        let mut i: usize = 0;
        while i < count
            invariant
                i <= count,
                buffers@.len() == i,
                free@.len() == i,
                forall|p: int|
                    0 <= p < i ==> {
                        &&& (#[trigger] buffers@[p]) is Some
                        &&& buffers@[p].unwrap().storage() == Seq::new(
                            frame_capacity as nat,
                            |i: int| 0u8,
                        )
                        &&& buffers@[p].unwrap().used() == 0
                    },
                forall|j: int| 0 <= j < i ==> #[trigger] free@[j] == count - 1 - j,
            decreases count - i,
        {
            buffers.push(Some(FrameBuffer::new(frame_capacity)));
            free.push(count - 1 - i);
            i = i + 1;
        }
        let pool = BufferPool { buffers, free };
        assert(pool.free() =~= Seq::new(count as nat, |i: int| (count - 1 - i) as usize));
        assert forall|p: int|
            0 <= p < pool.places().len() && (#[trigger] pool.places()[p])
                is Some implies pool.free().contains(p as usize) by {
            assert(pool.free()[count - 1 - p] == p as usize);
        }
        pool
    }

    /// Takes a buffer out, if there is one.
    pub fn acquire(&mut self) -> (taken: Option<(usize, FrameBuffer)>)
        requires
            old(self).wf(),
        ensures
            final(self).wf(),
            match taken {
                Some((index, buffer)) => {
                    &&& old(self).free().len() > 0
                    &&& index == old(self).free().last()
                    &&& old(self).places()[index as int] == Some(buffer)
                    &&& final(self).places() == old(self).places().update(index as int, None)
                    &&& final(self).free() == old(self).free().drop_last()
                },
                None => {
                    &&& old(self).free().len() == 0
                    &&& final(self).places() == old(self).places()
                    &&& final(self).free() == old(self).free()
                },
            },
    {
        let ghost before = *self;
        let count: usize = self.buffers.len();
        match self.free.pop() {
            None => None,
            Some(index) => {
                assert(index == before.free()[before.free().len() - 1]);
                let taken = self.buffers[index].take();
                assert(self.places() =~= before.places().update(index as int, None));
                assert(self.free() =~= before.free().drop_last());
                assert forall|p: int|
                    0 <= p < self.places().len() && (#[trigger] self.places()[p])
                        is Some implies self.free().contains(p as usize) by {
                    assert(before.places()[p] is Some);
                    let j = choose|j: int|
                        0 <= j < before.free().len() && before.free()[j] == p as usize;
                    assert(self.free()[j] == p as usize);
                }
                match taken {
                    Some(buffer) => Some((index, buffer)),
                    None => None,
                }
            },
        }
    }

    /// Puts a buffer back into its place.
    pub fn release(&mut self, index: usize, buffer: FrameBuffer)
        requires
            old(self).wf(),
            index < old(self).places().len(),
            old(self).places()[index as int] is None,
        ensures
            final(self).wf(),
            final(self).places() == old(self).places().update(index as int, Some(buffer)),
            final(self).free() == old(self).free().push(index),
    {
        let ghost before = *self;
        let count: usize = self.buffers.len();
        self.buffers.set(index, Some(buffer));
        self.free.push(index);
        assert forall|i: int| 0 <= i < self.free().len() implies (#[trigger] self.free()[i])
            < self.places().len() && self.places()[self.free()[i] as int] is Some by {
            if i < before.free().len() {
                assert(self.free()[i] == before.free()[i]);
            }
        }
        assert forall|p: int|
            0 <= p < self.places().len() && (#[trigger] self.places()[p])
                is Some implies self.free().contains(p as usize) by {
            if p != index {
                assert(before.places()[p] is Some);
                let j = choose|j: int|
                    0 <= j < before.free().len() && before.free()[j] == p as usize;
                assert(self.free()[j] == p as usize);
            } else {
                assert(self.free()[before.free().len() as int] == index);
            }
        }
        assert(self.free().no_duplicates()) by {
            assert forall|i: int, j: int|
                0 <= i < self.free().len() && 0 <= j < self.free().len() && i
                    != j implies self.free()[i] != self.free()[j] by {
                if i < before.free().len() {
                    assert(before.places()[before.free()[i] as int] is Some);
                }
                if j < before.free().len() {
                    assert(before.places()[before.free()[j] as int] is Some);
                }
            }
        }
    }

    #[must_use]
    pub fn available(&self) -> (count: usize)
        ensures
            count == self.free().len(),
    {
        self.free.len()
    }
}

} // verus!
