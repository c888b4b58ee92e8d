//! Bulk transfers for measurements.

use vstd::prelude::*;

verus! {

/// The most octets of one read or write.
pub const BUFFER_SIZE: usize = 65536;

/// How many octets the next read or write has while `remaining` are to come.
#[must_use]
pub fn chunk_len(remaining: u64) -> (length: usize)
    ensures
        length == if remaining < BUFFER_SIZE {
            remaining as int
        } else {
            BUFFER_SIZE as int
        },
{
    if remaining < BUFFER_SIZE as u64 {
        remaining as usize
    } else {
        BUFFER_SIZE
    }
}

/// What a transfer does next.
#[derive(Clone, Copy, Debug, PartialEq, Eq)]
pub enum Transfer {
    /// So many octets at most are read next.
    Read(usize),
    Complete,
}

/// What a sink does after it has received so many of the expected octets.
#[must_use]
pub fn sink_step(received: u64, expected: u64) -> (step: Transfer)
    ensures
        match step {
            Transfer::Read(length) => {
                &&& received < expected
                &&& 0 < length <= BUFFER_SIZE
                &&& length <= expected - received
                &&& length == BUFFER_SIZE || length == expected - received
            },
            Transfer::Complete => received >= expected,
        },
{
    if received >= expected {
        return Transfer::Complete;
    }
    Transfer::Read(chunk_len(expected - received))
}

/// Counts the octets of a read. A read of nothing means that the source ended
/// early.
pub fn count_received(received: u64, length: usize) -> (result: Result<u64, &'static str>)
    ensures
        match result {
            Ok(total) => length > 0 && total == received + length,
            Err(reason) => {
                ||| length == 0 && reason == "early EOF"
                ||| received + length > u64::MAX && reason == "byte count overflow"
            },
        },
{
    if length == 0 {
        return Err("early EOF");
    }
    match received.checked_add(length as u64) {
        Some(total) => Ok(total),
        None => Err("byte count overflow"),
    }
}

pub open spec fn sum_of(counts: Seq<u64>) -> int
    decreases counts.len(),
{
    if counts.len() == 0 {
        0
    } else {
        sum_of(counts.drop_last()) + counts.last()
    }
}

proof fn lemma_sum_grows(counts: Seq<u64>, i: int)
    requires
        0 <= i <= counts.len(),
    ensures
        0 <= sum_of(counts.take(i)) <= sum_of(counts),
    decreases counts.len(),
{
    if counts.len() == 0 {
        assert(counts.take(i) =~= counts);
    } else if i < counts.len() {
        assert(counts.drop_last().take(i) =~= counts.take(i));
        lemma_sum_grows(counts.drop_last(), i);
    } else {
        assert(counts.take(i) =~= counts);
        lemma_sum_grows(counts.drop_last(), 0);
        assert(counts.drop_last().take(0) =~= Seq::<u64>::empty());
    }
}

/// What all workers received together.
pub fn total_received(counts: &[u64]) -> (result: Result<u64, &'static str>)
    ensures
        match result {
            Ok(total) => total == sum_of(counts@),
            Err(reason) => sum_of(counts@) > u64::MAX && reason == "total byte count overflow",
        },
{
    let mut total: u64 = 0;
    let mut i: usize = 0;
    assert(counts@.take(0) =~= Seq::<u64>::empty());
    while i < counts.len()
        invariant
            i <= counts@.len(),
            total == sum_of(counts@.take(i as int)),
        decreases counts@.len() - i,
    {
        assert(counts@.take(i + 1).drop_last() =~= counts@.take(i as int));
        proof {
            lemma_sum_grows(counts@, i + 1);
        }
        match total.checked_add(counts[i]) {
            Some(sum) => {
                total = sum;
            },
            None => return Err("total byte count overflow"),
        }
        i = i + 1;
    }
    assert(counts@.take(i as int) =~= counts@);
    Ok(total)
}

/// The total is the sum of all counts.
pub proof fn law_counts_add_up(counts: Seq<u64>, count: u64)
    ensures
        sum_of(Seq::empty()) == 0,
        sum_of(counts.push(count)) == sum_of(counts) + count,
{
    assert(counts.push(count).drop_last() =~= counts);
}

} // verus!
