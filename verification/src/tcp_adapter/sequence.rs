//! Sequence numbers modulo 2^32.

use vstd::prelude::*;

verus! {

/// How far `end` lies ahead of `start`, modulo 2^32.
pub open spec fn ahead(start: u32, end: u32) -> int {
    (end - start) % 0x1_0000_0000
}

/// Whether `left` precedes `right`: going from `right` to `left` takes at least
/// half of the sequence space.
pub open spec fn precedes(left: u32, right: u32) -> bool {
    ahead(right, left) >= 0x8000_0000
}

/// `start` moved on by `length`, modulo 2^32.
pub open spec fn advanced(start: u32, length: int) -> u32 {
    ((start + length) % 0x1_0000_0000) as u32
}

#[must_use]
pub fn before(left: u32, right: u32) -> (result: bool)
    ensures
        result == precedes(left, right),
{
    left.wrapping_sub(right) >= 0x8000_0000
}

#[must_use]
pub fn after(left: u32, right: u32) -> (result: bool)
    ensures
        result == precedes(right, left),
{
    before(right, left)
}

#[must_use]
pub fn before_or_equal(left: u32, right: u32) -> (result: bool)
    ensures
        result == (left == right || precedes(left, right)),
{
    left == right || before(left, right)
}

#[must_use]
pub fn distance(start: u32, end: u32) -> (result: u32)
    ensures
        result == ahead(start, end),
{
    end.wrapping_sub(start)
}

/// Moves `start` on by `length`.
#[must_use]
pub fn advance(start: u32, length: u32) -> (result: u32)
    ensures
        result == advanced(start, length as int),
{
    start.wrapping_add(length)
}

/// Two different numbers that are not exactly half of the space apart are
/// ordered one way and not the other; equal numbers are not ordered.
pub proof fn law_order_is_strict(left: u32, right: u32)
    ensures
        !precedes(left, left),
        left != right && ahead(left, right) != 0x8000_0000 ==> (precedes(left, right)
            <==> !precedes(right, left)),
        ahead(left, right) == 0x8000_0000 ==> precedes(left, right) && precedes(right, left),
{
}

/// The order does not depend on where the space wraps: moving both numbers on
/// alike keeps it.
pub proof fn law_order_survives_wrap(left: u32, right: u32, length: u32)
    ensures
        precedes(advanced(left, length as int), advanced(right, length as int)) == precedes(
            left,
            right,
        ),
        ahead(advanced(left, length as int), advanced(right, length as int)) == ahead(left, right),
{
}

/// A number moved on by a distance arrives at its end.
pub proof fn law_distance_advances(start: u32, end: u32)
    ensures
        advanced(start, ahead(start, end)) == end,
{
}

/// Within half of the space the order is transitive.
pub proof fn law_order_is_transitive(a: u32, b: u32, c: u32)
    requires
        precedes(a, b),
        precedes(b, c),
        ahead(a, b) + ahead(b, c) < 0x8000_0000,
    ensures
        precedes(a, c),
{
}

/// A number is where its distance leads.
pub proof fn lemma_ahead_advances(initial: u32, number: u32)
    ensures
        number == advanced(initial, ahead(initial, number)),
{
}

/// Places of less than half of the sequence space are ordered as their sequence
/// numbers are.
pub proof fn lemma_places(initial: u32, a: int, b: int)
    requires
        0 <= a < 0x8000_0000,
        0 <= b < 0x8000_0000,
    ensures
        ahead(initial, advanced(initial, a)) == a,
        precedes(advanced(initial, a), advanced(initial, b)) == (a < b),
        a <= b ==> ahead(advanced(initial, a), advanced(initial, b)) == b - a,
        (advanced(initial, a) == advanced(initial, b)) == (a == b),
{
}

/// Moving on twice is moving on by both lengths.
pub proof fn lemma_advanced_twice(initial: u32, a: int, b: int)
    ensures
        advanced(advanced(initial, a), b) == advanced(initial, a + b),
{
}

/// Two steps that together stay within the sequence space add up.
pub proof fn lemma_steps_add_up(a: u32, b: u32, c: u32)
    requires
        ahead(a, b) + ahead(b, c) < 0x1_0000_0000,
    ensures
        ahead(a, c) == ahead(a, b) + ahead(b, c),
{
}

/// The way between two places is the difference of their places.
pub proof fn lemma_difference(initial: u32, a: u32, b: u32)
    requires
        ahead(initial, a) <= ahead(initial, b),
    ensures
        ahead(a, b) == ahead(initial, b) - ahead(initial, a),
{
}

/// A number behind another one, and not exactly half of the space behind it, is
/// less than half of the space behind it.
pub proof fn lemma_step_is_short(a: u32, b: u32)
    requires
        precedes(a, b),
        ahead(a, b) != 0x8000_0000,
    ensures
        0 < ahead(a, b) < 0x8000_0000,
{
}

/// A number that is reached by going on from another, by less than half of the
/// space, lies that far ahead of it and comes later, also where the space wraps.
pub proof fn law_later_numbers_are_ahead(start: u32, step: int)
    requires
        0 < step < 0x8000_0000,
    ensures
        ({
            let later = ((start + step) % 0x1_0000_0000) as u32;
            &&& advanced(start, step) == later
            &&& ahead(start, later) == step
            &&& precedes(start, later)
            &&& !precedes(later, start)
        }),
{
}

} // verus!
