//! Random octets from the system.

use vstd::prelude::*;

verus! {

/// Calls `getrandom::fill`: it overwrites all of `out` and keeps its length, or
/// fails. Which octets come is up to the system, and so is whether any come.
#[verifier::external_body]
pub(crate) fn fill(out: &mut [u8]) -> (filled: bool)
    ensures
        final(out)@.len() == old(out)@.len(),
{
    getrandom::fill(out).is_ok()
}

} // verus!
