//! The source of randomness used by the generator and the decimator.

use vstd::prelude::*;
use rand::seq::SliceRandom;

verus! {

/// Relies on rand's `SliceRandom::shuffle` with `rand::thread_rng`: a
/// Fisher-Yates shuffle rearranges the elements of the slice in place by
/// swaps, so the new contents are a permutation of the old.
#[verifier::external_body]
pub(crate) fn shuffle_vec<T>(v: &mut Vec<T>)
    ensures
        final(v)@.len() == old(v)@.len(),
        final(v)@.to_multiset() == old(v)@.to_multiset(),
{
    v.shuffle(&mut rand::thread_rng());
}

} // verus!
