//! The random source behind every tie-break of a tick.
//!
//! Nothing here is proved: each item states what is taken on trust about the
//! `rand` crate.

use rand::rngs::ThreadRng;
use rand::seq::SliceRandom;
use rand::Rng;
use vstd::prelude::*;

verus! {

/// `rand::rngs::ThreadRng`, a handle to the generator of the current thread.
/// Its state is opaque.
#[verifier::external_type_specification]
#[verifier::external_body]
pub struct ExThreadRng(ThreadRng);

/// `rand::thread_rng`: hands out the generator of the current thread.
/// Nothing is claimed of it. It is seeded by the operating system, and gives
/// up only where that has no entropy to give.
pub assume_specification[ rand::thread_rng ]() -> (rng: ThreadRng);

/// `Rng::gen::<bool>`: one random boolean. Either value may come back, so
/// the contract promises nothing.
#[verifier::external_body]
pub(crate) fn coin(rng: &mut ThreadRng) -> (heads: bool) {
    rng.gen()
}

/// `SliceRandom::shuffle`: reorders the positions in place by swapping
/// elements. Whatever the generator yields, the outcome holds the same
/// positions, each as often as before.
#[verifier::external_body]
pub(crate) fn shuffle(positions: &mut Vec<(usize, usize)>, rng: &mut ThreadRng)
    ensures
        final(positions)@.to_multiset() == old(positions)@.to_multiset(),
        final(positions)@.len() == old(positions)@.len(),
{
    positions.shuffle(rng);
}

} // verus!
