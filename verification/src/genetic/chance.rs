//! The random source: the thread-local generator of `rand`.

use rand::rngs::ThreadRng;
use rand::seq::SliceRandom;
use rand::Rng;
use vstd::prelude::*;

verus! {

#[verifier::external_type_specification]
#[verifier::external_body]
pub struct ExThreadRng(ThreadRng);

/// `rand::thread_rng`: a handle to the generator of the calling thread.
#[verifier::external_body]
pub(crate) fn thread_generator() -> ThreadRng {
    rand::thread_rng()
}

/// `Rng::gen_range` on the range from 0 up to but not including `bound`:
/// a number of that range. The call panics on an empty range, which the
/// precondition rules out.
#[verifier::external_body]
pub(crate) fn random_below(rng: &mut ThreadRng, bound: usize) -> (r: usize)
    requires
        bound > 0,
    ensures
        r < bound,
{
    rng.gen_range(0..bound)
}

/// `Rng::gen_range` on the range from `low` to `high`, both included: a
/// number of that range. The call panics on an empty range, which the
/// precondition rules out.
#[verifier::external_body]
pub(crate) fn random_between(rng: &mut ThreadRng, low: i64, high: i64) -> (r: i64)
    requires
        low <= high,
    ensures
        low <= r <= high,
{
    rng.gen_range(low..=high)
}

/// `SliceRandom::shuffle`: puts the entries in a random order. The entries
/// themselves stay, each as often as before.
#[verifier::external_body]
pub(crate) fn shuffle(slots: &mut Vec<usize>, rng: &mut ThreadRng)
    ensures
        final(slots)@.to_multiset() == old(slots)@.to_multiset(),
{
    slots.shuffle(rng)
}

} // verus!
