//! The source of randomness: the thread-local generator of the `rand` crate.

use vstd::prelude::*;
use rand::rngs::ThreadRng;
use rand::Rng;

verus! {

#[verifier::external_type_specification]
#[verifier::external_body]
pub struct ExThreadRng(ThreadRng);

/// `rand::thread_rng` hands out the generator of the current thread. Nothing
/// is claimed of it.
pub assume_specification[ rand::thread_rng ]() -> (rng: ThreadRng);

/// `Rng::gen_range` on the inclusive range from 0 to `high`: the number drawn
/// lies in that range. Which number it is depends on chance, so nothing more
/// is claimed.
#[verifier::external_body]
pub(crate) fn random_up_to(rng: &mut ThreadRng, high: usize) -> (drawn: usize)
    ensures
        drawn <= high,
{
    rng.gen_range(0..=high)
}

} // verus!
