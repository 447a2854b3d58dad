//! The random numbers the gateway draws.

use rand::Rng;
use vstd::prelude::*;

verus! {

/// `rand::thread_rng` and `Rng::gen_range` on `0..bound`: a number below
/// `bound`. Which one is not stated: it is drawn at random. An empty range
/// makes `gen_range` panic, so `bound` is positive.
#[verifier::external_body]
pub(crate) fn random_below(bound: usize) -> (n: usize)
    requires
        bound > 0,
    ensures
        n < bound,
{
    rand::thread_rng().gen_range(0..bound)
}

} // verus!
