use rand::Rng;
use vstd::prelude::*;

verus! {

/// Draws a number below `bound` from the thread's random generator: `gen_range` of the
/// `rand` crate on `thread_rng()` with the range `0..bound`. The range must not be empty,
/// or `gen_range` panics. All that is claimed of the number is that it lies in the range;
/// two draws may differ.
#[verifier::external_body]
pub(crate) fn random_below(bound: usize) -> (r: usize)
    requires
        bound > 0,
    ensures
        r < bound,
{
    rand::thread_rng().gen_range(0..bound)
}

} // verus!
