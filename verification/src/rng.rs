//! The crate's one source of randomness, behind a trusted boundary.

use vstd::prelude::*;

verus! {

/// Relies on `rand::Rng::gen_range` over the thread-local generator
/// `rand::thread_rng`: a uniformly distributed index strictly below `bound`.
/// Nothing more is assumed of the draw than its range.
#[verifier::external_body]
pub(crate) fn random_below(bound: usize) -> (r: usize)
    requires
        bound >= 1,
    ensures
        r < bound,
{
    rand::Rng::gen_range(&mut rand::thread_rng(), 0..bound)
}

} // verus!
