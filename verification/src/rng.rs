//! The pseudo-random source the RANSAC engine draws from.
//!
//! The engine threads one `rand::rngs::StdRng` through all its draws, so a
//! run is reproducible from its seed.  Nothing is assumed about the drawn
//! values beyond their range.

use vstd::prelude::*;

verus! {

#[verifier::external_type_specification]
#[verifier::external_body]
pub struct ExStdRng(rand::rngs::StdRng);

/// Relies on rand's `Rng::gen_range` over `0..bound`: the sample lies in
/// that range, which is nonempty by the precondition.
#[verifier::external_body]
pub(crate) fn gen_index(rng: &mut rand::rngs::StdRng, bound: usize) -> (r: usize)
    requires
        bound >= 1,
    ensures
        r < bound,
{
    rand::Rng::gen_range(rng, 0..bound)
}

} // verus!
