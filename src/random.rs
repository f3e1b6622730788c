use vstd::prelude::*;
use rand::Rng;

verus! {

/// Relies on `rand::rng().random_range(0..bound)`: a number drawn from the
/// thread-local generator, below `bound`. The range must not be empty.
#[verifier::external_body]
pub(crate) fn random_below(bound: u64) -> (r: u64)
    requires
        bound > 0,
    ensures
        r < bound,
{
    rand::rng().random_range(0..bound)
}

} // verus!
