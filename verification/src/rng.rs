//! The trusted boundary to the `rand` crate: the tracer draws every
//! random number through `rand_below` on a caller-supplied `StdRng`.

use vstd::prelude::*;

verus! {

/// The `rand` crate's standard seedable generator, opaque to the
/// verifier; the tracer only draws through `rand_below`.
#[verifier::external_type_specification]
#[verifier::external_body]
pub struct ExStdRng(rand::rngs::StdRng);

/// Relies on `rand::Rng::gen_range` over `0..n`: the result is uniform
/// in the range, so in particular below `n`; the range is non-empty, so
/// the call does not panic.
#[verifier::external_body]
pub(crate) fn rand_below(rng: &mut rand::rngs::StdRng, n: u64) -> (r: u64)
    requires
        n >= 1,
    ensures
        r < n,
{
    rand::Rng::gen_range(rng, 0..n)
}

} // verus!
