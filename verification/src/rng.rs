//! The injectable random-source capability used to seed the clustering:
//! a caller-supplied `rand::rngs::StdRng`, so that repeated analyses with
//! an identically seeded generator are reproducible.
use vstd::prelude::*;

use rand::RngExt;

verus! {

#[verifier::external_type_specification]
#[verifier::external_body]
pub struct ExStdRng(rand::rngs::StdRng);

/// Relies on rand's `RngExt::random_range` over `0..n`: the result is an
/// index below `n`. The call panics on an empty range, so `n` must be
/// positive. Nothing more is assumed: the drawn value depends on the
/// generator's state.
#[verifier::external_body]
pub(crate) fn rand_index(rng: &mut rand::rngs::StdRng, n: usize) -> (r: usize)
    requires
        n >= 1,
    ensures
        r < n,
{
    rng.random_range(0..n)
}

} // verus!
