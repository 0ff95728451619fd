//! The random source of the book probe and of the root score jitter.
use vstd::prelude::*;
use rand::rngs::StdRng;
use rand::Rng;
use rand::SeedableRng;

verus! {

#[verifier::external_type_specification]
#[verifier::external_body]
pub struct ExStdRng(rand::rngs::StdRng);

/// Relies on rand's `SeedableRng::from_os_rng`: a generator seeded from the
/// operating system.
#[verifier::external_body]
pub(crate) fn rng_from_os() -> StdRng {
    StdRng::from_os_rng()
}

/// Relies on rand's `SeedableRng::seed_from_u64`: a generator determined by
/// the seed.
#[verifier::external_body]
pub(crate) fn rng_from_seed(seed: u64) -> StdRng {
    StdRng::seed_from_u64(seed)
}

/// Relies on rand's `Rng::random_range` on `0..n`: a value below `n` (it
/// panics on an empty range).
#[verifier::external_body]
pub(crate) fn random_below(rng: &mut StdRng, n: u64) -> (r: u64)
    requires
        n > 0,
    ensures
        r < n,
{
    rng.random_range(0..n)
}

} // verus!
