//! The random number generator of the VM (from the `rand` crate).
use vstd::prelude::*;
use rand::rngs::SmallRng;
use rand::Rng;
use rand::SeedableRng;
use rand::rngs::OsRng;

verus! {

#[verifier::external_type_specification]
#[verifier::external_body]
pub struct ExSmallRng(SmallRng);

/// Calls `SeedableRng::seed_from_u64` for `SmallRng`: a generator whose
/// sequence is determined by `seed`. Nothing is stated of the generator.
#[verifier::external_body]
pub(crate) fn rng_from_seed(seed: u64) -> SmallRng {
    SmallRng::seed_from_u64(seed)
}

/// Calls `SeedableRng::from_rng` for `SmallRng` with `OsRng`: a generator
/// seeded from the operating system, or `None` when the operating system
/// provides no random bytes. Nothing is stated of the generator.
#[verifier::external_body]
pub(crate) fn rng_from_os() -> Option<SmallRng> {
    match SmallRng::from_rng(OsRng) {
        Ok(g) => Some(g),
        Err(_) => None,
    }
}

/// Calls `Rng::gen_range(1..=n)`: a value in `[1, n]`. The outside function
/// panics on an empty range, which `n >= 1` rules out.
#[verifier::external_body]
pub(crate) fn rng_range_1_to(rng: &mut SmallRng, n: i64) -> (r: i64)
    requires
        n >= 1,
    ensures
        1 <= r <= n,
{
    rng.gen_range(1..=n)
}

} // verus!
