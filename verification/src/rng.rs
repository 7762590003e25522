//! The simulator's random source: a `rand::rngs::StdRng` owned by the
//! stochastic simulator and seeded explicitly, so that a run can be
//! replayed.  All randomness enters the verified code through the one
//! uniform draw below; nothing is assumed of a draw beyond its range.

use vstd::prelude::*;
use rand::Rng;
use rand::SeedableRng;

verus! {

/// rand's standard generator, declared opaquely so that a simulator can
/// own one as a field.
#[verifier::external_type_specification]
#[verifier::external_body]
pub struct ExStdRng(rand::rngs::StdRng);

/// Relies on rand's `StdRng::seed_from_u64`: builds a deterministic
/// generator from a word-sized seed.
#[verifier::external_body]
pub(crate) fn rng_from_seed(seed: u64) -> rand::rngs::StdRng {
    rand::rngs::StdRng::seed_from_u64(seed)
}

/// Relies on rand's `Rng::gen_range`: a draw from `[0, n)`, uniform over
/// that range; nothing but the range is assumed of the outcome.
#[verifier::external_body]
pub(crate) fn rng_below(rng: &mut rand::rngs::StdRng, n: u64) -> (r: u64)
    requires
        n >= 1,
    ensures
        r < n,
{
    rng.gen_range(0..n)
}

} // verus!
