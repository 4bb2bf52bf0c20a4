//! Randomness, through the `rand` crate.
//!
//! The generator is threaded explicitly through every sampling routine, so
//! a render can be driven from a seeded generator and reproduced, or from
//! an entropy-seeded one. Nothing is assumed of a draw beyond its range.

use vstd::prelude::*;

verus! {

#[verifier::external_type_specification]
#[verifier::external_body]
pub struct ExStdRng(rand::rngs::StdRng);

/// Relies on rand's `SeedableRng::seed_from_u64` for `StdRng`: builds a
/// generator from a word-sized seed.
#[verifier::external_body]
pub fn rng_from_seed(seed: u64) -> rand::rngs::StdRng {
    <rand::rngs::StdRng as rand::SeedableRng>::seed_from_u64(seed)
}

/// Relies on rand's `SeedableRng::from_entropy` for `StdRng`: builds a
/// generator seeded from the system entropy source.
#[verifier::external_body]
pub fn rng_from_entropy() -> rand::rngs::StdRng {
    <rand::rngs::StdRng as rand::SeedableRng>::from_entropy()
}

/// Relies on rand's `Rng::gen_range` on a half-open integer range: the draw
/// lies in the range. The call panics on an empty range, so a nonempty one
/// is required.
#[verifier::external_body]
pub fn rand_range(rng: &mut rand::rngs::StdRng, min: i64, max: i64) -> (r: i64)
    requires
        min < max,
    ensures
        min <= r < max,
{
    rand::Rng::gen_range(rng, min..max)
}

/// Relies on rand's `Rng::gen` at a machine word: an arbitrary draw,
/// used to derive a seed when none was given.
#[verifier::external_body]
pub fn rand_word(rng: &mut rand::rngs::StdRng) -> u64 {
    rand::Rng::gen::<u64>(rng)
}

} // verus!
