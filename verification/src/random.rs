//! The random source that every randomized operation draws from.

use vstd::prelude::*;

verus! {

/// The number of equally likely values of a fractional draw: a draw `d` below
/// `UNIT` stands for the real number `d / UNIT` in `[0, 1)`.
pub const UNIT: u64 = 9_007_199_254_740_992;

#[verifier::external_type_specification]
#[verifier::external_body]
pub struct ExStdRng(rand::rngs::StdRng);

/// `rand::SeedableRng::seed_from_u64` for `StdRng`: a generator whose stream is
/// fixed by the seed. Nothing is claimed of the stream.
#[verifier::external_body]
fn rng_from_seed(seed: u64) -> rand::rngs::StdRng {
    rand::SeedableRng::seed_from_u64(seed)
}

/// `rand::Rng::gen_range` on the half-open range `0..bound`: the value drawn
/// lies in the range. The range must not be empty.
#[verifier::external_body]
fn rng_gen_below(rng: &mut rand::rngs::StdRng, bound: u64) -> (drawn: u64)
    requires
        bound > 0,
    ensures
        drawn < bound,
{
    rand::Rng::gen_range(rng, 0..bound)
}

/// A handle on a pseudo-random generator. It is passed explicitly to whatever
/// needs randomness, so that a caller decides where the stream comes from.
pub struct RandomSource {
    rng: rand::rngs::StdRng,
}

impl RandomSource {
    /// A source whose stream is determined by `seed`.
    pub fn seeded(seed: u64) -> (source: RandomSource) {
        RandomSource { rng: rng_from_seed(seed) }
    }

    /// A uniform draw from `0..bound`.
    pub fn below(&mut self, bound: u64) -> (drawn: u64)
        requires
            bound > 0,
        ensures
            drawn < bound,
    {
        rng_gen_below(&mut self.rng, bound)
    }

    /// A uniform draw from `0..bound`, for indices.
    pub fn index_below(&mut self, bound: usize) -> (drawn: usize)
        requires
            bound > 0,
        ensures
            drawn < bound,
    {
        let drawn: u64 = self.below(bound as u64);
        drawn as usize
    }

    /// A uniform fractional draw: the numerator of a fraction of `UNIT`.
    pub fn fraction(&mut self) -> (drawn: u64)
        ensures
            drawn < UNIT,
    {
        self.below(UNIT)
    }
}

} // verus!
