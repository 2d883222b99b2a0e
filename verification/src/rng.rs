//! The source of randomness: rand's standard generator behind an explicit,
//! seedable handle, so that every generation pass owns its own source and
//! a fixed seed reproduces a run.

use vstd::prelude::*;
use rand::Rng;
use rand::SeedableRng;

verus! {

/// Declares rand's standard generator so it can live in a field here.
#[verifier::external_type_specification]
#[verifier::external_body]
pub struct ExStdRng(rand::rngs::StdRng);

/// An explicit source of randomness, passed through the samplers and the
/// grid linking pass. Two sources built from the same seed draw the same
/// values in the same order.
pub struct RandomSource {
    inner: rand::rngs::StdRng,
}

impl RandomSource {
    /// Relies on rand's `StdRng::seed_from_u64`, which builds a generator
    /// deterministically from the seed.
    #[verifier::external_body]
    pub fn from_seed(seed: u64) -> (r: RandomSource) {
        RandomSource { inner: rand::rngs::StdRng::seed_from_u64(seed) }
    }

    /// Relies on rand's `Rng::gen_range` over `0..bound`: the draw lies
    /// below `bound`, and only an empty range panics, which the
    /// precondition rules out. Nothing more is assumed of the value.
    #[verifier::external_body]
    pub fn below(&mut self, bound: u32) -> (r: u32)
        requires
            bound >= 1,
        ensures
            r < bound,
    {
        self.inner.gen_range(0..bound)
    }
}

} // verus!
