//! A middle-square-style pseudo-random generator used only for mine
//! placement. Branch-free and dependency-free; not cryptographically random.

use vstd::prelude::*;

verus! {

/// The successor of a 32-bit seed `s`: square it, divide by 100000, reduce
/// modulo 10^10, and truncate the result into 32 bits. If the seed reaches 0
/// every later output is 0; the generator does not reseed.
pub open spec fn rng_step(s: u32) -> u32 {
    ((((s * s) / 100000) % 10_000_000_000) % 0x1_0000_0000) as u32
}

/// Advance the seed in place by one middle-square step.
pub fn regen_random(rand: &mut u32)
    ensures
        *final(rand) == rng_step(*old(rand)),
{
    let mut product: u64 = *rand as u64;
    assert(product * product <= 0xFFFF_FFFFu64 * 0xFFFF_FFFFu64) by (nonlinear_arith)
        requires
            product <= 0xFFFF_FFFFu64,
    ;
    product = product * product;
    // Base 10 keeps the state somewhat stable, where base 2 would collapse
    // toward 0 quickly.
    product = product / 100_000;
    product = product % 10_000_000_000;
    *rand = (product % 0x1_0000_0000) as u32;
}

/// A seedable pseudo-random source producing bounded integers.
pub struct RandomSource {
    seed: u32,
}

impl RandomSource {
    /// The current seed state.
    pub closed spec fn seed_spec(self) -> u32 {
        self.seed
    }

    pub fn new(seed: u32) -> (r: RandomSource)
        ensures
            r.seed_spec() == seed,
    {
        RandomSource { seed }
    }

    /// Step the generator and return the new state. Deterministic: a pure
    /// function of the prior state.
    pub fn next(&mut self) -> (r: u32)
        ensures
            r == rng_step(old(self).seed_spec()),
            final(self).seed_spec() == r,
    {
        regen_random(&mut self.seed);
        self.seed
    }
}

} // verus!
