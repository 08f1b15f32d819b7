use vstd::prelude::*;

verus! {

/// Multiplier of the sampler's linear congruential step.
pub const LCG_MUL: u64 = 6364136223846793005;

/// Increment of the sampler's linear congruential step.
pub const LCG_INC: u64 = 1442695040888963407;

/// Relies on rand::random_range: a uniform draw over all of `u64`, used only
/// to seed a sampler.
#[verifier::external_body]
fn random_seed() -> u64 {
    rand::random_range(0..=u64::MAX)
}

/// The sampler state that follows the given one.
pub open spec fn spec_next_state(state: u64) -> u64 {
    vstd::wrapping::u64_specs::wrapping_add(
        vstd::wrapping::u64_specs::wrapping_mul(state, LCG_MUL),
        LCG_INC,
    )
}

/// The sampler state after the given number of draws.
pub open spec fn spec_state_after(state: u64, k: nat) -> u64
    decreases k,
{
    if k == 0 {
        state
    } else {
        spec_next_state(spec_state_after(state, (k - 1) as nat))
    }
}

/// The value the sampler draws from the given state: the high half of the
/// next state, reduced below the bound.
pub open spec fn spec_draw(state: u64, bound: u64) -> u64 {
    (spec_next_state(state) >> 32) % bound
}

/// The source of the probability draws of a filter pass: a seedable
/// generator, so that a pass can be reproduced draw for draw, seeded from
/// entropy where reproducibility is not wanted.
pub struct Sampler {
    state: u64,
}

impl Sampler {
    /// The sampler's current state, for use in contracts.
    pub closed spec fn spec_state(self) -> u64 {
        self.state
    }

    /// Creates a sampler that will make the fixed sequence of draws the seed
    /// determines.
    pub fn from_seed(seed: u64) -> (r: Self)
        ensures
            r.spec_state() == seed,
    {
        Self { state: seed }
    }

    /// Creates a sampler seeded from the process's own source of randomness.
    pub fn from_entropy() -> Self {
        Self { state: random_seed() }
    }

    /// Draws the next value below the given bound and advances the state.
    pub fn next_below(&mut self, bound: u32) -> (r: u32)
        requires
            bound >= 1,
        ensures
            r < bound,
            r == spec_draw(old(self).spec_state(), bound as u64),
            final(self).spec_state() == spec_next_state(old(self).spec_state()),
    {
        let next: u64 = self.state.wrapping_mul(LCG_MUL).wrapping_add(LCG_INC);
        self.state = next;
        let sample: u64 = (next >> 32) % (bound as u64);
        sample as u32
    }
}

} // verus!
