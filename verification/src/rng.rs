//! A seed-reproducible random source.
//!
//! Every generation pass draws from one of these.  The whole generator's
//! determinism guarantee rests on this type: the same seed and the same
//! sequence of calls produce the same sequence of draws, on every platform
//! and in every process, because the state transition and the draw are pure
//! integer functions of the current state.

use vstd::prelude::*;

verus! {

/// Multiplier of the linear congruential state transition.
pub const LCG_MUL: u64 = 6364136223846793005;

/// Increment of the linear congruential state transition.
pub const LCG_ADD: u64 = 1442695040888963407;

/// The state that follows `s` in the random stream.
pub open spec fn next_state(s: u64) -> u64 {
    vstd::wrapping::u64_specs::wrapping_add(
        vstd::wrapping::u64_specs::wrapping_mul(s, LCG_MUL),
        LCG_ADD,
    )
}

/// The value drawn from state `s` for a request in `[low, high)`.
pub open spec fn draw_value(s: u64, low: u32, high: u32) -> u32
    recommends
        low < high,
{
    (low + (next_state(s) >> 16) % ((high - low) as u64)) as u32
}

/// A deterministic pseudo-random generator.  Identical seed and identical
/// call sequence give identical draws.
pub struct ReproducibleRandom {
    seed: u64,
    state: u64,
}

impl ReproducibleRandom {
    pub closed spec fn spec_seed(&self) -> u64 {
        self.seed
    }

    pub closed spec fn spec_state(&self) -> u64 {
        self.state
    }

    pub fn new(seed: u64) -> (r: ReproducibleRandom)
        ensures
            r.spec_seed() == seed,
            r.spec_state() == seed,
    {
        ReproducibleRandom { seed, state: seed }
    }

    /// The seed this stream was started from.
    pub fn seed(&self) -> (r: u64)
        ensures
            r == self.spec_seed(),
    {
        self.seed
    }

    /// Draws an integer in `[low, high)`: `low` inclusive, `high` exclusive.
    /// The result and the successor state are fixed functions of the current
    /// state and the bounds.
    pub fn gen(&mut self, low: u32, high: u32) -> (r: u32)
        requires
            low < high,
        ensures
            low <= r < high,
            r == draw_value(old(self).spec_state(), low, high),
            final(self).spec_state() == next_state(old(self).spec_state()),
            final(self).spec_seed() == old(self).spec_seed(),
    {
        let next: u64 = self.state.wrapping_mul(LCG_MUL).wrapping_add(LCG_ADD);
        self.state = next;
        let span: u64 = (high - low) as u64;
        let offset: u64 = (next >> 16) % span;
        low + (offset as u32)
    }
}

} // verus!
