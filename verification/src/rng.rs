//! An explicit, seeded random source.
//!
//! The sampler threads one of these handles through every random draw, so a
//! render is a pure function of the scene, the configuration and the seed:
//! two renders from the same seed agree byte for byte. Each pixel gets its
//! own stream derived from the seed and the pixel index, which keeps pixels
//! independent of each other and safe to compute in parallel.
//!
//! The generator is a 64-bit linear congruential generator; draws take the
//! high bits, which are well mixed for the grain of a fixed-point jitter.

use vstd::prelude::*;

use crate::fixed::SCALE;

verus! {

/// Multiplier of the linear congruential step.
pub const LCG_MUL: u64 = 6364136223846793005;

/// Increment of the linear congruential step.
pub const LCG_INC: u64 = 1442695040888963407;

/// Offset mixed into the seed for every successive pixel stream.
pub const STREAM_STEP: u64 = 11400714819323198485;

/// One step of the generator: `state * LCG_MUL + LCG_INC`, modulo `2^64`.
pub open spec fn spec_lcg_next(state: u64) -> u64 {
    ((state * LCG_MUL + LCG_INC) % 0x1_0000_0000_0000_0000) as u64
}

/// The state opening the stream of pixel number `index` under `seed`.
pub open spec fn spec_stream(seed: u64, index: u64) -> u64 {
    spec_lcg_next(spec_lcg_next(((seed + index * STREAM_STEP) % 0x1_0000_0000_0000_0000) as u64))
}

/// A fixed-point jitter in `[0, SCALE)` drawn from one generator step:
/// the new state and the value.
pub open spec fn spec_next_unit(state: u64) -> (u64, i64) {
    let s = spec_lcg_next(state);
    (s, (s / 0x1_0000_0000_0000) as i64)
}

/// A fixed-point value in `[-SCALE, SCALE)` drawn from one generator step:
/// the new state and the value.
pub open spec fn spec_next_symmetric(state: u64) -> (u64, i64) {
    let s = spec_lcg_next(state);
    (s, ((s / 0x8000_0000_0000) as i64 - SCALE) as i64)
}

/// A deterministic, seedable source of fixed-point random values.
#[derive(Clone, Copy, PartialEq, Eq, Structural, Debug)]
pub struct RandomSource {
    state: u64,
}

impl RandomSource {
    /// The state the next draw will consume.
    pub closed spec fn spec_state(self) -> u64 {
        self.state
    }

    /// A source starting from `seed`.
    pub fn new(seed: u64) -> (r: RandomSource)
        ensures
            r.spec_state() == seed,
    {
        RandomSource { state: seed }
    }

    /// The source for pixel number `index` of the render seeded by `seed`:
    /// a stream independent of every other pixel's.
    pub fn for_pixel(seed: u64, index: u64) -> (r: RandomSource)
        ensures
            r.spec_state() == spec_stream(seed, index),
    {
        proof {
            assert((seed as int) + (index as int) * (STREAM_STEP as int) <= u128::MAX as int)
                by (nonlinear_arith)
                requires
                    seed <= u64::MAX,
                    index <= u64::MAX,
                    STREAM_STEP <= u64::MAX,
            ;
        }
        let mixed: u128 = (seed as u128) + (index as u128) * (STREAM_STEP as u128);
        let s0 = RandomSource { state: (mixed % 0x1_0000_0000_0000_0000) as u64 };
        let mut r = s0;
        let _ = r.next_bits();
        let _ = r.next_bits();
        r
    }

    /// One raw generator step; returns the full new state.
    pub fn next_bits(&mut self) -> (r: u64)
        ensures
            final (self).spec_state() == spec_lcg_next(old(self).spec_state()),
            r == final (self).spec_state(),
    {
        proof {
            assert((self.state as int) * (LCG_MUL as int) + (LCG_INC as int) <= u128::MAX
                as int) by (nonlinear_arith)
                requires
                    self.state <= u64::MAX,
                    LCG_MUL <= u64::MAX,
                    LCG_INC <= u64::MAX,
            ;
        }
        let wide: u128 = (self.state as u128) * (LCG_MUL as u128) + (LCG_INC as u128);
        self.state = (wide % 0x1_0000_0000_0000_0000) as u64;
        self.state
    }

    /// A fixed-point jitter in `[0, SCALE)`, uniform over the grid.
    pub fn next_unit(&mut self) -> (r: i64)
        ensures
            final (self).spec_state() == spec_next_unit(old(self).spec_state()).0,
            r == spec_next_unit(old(self).spec_state()).1,
            0 <= r < SCALE,
    {
        let s = self.next_bits();
        (s / 0x1_0000_0000_0000) as i64
    }

    /// A fixed-point value in `[-SCALE, SCALE)`, uniform over the grid.
    pub fn next_symmetric(&mut self) -> (r: i64)
        ensures
            final (self).spec_state() == spec_next_symmetric(old(self).spec_state()).0,
            r == spec_next_symmetric(old(self).spec_state()).1,
            -SCALE <= r < SCALE,
    {
        let s = self.next_bits();
        (s / 0x8000_0000_0000) as i64 - SCALE
    }
}

} // verus!
