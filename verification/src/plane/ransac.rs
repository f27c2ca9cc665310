//! Deterministic pseudo-random numbers for RANSAC sampling.

use vstd::prelude::*;

verus! {

/// One step of the generator: `seed * 6364136223846793005 + 1` modulo 2^64.
pub open spec fn rng_step(seed: u64) -> u64 {
    vstd::wrapping::u64_specs::wrapping_add(
        vstd::wrapping::u64_specs::wrapping_mul(seed, 6364136223846793005),
        1,
    )
}

/// Simple linear congruential generator.
pub struct SimpleRng {
    /// Current state
    pub seed: u64,
}

impl SimpleRng {
    /// Create a generator with the given seed.
    pub fn new(seed: u64) -> (r: Self)
        ensures
            r.seed == seed,
    {
        SimpleRng { seed }
    }

    /// Advance the generator and return its upper 31 bits reduced modulo `n`.
    pub fn next(&mut self, n: usize) -> (r: usize)
        requires
            n > 0,
        ensures
            final(self).seed == rng_step(old(self).seed),
            r == (rng_step(old(self).seed) as int / 0x2_0000_0000) % n as int,
            r < n,
    {
        let s: u64 = self.seed.wrapping_mul(6364136223846793005).wrapping_add(1);
        self.seed = s;
        let high: u64 = s >> 33;
        assert(high == s / 0x2_0000_0000) by (bit_vector)
            requires
                high == s >> 33,
        ;
        (high as usize) % n
    }
}

/// The value the generator in state `seed` produces for bound `n`.
pub open spec fn rng_value(seed: u64, n: int) -> int {
    (rng_step(seed) as int / 0x2_0000_0000) % n
}

/// The three indices drawn from a generator in state `seed` for `n` points:
/// one below `n`, one below `n - 1` moved past the first, and one below
/// `n - 2` moved past the smaller and then the larger of the first two.
pub open spec fn three_indices(seed: u64, n: int) -> (int, int, int) {
    let s1 = rng_step(seed);
    let s2 = rng_step(s1);
    let i1 = rng_value(seed, n);
    let v2 = rng_value(s1, n - 1);
    let i2 = if v2 >= i1 { v2 + 1 } else { v2 };
    let lo = if i1 <= i2 { i1 } else { i2 };
    let hi = if i1 <= i2 { i2 } else { i1 };
    let v3 = rng_value(s2, n - 2);
    let j3 = if v3 >= lo { v3 + 1 } else { v3 };
    let i3 = if j3 >= hi { j3 + 1 } else { j3 };
    (i1, i2, i3)
}

/// Sample three distinct random indices below `n`, advancing the generator
/// three steps.
pub fn sample_three_indices(rng: &mut SimpleRng, n: usize) -> (r: (usize, usize, usize))
    requires
        n >= 3,
    ensures
        final(rng).seed == rng_step(rng_step(rng_step(old(rng).seed))),
        (r.0 as int, r.1 as int, r.2 as int) == three_indices(old(rng).seed, n as int),
        r.0 < n && r.1 < n && r.2 < n,
        r.0 != r.1 && r.0 != r.2 && r.1 != r.2,
{
    let i1 = rng.next(n);
    let mut i2 = rng.next(n - 1);
    if i2 >= i1 {
        i2 = i2 + 1;
    }
    let mut i3 = rng.next(n - 2);
    let lo = if i1 <= i2 { i1 } else { i2 };
    let hi = if i1 <= i2 { i2 } else { i1 };
    if i3 >= lo {
        i3 = i3 + 1;
    }
    if i3 >= hi {
        i3 = i3 + 1;
    }
    (i1, i2, i3)
}

} // verus!
