//! The seeded pseudo-random generator behind food placement, held as the
//! plain numbers that fix everything it will ever yield.
use rand::{Rng, SeedableRng};
use rand_chacha::ChaCha8Rng;
use vstd::prelude::*;

verus! {

/// The index and the next word position that a ChaCha8 generator seeded with
/// `seed` and standing at word `position` of its stream gives when asked for
/// a uniform index below `bound`.
pub uninterp spec fn drawn(seed: u64, position: u128, bound: usize) -> (usize, u128);

/// Calls `ChaCha8Rng::gen_range(0..bound)` on the generator that
/// `ChaCha8Rng::seed_from_u64(seed)` and `set_word_pos(position)` give, and
/// reads `get_word_pos()` afterwards. The index is sampled as a `u64`, so it
/// does not depend on the width of `usize`.
///
/// Trusted: the pair is a function of the three arguments alone, and the
/// index lies below `bound`, as `gen_range` documents for a non-empty range.
#[verifier::external_body]
fn draw_at(seed: u64, position: u128, bound: usize) -> (outcome: (usize, u128))
    requires
        bound > 0,
    ensures
        outcome == drawn(seed, position, bound),
        outcome.0 < bound,
{
    let mut rng = ChaCha8Rng::seed_from_u64(seed);
    rng.set_word_pos(position);
    let index = rng.gen_range(0..bound as u64) as usize;
    (index, rng.get_word_pos())
}

/// The number and the next word position that a ChaCha8 generator seeded
/// with `seed` and standing at word `position` of its stream gives when asked
/// for a uniform 32-bit number below `bound`.
pub uninterp spec fn drawn_small(seed: u64, position: u128, bound: u32) -> (u32, u128);

/// Calls `ChaCha8Rng::gen_range(0..bound)` for a `u32` on the generator that
/// `ChaCha8Rng::seed_from_u64(seed)` and `set_word_pos(position)` give, and
/// reads `get_word_pos()` afterwards.
///
/// Trusted: the pair is a function of the three arguments alone, and the
/// number lies below `bound`, as `gen_range` documents for a non-empty range.
#[verifier::external_body]
fn draw_small_at(seed: u64, position: u128, bound: u32) -> (outcome: (u32, u128))
    requires
        bound > 0,
    ensures
        outcome == drawn_small(seed, position, bound),
        outcome.0 < bound,
{
    let mut rng = ChaCha8Rng::seed_from_u64(seed);
    rng.set_word_pos(position);
    let number = rng.gen_range(0..bound);
    (number, rng.get_word_pos())
}

/// A ChaCha8 generator: the seed it was made from and the number of 32-bit
/// words of its stream that it has used.
#[derive(Copy, Clone, Debug, PartialEq, Eq, Structural)]
pub struct Generator {
    pub seed: u64,
    pub position: u128,
}

impl Generator {
    /// The index that the next draw below `bound` gives. A draw never
    /// leaves its range, and the definition says so by itself.
    pub open spec fn next_index(self, bound: usize) -> usize {
        let index = drawn(self.seed, self.position, bound).0;
        if index < bound {
            index
        } else {
            0
        }
    }

    /// The generator after a draw below `bound`.
    pub open spec fn advanced(self, bound: usize) -> Generator {
        Generator { seed: self.seed, position: drawn(self.seed, self.position, bound).1 }
    }

    /// A generator at the start of the stream of `seed`.
    pub fn from_seed(seed: u64) -> (generator: Generator)
        ensures
            generator == (Generator { seed, position: 0 }),
    {
        Generator { seed, position: 0 }
    }

    /// Draws a uniform index below `bound` and advances the generator.
    pub fn gen_range(&mut self, bound: usize) -> (index: usize)
        requires
            bound > 0,
        ensures
            index == old(self).next_index(bound),
            *final(self) == old(self).advanced(bound),
            index < bound,
    {
        let outcome = draw_at(self.seed, self.position, bound);
        self.position = outcome.1;
        outcome.0
    }

    /// The number that the next 32-bit draw below `bound` gives.
    pub open spec fn next_small(self, bound: u32) -> u32 {
        let number = drawn_small(self.seed, self.position, bound).0;
        if number < bound {
            number
        } else {
            0
        }
    }

    /// The generator after a 32-bit draw below `bound`.
    pub open spec fn advanced_small(self, bound: u32) -> Generator {
        Generator { seed: self.seed, position: drawn_small(self.seed, self.position, bound).1 }
    }

    /// Draws a uniform 32-bit number below `bound` and advances the
    /// generator.
    pub fn gen_small(&mut self, bound: u32) -> (number: u32)
        requires
            bound > 0,
        ensures
            number == old(self).next_small(bound),
            *final(self) == old(self).advanced_small(bound),
            number < bound,
    {
        let outcome = draw_small_at(self.seed, self.position, bound);
        self.position = outcome.1;
        outcome.0
    }
}

} // verus!
