//! A small seedable pseudo-random generator, owned by the game so that a run
//! can be replayed from its seed.
use vstd::prelude::*;

verus! {

pub const LCG_MUL: u64 = 6364136223846793005;

pub const LCG_INC: u64 = 1442695040888963407;

/// The generator's state after one step.
pub open spec fn lcg(s: u64) -> u64 {
    s.wrapping_mul(LCG_MUL).wrapping_add(LCG_INC)
}

/// The number below `n` drawn from state `s`: the high half of the next
/// state, reduced modulo `n`.
pub open spec fn draw(s: u64, n: u64) -> u64 {
    (lcg(s) / 0x1_0000_0000) % n
}

/// A linear congruential generator.
pub struct Rng {
    state: u64,
}

impl Rng {
    pub closed spec fn view(&self) -> u64 {
        self.state
    }

    pub fn new(seed: u64) -> (r: Rng)
        ensures
            r@ == seed,
    {
        Rng { state: seed }
    }

    /// A number in `[0, n)`.
    pub fn gen_below(&mut self, n: u64) -> (r: u64)
        requires
            n > 0,
        ensures
            r == draw(old(self)@, n),
            r < n,
            final(self)@ == lcg(old(self)@),
    {
        self.state = self.state.wrapping_mul(LCG_MUL).wrapping_add(LCG_INC);
        (self.state / 0x1_0000_0000) % n
    }

    /// True once in `n` draws on average.
    pub fn gen_weighted_bool(&mut self, n: u64) -> (r: bool)
        requires
            n > 0,
        ensures
            r == (draw(old(self)@, n) == 0),
            final(self)@ == lcg(old(self)@),
    {
        self.gen_below(n) == 0
    }
}

} // verus!
