use vstd::prelude::*;

pub mod emu;
pub mod fuzz;
pub mod isa;
pub mod loader;
pub mod mmu;
pub mod prim;
pub mod semantics;
pub mod sys;

pub use prim::Prim;

verus! {

/// One step of the xorshift generator: the state that follows `s`.
pub open spec fn xorshift(s: u64) -> u64 {
    let a = s ^ (s << 3u64);
    let b = a ^ (a >> 5u64);
    b ^ (b << 21u64)
}

/// Random number generator using the xorshift algorithm.
pub struct Rng(pub u64);

impl Rng {
    /// The generator with the fixed default seed.
    pub fn new() -> (r: Self)
        ensures
            r.0 == 0xA1E57899214DEE1Au64,
    {
        Self(0xA1E57899214DEE1A)
    }

    /// The generator seeded with `seed`.
    pub fn new_with_seed(seed: u64) -> (r: Self)
        ensures
            r.0 == seed,
    {
        Self(seed)
    }

    /// Advances the state by one xorshift step and returns the new state.
    pub fn rng(&mut self) -> (r: usize)
        ensures
            final(self).0 == xorshift(old(self).0),
            r == xorshift(old(self).0) as usize,
    {
        self.0 = self.0 ^ (self.0 << 3u64);
        self.0 = self.0 ^ (self.0 >> 5u64);
        self.0 = self.0 ^ (self.0 << 21u64);
        self.0 as usize
    }
}

/// A generator whose state is not zero never reaches the zero state.
pub proof fn lemma_xorshift_nonzero(s: u64)
    requires
        s != 0,
    ensures
        xorshift(s) != 0,
{
    assert(s != 0 ==> xorshift(s) != 0) by (bit_vector);
}

} // verus!
