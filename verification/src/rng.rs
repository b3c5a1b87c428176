use vstd::prelude::*;

verus! {

#[verifier::external_type_specification]
#[verifier::external_body]
pub struct ExStdRng(rand::rngs::StdRng);

/// Seedable source of the pseudo-random draws used by the generator.
///
/// Every random choice made while building a dungeon is drawn from one of
/// these, so a whole generation run is repeatable from its seed alone.
pub struct RandomSource {
    inner: rand::rngs::StdRng,
}

impl RandomSource {
    /// Relies on rand's `SeedableRng::seed_from_u64` to build a `StdRng`
    /// deterministically from a 64-bit seed.
    #[verifier::external_body]
    pub fn from_seed(seed: u64) -> (source: RandomSource) {
        RandomSource { inner: <rand::rngs::StdRng as rand::SeedableRng>::seed_from_u64(seed) }
    }

    /// Relies on rand's `RngCore::next_u32` on `StdRng`; any 32-bit value may
    /// come back.
    #[verifier::external_body]
    fn next_u32(&mut self) -> (draw: u32) {
        rand::RngCore::next_u32(&mut self.inner)
    }

    /// A pseudo-random coin: the parity of the next draw.
    pub(crate) fn next_bool(&mut self) -> bool {
        self.next_u32() % 2 == 1
    }

    /// A pseudo-random value in `[0, bound)`.
    pub(crate) fn next_below(&mut self, bound: u32) -> (value: u32)
        requires
            1 <= bound,
        ensures
            value < bound,
    {
        self.next_u32() % bound
    }

    /// A pseudo-random value in `[0, 100)`, for percentage checks.
    pub(crate) fn next_percent(&mut self) -> (value: u32)
        ensures
            value < 100,
    {
        self.next_u32() % 100
    }
}

} // verus!
