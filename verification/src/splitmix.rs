//! SplitMix64: the deterministic 64-bit generator that the fairness suite and
//! the simulator draw from (no OS entropy, reproducible per seed).
use vstd::prelude::*;

verus! {

/// The SplitMix64 increment.
pub const GOLDEN_GAMMA: u64 = 0x9E37_79B9_7F4A_7C15;

/// The SplitMix64 output function of a state.
pub open spec fn splitmix_output(s: u64) -> u64 {
    let z1 = (s ^ (s >> 30u64)).wrapping_mul(0xBF58_476D_1CE4_E5B9);
    let z2 = (z1 ^ (z1 >> 27u64)).wrapping_mul(0x94D0_49BB_1331_11EB);
    z2 ^ (z2 >> 31u64)
}

/// Advances `state` by the increment and returns the mixed output of the new
/// state.
pub fn splitmix_next(state: &mut u64) -> (r: u64)
    ensures
        *final(state) == (*old(state)).wrapping_add(GOLDEN_GAMMA),
        r == splitmix_output(*final(state)),
{
    *state = (*state).wrapping_add(GOLDEN_GAMMA);
    let mut z = *state;
    z = (z ^ (z >> 30)).wrapping_mul(0xBF58_476D_1CE4_E5B9);
    z = (z ^ (z >> 27)).wrapping_mul(0x94D0_49BB_1331_11EB);
    z ^ (z >> 31)
}

/// The generator of the fairness suite; the field is its state.
pub struct SplitMix64(pub u64);

impl SplitMix64 {
    pub fn next_u64(&mut self) -> (r: u64)
        ensures
            final(self).0 == old(self).0.wrapping_add(GOLDEN_GAMMA),
            r == splitmix_output(final(self).0),
    {
        splitmix_next(&mut self.0)
    }
}

} // verus!
