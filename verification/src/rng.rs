//! The deterministic pseudorandom source that drives generation: a
//! SplitMix64 stream. Every draw is a pure function of the state, so an
//! identical seed replays an identical generation.

use vstd::prelude::*;

verus! {

/// The state advance: one golden-ratio increment, wrapping.
pub open spec fn spec_next_state(s: u64) -> u64 {
    vstd::wrapping::u64_specs::wrapping_add(s, 0x9E37_79B9_7F4A_7C15)
}

/// The output mix applied to a state.
pub open spec fn spec_mix64(s: u64) -> u64 {
    let z0 = vstd::wrapping::u64_specs::wrapping_mul(s ^ (s >> 30), 0xBF58_476D_1CE4_E5B9);
    let z1 = vstd::wrapping::u64_specs::wrapping_mul(z0 ^ (z0 >> 27), 0x94D0_49BB_1331_11EB);
    z1 ^ (z1 >> 31)
}

/// The value the next draw returns from a given state.
pub open spec fn spec_draw(s: u64) -> u64 {
    spec_mix64(spec_next_state(s))
}

/// The deterministic pseudorandom generator.
pub struct DetRng {
    state: u64,
}

impl DetRng {
    pub closed spec fn spec_state(&self) -> u64 {
        self.state
    }

    /// Seeded construction: the whole stream is a function of the seed.
    pub fn new(seed: u64) -> (r: DetRng)
        ensures
            r.spec_state() == seed,
    {
        DetRng { state: seed }
    }

    /// The next 64-bit draw.
    pub fn next_u64(&mut self) -> (r: u64)
        ensures
            final(self).spec_state() == spec_next_state(old(self).spec_state()),
            r == spec_draw(old(self).spec_state()),
    {
        self.state = self.state.wrapping_add(0x9E37_79B9_7F4A_7C15);
        let mut z: u64 = self.state;
        z = (z ^ (z >> 30)).wrapping_mul(0xBF58_476D_1CE4_E5B9);
        z = (z ^ (z >> 27)).wrapping_mul(0x94D0_49BB_1331_11EB);
        z ^ (z >> 31)
    }

    /// A draw reduced below a positive bound.
    pub fn next_below(&mut self, n: u64) -> (r: u64)
        requires
            n > 0,
        ensures
            final(self).spec_state() == spec_next_state(old(self).spec_state()),
            r == spec_draw(old(self).spec_state()) % n,
            r < n,
    {
        let v = self.next_u64();
        v % n
    }
}

/// Relies on `rand::random` for the seed of an unseeded generation run;
/// nothing is promised of the value.
#[verifier::external_body]
pub fn entropy_seed() -> u64 {
    rand::random()
}

} // verus!
