//! The injected randomness source of the growth engine: a splitmix64
//! generator with a fully specified, deterministic state transition.  The
//! seed either comes from the caller (reproducible runs) or from the
//! operating system's entropy through the `rand` crate.

use vstd::prelude::*;

use crate::UNIT;

verus! {

/// The modulus of 64-bit wrapping arithmetic.
pub const WORD_MODULUS: u128 = 0x1_0000_0000_0000_0000;

/// The splitmix64 state increment.
pub const GAMMA: u64 = 0x9E37_79B9_7F4A_7C15;

/// First splitmix64 mixing multiplier.
pub const MIX_A: u64 = 0xBF58_476D_1CE4_E5B9;

/// Second splitmix64 mixing multiplier.
pub const MIX_B: u64 = 0x94D0_49BB_1331_11EB;

/// 64-bit wrapping addition.
pub open spec fn spec_wrap_add(a: u64, b: u64) -> u64 {
    ((a + b) % (WORD_MODULUS as int)) as u64
}

/// 64-bit wrapping multiplication.
pub open spec fn spec_wrap_mul(a: u64, b: u64) -> u64 {
    ((a * b) % (WORD_MODULUS as int)) as u64
}

/// The splitmix64 output mix of a state word.
pub open spec fn spec_mix(s: u64) -> u64 {
    let z1 = spec_wrap_mul(s ^ (s >> 30), MIX_A);
    let z2 = spec_wrap_mul(z1 ^ (z1 >> 27), MIX_B);
    z2 ^ (z2 >> 31)
}

fn wrap_add(a: u64, b: u64) -> (r: u64)
    ensures
        r == spec_wrap_add(a, b),
{
    (((a as u128) + (b as u128)) % WORD_MODULUS) as u64
}

fn wrap_mul(a: u64, b: u64) -> (r: u64)
    ensures
        r == spec_wrap_mul(a, b),
{
    proof {
        crate::lemma_mul_le(a as int, b as int, 0xFFFF_FFFF_FFFF_FFFF, 0xFFFF_FFFF_FFFF_FFFF);
    }
    (((a as u128) * (b as u128)) % WORD_MODULUS) as u64
}

/// Relies on rand::random: with the thread-local generator it draws a
/// uniformly distributed machine word from operating-system entropy.
/// Nothing can be promised of the value that comes back.
#[verifier::external_body]
fn entropy_word() -> u64 {
    rand::random::<u64>()
}

/// A deterministic uniform random source (splitmix64).  The engine draws
/// micro-unit fractions and bounded integers from it; given the seed, the
/// whole stream is a pure function of the state.
pub struct RiverRng {
    state: u64,
}

impl RiverRng {
    /// The current generator state.
    pub closed spec fn spec_state(&self) -> u64 {
        self.state
    }

    /// A generator with a caller-chosen seed: two generators with the same
    /// seed yield the same stream.
    pub fn new(seed: u64) -> (r: RiverRng)
        ensures
            r.spec_state() == seed,
    {
        RiverRng { state: seed }
    }

    /// A generator seeded from operating-system entropy.
    pub fn from_entropy() -> (r: RiverRng) {
        RiverRng { state: entropy_word() }
    }

    /// The raw 64-bit draw: advances the state by `GAMMA` and mixes the old
    /// state into the output word.
    pub fn next_word(&mut self) -> (r: u64)
        ensures
            final(self).spec_state() == spec_wrap_add(old(self).spec_state(), GAMMA),
            r == spec_mix(spec_wrap_add(old(self).spec_state(), GAMMA)),
    {
        self.state = wrap_add(self.state, GAMMA);
        let s = self.state;
        let z1 = wrap_mul(s ^ (s >> 30), MIX_A);
        let z2 = wrap_mul(z1 ^ (z1 >> 27), MIX_B);
        z2 ^ (z2 >> 31)
    }

    /// A uniform micro-unit fraction: the fixed-point counterpart of a
    /// uniform draw from `[0, 1)`.
    pub fn next_unit(&mut self) -> (r: u64)
        ensures
            r < UNIT,
            final(self).spec_state() == spec_wrap_add(old(self).spec_state(), GAMMA),
            r == spec_mix(spec_wrap_add(old(self).spec_state(), GAMMA)) % UNIT,
    {
        self.next_word() % UNIT
    }

    /// A uniform integer from the half-open range `[lo, hi)`.
    pub fn next_range(&mut self, lo: u64, hi: u64) -> (r: u64)
        requires
            lo < hi,
        ensures
            lo <= r < hi,
            final(self).spec_state() == spec_wrap_add(old(self).spec_state(), GAMMA),
            r == lo + (spec_mix(spec_wrap_add(old(self).spec_state(), GAMMA)) as int) % ((hi - lo)
                as int),
    {
        lo + self.next_word() % (hi - lo)
    }
}

} // verus!
