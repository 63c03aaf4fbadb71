//! The keystream generator: a linear-congruential step advanced once per
//! byte, with one output byte extracted from each new state.

use vstd::prelude::*;

verus! {

/// Multiplier of the linear-congruential step.
pub const LCG_A: u64 = 1103515245;

/// Increment of the linear-congruential step.
pub const LCG_C: u64 = 12345;

/// Modulus of the linear-congruential step.
pub const LCG_M: u64 = 0x1_0000_0000;

/// One step of the generator: `(state * A + C) mod 2^32`.
pub open spec fn lcg_next(state: u64) -> u64 {
    (((state as int) * (LCG_A as int) + (LCG_C as int)) % (LCG_M as int)) as u64
}

/// The byte a state yields: bits 16 through 23 of the state.
pub open spec fn lcg_output(state: u64) -> u8 {
    ((state as int / 0x10000) % 0x100) as u8
}

/// The state reached from `seed` after `n` steps.
pub open spec fn lcg_state_after(seed: u64, n: nat) -> u64
    decreases n,
{
    if n == 0 {
        seed
    } else {
        lcg_next(lcg_state_after(seed, (n - 1) as nat))
    }
}

/// The `i`-th keystream byte drawn from a generator seeded with `seed`
/// (the byte produced by the `i+1`-th call).
pub open spec fn keystream_byte(seed: u64, i: nat) -> u8 {
    lcg_output(lcg_state_after(seed, i + 1))
}

/// The first `n` keystream bytes drawn from a generator seeded with `seed`.
pub open spec fn keystream(seed: u64, n: nat) -> Seq<u8> {
    Seq::new(n, |i: int| keystream_byte(seed, i as nat))
}

/// The stateful keystream generator. Both peers seed one with the shared
/// secret; every byte encrypted or decrypted advances it by one step.
pub struct Lcg {
    state: u64,
}

impl View for Lcg {
    type V = u64;

    closed spec fn view(&self) -> u64 {
        self.state
    }
}

impl Lcg {
    /// A fresh generator whose state is `seed`.
    pub fn new(seed: u64) -> (generator: Lcg)
        ensures
            generator@ == seed,
    {
        Lcg { state: seed }
    }

    /// Advance the state by one linear-congruential step and return the
    /// byte at bit positions 16 through 23 of the new state.
    pub fn next_byte(&mut self) -> (output: u8)
        ensures
            final(self)@ == lcg_next(old(self)@),
            output == lcg_output(final(self)@),
    {
        proof {
            vstd::arithmetic::mul::lemma_mul_upper_bound(
                self.state as int,
                u64::MAX as int,
                LCG_A as int,
                LCG_A as int,
            );
        }
        let next_val: u128 = ((self.state as u128) * (LCG_A as u128) + (LCG_C as u128)) % (
        LCG_M as u128);
        self.state = next_val as u64;
        let output: u8 = ((next_val as u64 >> 16u64) & 0xFF) as u8;
        proof {
            assert(forall|x: u64|
                x < 0x1_0000_0000 ==> ((x >> 16u64) & 0xFF) == ((x as int / 0x10000) % 0x100))
                by (bit_vector);
        }
        output
    }
}

/// Determinism of the keystream: two generators seeded with the same value
/// and stepped the same number of times produce identical byte sequences.
pub proof fn lemma_keystream_deterministic(seed1: u64, seed2: u64, n: nat)
    requires
        seed1 == seed2,
    ensures
        keystream(seed1, n) == keystream(seed2, n),
{
}

} // verus!
