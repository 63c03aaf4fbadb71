//! The stream cipher: XOR each message byte against the next keystream
//! byte. XOR is self-inverse, so the same operation encrypts and decrypts.

use vstd::prelude::*;
use crate::keystream::{keystream_byte, lcg_next, lcg_state_after, Lcg};

verus! {

/// A message XORed byte-for-byte against the keystream drawn from `seed`.
pub open spec fn xor_keystream(message: Seq<u8>, seed: u64) -> Seq<u8> {
    Seq::new(message.len(), |i: int| message[i] ^ keystream_byte(seed, i as nat))
}

/// Encrypt or decrypt `bytes`, drawing one keystream byte per message byte.
/// The generator advances by exactly `bytes.len()` steps; an empty message
/// leaves it untouched.
pub fn transform(bytes: &Vec<u8>, generator: &mut Lcg) -> (out: Vec<u8>)
    ensures
        out@ == xor_keystream(bytes@, old(generator)@),
        final(generator)@ == lcg_state_after(old(generator)@, bytes@.len()),
{
    let ghost seed: u64 = generator@;
    let mut out: Vec<u8> = Vec::new();
    let mut i: usize = 0;
    while i < bytes.len()
        invariant
            i <= bytes@.len(),
            generator@ == lcg_state_after(seed, i as nat),
            out@.len() == i,
            forall|j: int| 0 <= j < i ==> out@[j] == bytes@[j] ^ keystream_byte(seed, j as nat),
        decreases bytes@.len() - i,
    {
        let k = generator.next_byte();
        proof {
            assert(lcg_state_after(seed, (i + 1) as nat) == lcg_next(lcg_state_after(seed, i as nat)));
        }
        out.push(bytes[i] ^ k);
        i = i + 1;
    }
    proof {
        assert(out@ =~= xor_keystream(bytes@, seed));
    }
    out
}

/// XOR against the same byte twice restores the original byte.
proof fn lemma_xor_cancel(a: u8, k: u8)
    by (bit_vector)
    ensures
        (a ^ k) ^ k == a,
{
}

/// Cipher round trip: transforming a message and then transforming the
/// result again, each time drawing the keystream from the same seed,
/// restores the original message.
pub proof fn lemma_transform_round_trip(message: Seq<u8>, seed: u64)
    ensures
        xor_keystream(xor_keystream(message, seed), seed) == message,
{
    let once = xor_keystream(message, seed);
    let twice = xor_keystream(once, seed);
    assert forall|i: int| 0 <= i < message.len() implies twice[i] == message[i] by {
        lemma_xor_cancel(message[i], keystream_byte(seed, i as nat));
    }
    assert(twice =~= message);
}

/// A zero-length message transforms to a zero-length output, and the
/// generator state does not advance.
pub proof fn lemma_transform_empty(seed: u64)
    ensures
        xor_keystream(Seq::<u8>::empty(), seed) == Seq::<u8>::empty(),
        lcg_state_after(seed, 0) == seed,
{
    assert(xor_keystream(Seq::<u8>::empty(), seed) =~= Seq::<u8>::empty());
}

} // verus!
