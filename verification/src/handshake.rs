//! The Diffie-Hellman handshake: key generation, the 8-byte big-endian wire
//! encoding of public values, and derivation of the shared secret that seeds
//! the keystream generator.
//!
//! The transport itself is a collaborator: the caller sends and receives the
//! 8-byte values and hands the received bytes to this module.

use vstd::prelude::*;
use crate::keystream::Lcg;
use crate::modexp::{lemma_dh_agreement, mod_pow, pow_mod};

verus! {

/// The fixed 64-bit modulus, identical on both peers.
pub const P: u64 = 0xD87FA3E291B4C7F3;

/// The fixed generator, identical on both peers.
pub const G: u64 = 2;

/// A Diffie-Hellman keypair: the private exponent stays local, the public
/// value `G^private mod P` crosses the wire in the clear.
pub struct KeyPair {
    /// Fresh random exponent, never transmitted.
    pub private_key: u64,
    /// `G^private_key mod P`, sent to the peer.
    pub public_key: u64,
}

/// Failure of the handshake as seen by the protocol logic: the peer's public
/// value must arrive as exactly eight bytes, so a stream that closes earlier
/// leaves a short read.
#[derive(Clone, Copy, Debug, PartialEq, Eq, Structural)]
pub enum TransportError {
    /// The stream closed before the peer's full 8-byte public value arrived.
    ShortRead,
}

/// The big-endian bytes of a 64-bit value, most significant first.
pub open spec fn be_bytes_of(x: u64) -> Seq<u8> {
    seq![
        ((x >> 56u64) & 0xFF) as u8,
        ((x >> 48u64) & 0xFF) as u8,
        ((x >> 40u64) & 0xFF) as u8,
        ((x >> 32u64) & 0xFF) as u8,
        ((x >> 24u64) & 0xFF) as u8,
        ((x >> 16u64) & 0xFF) as u8,
        ((x >> 8u64) & 0xFF) as u8,
        (x & 0xFF) as u8,
    ]
}

/// The 64-bit value read from eight big-endian bytes.
pub open spec fn be_value_of(b: Seq<u8>) -> u64
    recommends
        b.len() == 8,
{
    (((b[0] as u64) << 56u64) | ((b[1] as u64) << 48u64) | ((b[2] as u64) << 40u64) | ((
    b[3] as u64) << 32u64) | ((b[4] as u64) << 24u64) | ((b[5] as u64) << 16u64) | ((b[6] as u64)
        << 8u64) | (b[7] as u64)) as u64
}

/// Encode a public value for the wire: its eight big-endian bytes.
pub fn encode_public_key(x: u64) -> (out: Vec<u8>)
    ensures
        out@ == be_bytes_of(x),
        out@.len() == 8,
{
    proof {
        assert(forall|y: u64| #[trigger] (y & 0xFF) < 256) by (bit_vector);
    }
    let mut out: Vec<u8> = Vec::new();
    out.push(((x >> 56u64) & 0xFF) as u8);
    out.push(((x >> 48u64) & 0xFF) as u8);
    out.push(((x >> 40u64) & 0xFF) as u8);
    out.push(((x >> 32u64) & 0xFF) as u8);
    out.push(((x >> 24u64) & 0xFF) as u8);
    out.push(((x >> 16u64) & 0xFF) as u8);
    out.push(((x >> 8u64) & 0xFF) as u8);
    out.push((x & 0xFF) as u8);
    proof {
        assert(out@ =~= be_bytes_of(x));
    }
    out
}

/// Decode a peer's public value from its eight big-endian bytes.
pub fn decode_public_key(b: &Vec<u8>) -> (x: u64)
    requires
        b@.len() == 8,
    ensures
        x == be_value_of(b@),
{
    ((b[0] as u64) << 56u64) | ((b[1] as u64) << 48u64) | ((b[2] as u64) << 40u64) | ((b[3] as u64)
        << 32u64) | ((b[4] as u64) << 24u64) | ((b[5] as u64) << 16u64) | ((b[6] as u64) << 8u64)
        | (b[7] as u64)
}

/// Decoding the big-endian encoding of a value gives the value back.
pub proof fn lemma_be_round_trip(x: u64)
    ensures
        be_value_of(be_bytes_of(x)) == x,
{
    let b0 = ((x >> 56u64) & 0xFF) as u8;
    let b1 = ((x >> 48u64) & 0xFF) as u8;
    let b2 = ((x >> 40u64) & 0xFF) as u8;
    let b3 = ((x >> 32u64) & 0xFF) as u8;
    let b4 = ((x >> 24u64) & 0xFF) as u8;
    let b5 = ((x >> 16u64) & 0xFF) as u8;
    let b6 = ((x >> 8u64) & 0xFF) as u8;
    let b7 = (x & 0xFF) as u8;
    assert((((b0 as u64) << 56u64) | ((b1 as u64) << 48u64) | ((b2 as u64) << 40u64) | ((
    b3 as u64) << 32u64) | ((b4 as u64) << 24u64) | ((b5 as u64) << 16u64) | ((b6 as u64) << 8u64)
        | (b7 as u64)) == x) by (bit_vector)
        requires
            b0 == ((x >> 56u64) & 0xFF) as u8,
            b1 == ((x >> 48u64) & 0xFF) as u8,
            b2 == ((x >> 40u64) & 0xFF) as u8,
            b3 == ((x >> 32u64) & 0xFF) as u8,
            b4 == ((x >> 24u64) & 0xFF) as u8,
            b5 == ((x >> 16u64) & 0xFF) as u8,
            b6 == ((x >> 8u64) & 0xFF) as u8,
            b7 == (x & 0xFF) as u8,
    ;
}

/// Relies on rand::random: draws a fresh value from the thread-local
/// generator. Nothing can be promised of the value drawn.
pub assume_specification<T>[ rand::random::<T> ]() -> (r: T)
    where
        rand::distributions::Standard: rand::distributions::Distribution<T>,
;

/// The keypair derived from a given private exponent under the fixed
/// parameters: the public value is `G^private_key mod P`.
pub fn make_keypair(private_key: u64) -> (kp: KeyPair)
    ensures
        kp.private_key == private_key,
        kp.public_key == pow_mod(G as int, private_key as nat, P as int),
{
    let public_key = mod_pow(G, private_key, P);
    KeyPair { private_key, public_key }
}

/// Draw a fresh random private exponent and derive the keypair from it.
/// Whatever value the generator returns, the public value is
/// `G^private_key mod P`.
pub fn generate_keypair() -> (kp: KeyPair)
    ensures
        kp.public_key == pow_mod(G as int, kp.private_key as nat, P as int),
{
    let private_key: u64 = rand::random();
    make_keypair(private_key)
}

/// The shared secret: the peer's public value raised to the local private
/// exponent, modulo `P`. Both peers compute the identical value.
pub fn compute_shared_secret(their_public: u64, private_key: u64) -> (secret: u64)
    ensures
        secret == pow_mod(their_public as int, private_key as nat, P as int),
{
    mod_pow(their_public, private_key, P)
}

/// Handshake correctness: whatever the two private exponents, the secret
/// each peer computes from the other's public value is the same value on
/// both sides.
pub proof fn lemma_shared_secret_agreement(private_a: u64, private_b: u64)
    ensures
        pow_mod(
            pow_mod(G as int, private_a as nat, P as int),
            private_b as nat,
            P as int,
        ) == pow_mod(pow_mod(G as int, private_b as nat, P as int), private_a as nat, P as int),
{
    lemma_dh_agreement(G, private_a, private_b, P);
}

/// The receive step of the handshake: the peer's public value must arrive
/// as exactly eight bytes; anything else is a short read.
pub fn accept_peer_public(received: &Vec<u8>) -> (r: Result<u64, TransportError>)
    ensures
        received@.len() == 8 ==> r == Ok::<u64, TransportError>(be_value_of(received@)),
        received@.len() != 8 ==> r == Err::<u64, TransportError>(TransportError::ShortRead),
{
    if received.len() == 8 {
        Ok(decode_public_key(received))
    } else {
        Err(TransportError::ShortRead)
    }
}

/// Complete the handshake from the local private exponent and the raw bytes
/// received for the peer's public value: decode the peer's value, compute
/// the shared secret, and seed the keystream generator with it. Fails
/// exactly when the received value is not eight bytes long.
pub fn establish_session(private_key: u64, received: &Vec<u8>) -> (r: Result<Lcg, TransportError>)
    ensures
        received@.len() == 8 ==> (r matches Ok(generator) && generator@ == pow_mod(
            be_value_of(received@) as int,
            private_key as nat,
            P as int,
        )),
        received@.len() != 8 ==> (r matches Err(e) && e == TransportError::ShortRead),
{
    match accept_peer_public(received) {
        Ok(their_public) => {
            let secret = compute_shared_secret(their_public, private_key);
            Ok(Lcg::new(secret))
        },
        Err(e) => Err(e),
    }
}

} // verus!
