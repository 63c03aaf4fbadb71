//! Modular exponentiation by iterative square-and-multiply.

use vstd::prelude::*;
use vstd::arithmetic::power::{pow, lemma_pow_multiplies, lemma_pow_mod_noop};
use vstd::arithmetic::div_mod::lemma_mul_mod_noop_general;
use vstd::arithmetic::mul::{lemma_mul_is_commutative, lemma_mul_upper_bound};
use vstd::arithmetic::div_mod::lemma_small_mod;

verus! {

/// `base^exp` reduced modulo `modulus`, as a mathematical value.
pub open spec fn pow_mod(base: int, exp: nat, modulus: int) -> int {
    pow(base, exp) % modulus
}

/// Iterative square-and-multiply: `base^exp mod modulus`, with 128-bit
/// intermediates so no multiplication overflows before reduction.
///
/// When `exp == 0` the result is `1` whatever the modulus, which for a
/// modulus of `1` differs from the fully reduced value `0`.
pub fn mod_pow(base: u64, exp: u64, modulus: u64) -> (r: u64)
    requires
        modulus >= 1,
    ensures
        r == if exp == 0 { 1int } else { pow_mod(base as int, exp as nat, modulus as int) },
        modulus > 1 ==> r == pow_mod(base as int, exp as nat, modulus as int),
{
    let mut result: u128 = 1;
    let mut b: u128 = base as u128;
    let m: u128 = modulus as u128;
    let mut e: u64 = exp;

    proof {
        assert(pow(base as int, 0nat) == 1) by {
            vstd::arithmetic::power::lemma_pow0(base as int);
        }
    }

    while e > 0
        invariant
            1 <= m <= u64::MAX,
            b < 0x1_0000_0000_0000_0000,
            result == 1 || result < m,
            pow(base as int, exp as nat) % (m as int) == (result * pow(b as int, e as nat)) % (
            m as int),
        decreases e,
    {
        proof {
            lemma_pow_unfold_facts(b as int, e as nat);
            lemma_mul_upper_bound(
                result as int,
                0xFFFF_FFFF_FFFF_FFFF,
                b as int,
                0xFFFF_FFFF_FFFF_FFFF,
            );
            lemma_mul_upper_bound(b as int, 0xFFFF_FFFF_FFFF_FFFF, b as int, 0xFFFF_FFFF_FFFF_FFFF);
        }
        if e % 2 == 1 {
            proof {
                lemma_odd_step(base as int, exp as nat, result as int, b as int, e as nat, m as int);
            }
            result = (result * b) % m;
        } else {
            proof {
                lemma_even_step(base as int, exp as nat, result as int, b as int, e as nat, m as int);
            }
        }
        b = (b * b) % m;
        e = e / 2;
    }
    proof {
        assert(pow(b as int, 0nat) == 1) by {
            vstd::arithmetic::power::lemma_pow0(b as int);
        }
        if modulus > 1 && exp == 0 {
            lemma_small_mod(1nat, modulus as nat);
            assert(pow(base as int, 0nat) % (modulus as int) == 1);
        }
    }
    if exp == 0 {
        1u64
    } else {
        (result % m) as u64
    }
}

/// `pow(b, e)` for odd `e` splits into `b * pow(b*b, (e-1)/2)`, and for
/// positive even `e` into `pow(b*b, e/2)`.
proof fn lemma_pow_unfold_facts(b: int, e: nat)
    requires
        e > 0,
    ensures
        e % 2 == 1 ==> pow(b, e) == b * pow(b * b, ((e - 1) / 2) as nat),
        e % 2 == 0 ==> pow(b, e) == pow(b * b, (e / 2) as nat),
{
    reveal(pow);
    let h = (e / 2) as nat;
    assert(pow(b, 2nat) == b * b) by {
        vstd::arithmetic::power::lemma_square_is_pow2(b);
    }
    lemma_pow_multiplies(b, 2nat, h);
    assert(pow(b * b, h) == pow(b, 2 * h));
    if e % 2 == 1 {
        assert(e == 2 * h + 1);
        assert(pow(b, e) == b * pow(b, (e - 1) as nat));
        assert((e - 1) as nat == 2 * h);
        assert(((e - 1) / 2) as nat == h);
    } else {
        assert(e == 2 * h);
    }
}

proof fn lemma_odd_step(base: int, exp: nat, result: int, b: int, e: nat, m: int)
    requires
        m >= 1,
        e > 0,
        e % 2 == 1,
        pow(base, exp) % m == (result * pow(b, e)) % m,
    ensures
        pow(base, exp) % m == (((result * b) % m) * pow((b * b) % m, (e / 2) as nat)) % m,
{
    let h = (e / 2) as nat;
    lemma_pow_unfold_facts(b, e);
    assert(pow(b, e) == b * pow(b * b, h));
    assert(result * (b * pow(b * b, h)) == (result * b) * pow(b * b, h)) by {
        vstd::arithmetic::mul::lemma_mul_is_associative(result, b, pow(b * b, h));
    }
    // reduce both factors modulo m
    lemma_mul_mod_noop_general(result * b, pow(b * b, h), m);
    // ((result*b) % m) * (pow(b*b, h) % m) % m == (result*b) * pow(b*b, h) % m
    lemma_pow_mod_noop(b * b, h, m);
    lemma_mul_mod_noop_general((result * b) % m, pow((b * b) % m, h), m);
    lemma_mul_mod_noop_general((result * b) % m, pow(b * b, h), m);
    assert(pow((b * b) % m, h) % m == pow(b * b, h) % m);
    assert((((result * b) % m) * pow((b * b) % m, h)) % m == (((result * b) % m) * (pow(
        (b * b) % m,
        h,
    ) % m)) % m);
    assert((((result * b) % m) * (pow((b * b) % m, h) % m)) % m == (((result * b) % m) * (pow(
        b * b,
        h,
    ) % m)) % m);
    assert((((result * b) % m) * (pow(b * b, h) % m)) % m == (((result * b) % m) * pow(b * b, h))
        % m);
    assert((((result * b) % m) * pow(b * b, h)) % m == ((result * b) * pow(b * b, h)) % m);
}

proof fn lemma_even_step(base: int, exp: nat, result: int, b: int, e: nat, m: int)
    requires
        m >= 1,
        e > 0,
        e % 2 == 0,
        pow(base, exp) % m == (result * pow(b, e)) % m,
    ensures
        pow(base, exp) % m == (result * pow((b * b) % m, (e / 2) as nat)) % m,
{
    let h = (e / 2) as nat;
    lemma_pow_unfold_facts(b, e);
    assert(pow(b, e) == pow(b * b, h));
    lemma_pow_mod_noop(b * b, h, m);
    lemma_mul_mod_noop_general(result, pow((b * b) % m, h), m);
    lemma_mul_mod_noop_general(result, pow(b * b, h), m);
    assert((result * pow((b * b) % m, h)) % m == (result * (pow((b * b) % m, h) % m)) % m);
    assert((result * (pow((b * b) % m, h) % m)) % m == (result * (pow(b * b, h) % m)) % m);
    assert((result * (pow(b * b, h) % m)) % m == (result * pow(b * b, h)) % m);
}

/// Raising any base to the zeroth power modulo any modulus greater than one
/// yields one.
pub proof fn lemma_pow_mod_zero_exp(base: u64, modulus: u64)
    requires
        modulus > 1,
    ensures
        pow_mod(base as int, 0nat, modulus as int) == 1,
{
    assert(pow(base as int, 0nat) == 1) by {
        vstd::arithmetic::power::lemma_pow0(base as int);
    }
    lemma_small_mod(1nat, modulus as nat);
}

/// The Diffie-Hellman agreement identity: exponentiating a generator by two
/// private exponents in either order yields the same value modulo `p`, so
/// both peers derive the same shared secret.
pub proof fn lemma_dh_agreement(g: u64, a: u64, b: u64, p: u64)
    requires
        p >= 1,
    ensures
        pow_mod(pow_mod(g as int, a as nat, p as int), b as nat, p as int) == pow_mod(
            pow_mod(g as int, b as nat, p as int),
            a as nat,
            p as int,
        ),
{
    lemma_dh_one_sided(g as int, a as nat, b as nat, p as int);
    lemma_dh_one_sided(g as int, b as nat, a as nat, p as int);
    assert((a as nat) * (b as nat) == (b as nat) * (a as nat)) by {
        lemma_mul_is_commutative(a as int, b as int);
    }
}

/// Both nested reductions equal the single reduction of `g^(a*b)`.
proof fn lemma_dh_one_sided(g: int, a: nat, b: nat, p: int)
    requires
        p >= 1,
    ensures
        pow_mod(pow_mod(g, a, p), b, p) == pow(g, a * b) % p,
{
    lemma_pow_mod_noop(pow(g, a), b, p);
    assert(pow(pow(g, a) % p, b) % p == pow(pow(g, a), b) % p);
    lemma_pow_multiplies(g, a, b);
    assert(pow(pow(g, a), b) == pow(g, a * b));
}

} // verus!
