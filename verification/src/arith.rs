//! Modular multiplication and exponentiation on 64-bit unsigned integers.
//!
//! The executable functions work on `u64` and never lose precision: every
//! product is formed at double width before it is reduced. Their contracts
//! are stated over [`mod_exp`], which is plain exponentiation on unbounded
//! integers followed by one remainder.

use vstd::arithmetic::div_mod::{
    lemma_mul_mod_noop_general, lemma_mul_mod_noop_right, lemma_small_mod,
};
use vstd::arithmetic::mul::lemma_mul_is_associative;
use vstd::arithmetic::power::{
    lemma_pow0, lemma_pow1, lemma_pow_adds, lemma_pow_mod_noop, lemma_pow_multiplies,
    lemma_square_is_pow2, pow,
};
use vstd::prelude::*;

verus! {

/// The product of `a` and `b` reduced modulo `modulus`.
pub open spec fn mul_mod_spec(a: nat, b: nat, modulus: nat) -> nat {
    (a * b) % modulus
}

/// `base` raised to `exponent`, reduced modulo `modulus`.
pub open spec fn mod_exp(base: nat, exponent: nat, modulus: nat) -> nat {
    (pow(base as int, exponent) % (modulus as int)) as nat
}

/// A power taken modulo `modulus` lies below `modulus`.
pub proof fn lemma_mod_exp_bound(base: nat, exponent: nat, modulus: nat)
    requires
        modulus >= 1,
    ensures
        mod_exp(base, exponent, modulus) < modulus,
{
}

/// Raising to the exponent zero gives one, reduced modulo `modulus`: that is
/// `1` for every modulus from two upwards and `0` for the modulus one.
pub proof fn lemma_mod_exp_zero_exponent(base: nat, modulus: nat)
    requires
        modulus >= 1,
    ensures
        mod_exp(base, 0, modulus) == 1nat % modulus,
        modulus >= 2 ==> mod_exp(base, 0, modulus) == 1,
        modulus == 1 ==> mod_exp(base, 0, modulus) == 0,
{
    lemma_pow0(base as int);
    if modulus >= 2 {
        lemma_small_mod(1, modulus);
    }
}

/// Raising to the exponent one only reduces the base modulo `modulus`.
pub proof fn lemma_mod_exp_one_exponent(base: nat, modulus: nat)
    requires
        modulus >= 1,
    ensures
        mod_exp(base, 1, modulus) == base % modulus,
{
    lemma_pow1(base as int);
}

/// Exponents add: `base^(a + b)` is the product of `base^a` and `base^b`,
/// all three taken modulo `modulus`. This holds for exponents of any size.
pub proof fn lemma_mod_exp_adds(base: nat, a: nat, b: nat, modulus: nat)
    requires
        modulus >= 1,
    ensures
        mod_exp(base, a + b, modulus) == (mod_exp(base, a, modulus) * mod_exp(base, b, modulus))
            % modulus,
{
    let m = modulus as int;
    let pa = pow(base as int, a);
    let pb = pow(base as int, b);
    lemma_pow_adds(base as int, a, b);
    lemma_mul_mod_noop_general(pa, pb, m);
}

/// Reducing the base modulo `modulus` first does not change the power.
pub proof fn lemma_mod_exp_reduces_base(base: nat, exponent: nat, modulus: nat)
    requires
        modulus >= 1,
    ensures
        mod_exp(base % modulus, exponent, modulus) == mod_exp(base, exponent, modulus),
{
    lemma_pow_mod_noop(base as int, exponent, modulus as int);
}

/// One round of square-and-multiply keeps `acc * g^x` unchanged modulo
/// `modulus`: the low bit of `x` is folded into the accumulator, `g` is
/// squared and `x` is halved.
proof fn lemma_square_and_multiply_step(acc: nat, g: nat, x: nat, modulus: nat)
    requires
        modulus >= 1,
        x >= 1,
    ensures
        ({
            let next_acc = if x % 2 == 1 {
                mul_mod_spec(acc, g, modulus)
            } else {
                acc
            };
            let next_g = mul_mod_spec(g, g, modulus);
            (next_acc * pow(next_g as int, x / 2)) % (modulus as int) == (acc * pow(
                g as int,
                x,
            )) % (modulus as int)
        }),
{
    let m = modulus as int;
    let gi = g as int;
    let half = x / 2;
    let square = gi * gi;
    let next_g = mul_mod_spec(g, g, modulus);
    // g^(2 * half) is (g * g)^half, and squaring commutes with reduction.
    assert(pow(gi, 2 * half) == pow(square, half)) by {
        lemma_square_is_pow2(gi);
        lemma_pow_multiplies(gi, 2, half);
    }
    assert(pow(next_g as int, half) % m == pow(square, half) % m) by {
        lemma_pow_mod_noop(square, half, m);
    }
    let tail = pow(square, half);
    if x % 2 == 1 {
        let next_acc = mul_mod_spec(acc, g, modulus);
        assert(pow(gi, x) == gi * tail) by {
            lemma_pow_adds(gi, 1, 2 * half);
            lemma_pow1(gi);
        }
        assert(acc * pow(gi, x) == (acc * gi) * tail) by {
            lemma_mul_is_associative(acc as int, gi, tail);
        }
        assert((next_acc * pow(next_g as int, half)) % m == ((acc * gi) * tail) % m) by {
            lemma_mul_mod_noop_general(acc * gi, tail, m);
            lemma_mul_mod_noop_general(next_acc as int, pow(next_g as int, half), m);
        }
    } else {
        assert((acc * pow(next_g as int, half)) % m == (acc * tail) % m) by {
            lemma_mul_mod_noop_right(acc as int, pow(next_g as int, half), m);
            lemma_mul_mod_noop_right(acc as int, tail, m);
        }
    }
}

/// Multiplies two 64-bit values and reduces the exact double-width product
/// modulo `modulus`, so no modulus is too large for the intermediate.
pub fn mul_mod(a: u64, b: u64, modulus: u64) -> (product: u64)
    requires
        modulus >= 1,
    ensures
        product == mul_mod_spec(a as nat, b as nat, modulus as nat),
        product < modulus,
{
    assert(a * b <= u64::MAX * u64::MAX) by (nonlinear_arith)
        requires
            a <= u64::MAX,
            b <= u64::MAX,
    ;
    let wide: u128 = (a as u128) * (b as u128);
    let reduced: u128 = wide % (modulus as u128);
    reduced as u64
}

/// Computes `g^x mod p` by binary exponentiation, scanning the bits of `x`
/// from the least significant upwards.
///
/// The modulus must be at least one; every such modulus is handled exactly,
/// up to and including `u64::MAX`.
pub fn modular_exp(g: &u64, x: &u64, p: &u64) -> (result: u64)
    requires
        *p >= 1,
    ensures
        result == mod_exp(*g as nat, *x as nat, *p as nat),
        result < *p,
{
    let modulus: u64 = *p;
    let mut result: u64 = 1;
    let mut base: u64 = *g % modulus;
    let mut exponent: u64 = *x;
    proof {
        lemma_pow_mod_noop(*g as int, *x as nat, modulus as int);
    }
    while exponent > 0
        invariant
            modulus >= 1,
            modulus == *p,
            (result * pow(base as int, exponent as nat)) % (modulus as int) == pow(
                *g as int,
                *x as nat,
            ) % (modulus as int),
        decreases exponent,
    {
        proof {
            lemma_square_and_multiply_step(
                result as nat,
                base as nat,
                exponent as nat,
                modulus as nat,
            );
            assert(exponent >> 1 == exponent / 2) by (bit_vector);
        }
        if exponent % 2 == 1 {
            result = mul_mod(result, base, modulus);
        }
        exponent = exponent >> 1;
        base = mul_mod(base, base, modulus);
    }
    proof {
        lemma_pow0(base as int);
    }
    result % modulus
}

} // verus!
