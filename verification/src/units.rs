//! Invertible residues.
//!
//! A commitment binds its opener only as far as it can be cancelled from a
//! congruence, and the residues that can be cancelled are the units: those
//! with a multiplicative inverse modulo the modulus. This module defines
//! them, shows that they are closed under the operations a commitment is
//! built from, and shows that modulo a prime every nonzero residue is one.

use crate::arith::{
    lemma_mod_exp_adds, lemma_mod_exp_one_exponent, lemma_mod_exp_zero_exponent, mod_exp,
    mul_mod_spec,
};
use vstd::arithmetic::div_mod::{
    lemma_fundamental_div_mod, lemma_mod_multiples_vanish, lemma_mul_mod_noop_general,
    lemma_small_mod,
};
use vstd::arithmetic::mul::lemma_mul_is_associative;
use vstd::prelude::*;

verus! {

/// Whether `a` has a multiplicative inverse modulo `modulus`. No residue is
/// a unit modulo zero or one.
pub open spec fn is_unit(a: nat, modulus: nat) -> bool {
    modulus >= 2 && exists|inverse: nat| #[trigger] mul_mod_spec(a, inverse, modulus) == 1
}

/// Whether `p` is a prime number.
pub open spec fn is_prime(p: nat) -> bool {
    p >= 2 && forall|d: nat| 1 < d < p ==> #[trigger] (p % d) != 0
}

/// A unit can be cancelled from a congruence: if `factor * x` is congruent
/// to `x` and `x` is a unit, then `factor` is congruent to one.
pub proof fn lemma_unit_cancels(x: nat, factor: nat, modulus: nat)
    requires
        is_unit(x, modulus),
        mul_mod_spec(factor, x, modulus) == x % modulus,
    ensures
        factor % modulus == 1,
{
    let m = modulus as int;
    let inverse = choose|inverse: nat| #[trigger] mul_mod_spec(x, inverse, modulus) == 1;
    let f = factor as int;
    let xi = x as int;
    let inv = inverse as int;
    assert(((f * xi) * inv) % m == 1) by {
        lemma_mul_mod_noop_general(f * xi, inv, m);
        lemma_mul_mod_noop_general(xi, inv, m);
    }
    assert(((f * xi) * inv) % m == f % m) by {
        lemma_mul_is_associative(f, xi, inv);
        lemma_mul_mod_noop_general(f, xi * inv, m);
    }
}

/// One is a unit modulo every modulus from two upwards.
pub proof fn lemma_one_is_unit(modulus: nat)
    requires
        modulus >= 2,
    ensures
        is_unit(1, modulus),
{
    lemma_small_mod(1, modulus);
    assert(mul_mod_spec(1, 1, modulus) == 1);
}

/// A residue is a unit exactly when its reduction modulo `modulus` is.
pub proof fn lemma_unit_reduced(a: nat, modulus: nat)
    requires
        modulus >= 1,
    ensures
        is_unit(a % modulus, modulus) == is_unit(a, modulus),
{
    let m = modulus as int;
    let reduced = a % modulus;
    assert forall|inverse: nat|
        mul_mod_spec(reduced, inverse, modulus) == mul_mod_spec(a, inverse, modulus) by {
        lemma_mul_mod_noop_general(a as int, inverse as int, m);
    }
}

/// The product of two units, reduced or not, is a unit.
pub proof fn lemma_unit_product(a: nat, b: nat, modulus: nat)
    requires
        is_unit(a, modulus),
        is_unit(b, modulus),
    ensures
        is_unit(a * b, modulus),
        is_unit(mul_mod_spec(a, b, modulus), modulus),
{
    let m = modulus as int;
    let a_inv = choose|inverse: nat| #[trigger] mul_mod_spec(a, inverse, modulus) == 1;
    let b_inv = choose|inverse: nat| #[trigger] mul_mod_spec(b, inverse, modulus) == 1;
    let (ai, bi, xi, yi) = (a as int, b as int, a_inv as int, b_inv as int);
    assert((ai * bi) * (xi * yi) == (ai * xi) * (bi * yi)) by (nonlinear_arith);
    assert(((ai * xi) * (bi * yi)) % m == 1) by {
        lemma_mul_mod_noop_general(ai * xi, bi * yi, m);
        assert(1int * 1int == 1int);
        lemma_small_mod(1, modulus);
    }
    assert(mul_mod_spec(a * b, a_inv * b_inv, modulus) == 1);
    lemma_unit_reduced(a * b, modulus);
}

/// Every power of a unit, reduced modulo `modulus`, is a unit.
pub proof fn lemma_unit_power(a: nat, exponent: nat, modulus: nat)
    requires
        is_unit(a, modulus),
    ensures
        is_unit(mod_exp(a, exponent, modulus), modulus),
    decreases exponent,
{
    if exponent == 0 {
        lemma_mod_exp_zero_exponent(a, modulus);
        lemma_one_is_unit(modulus);
    } else {
        let rest = (exponent - 1) as nat;
        lemma_unit_power(a, rest, modulus);
        lemma_mod_exp_adds(a, rest, 1, modulus);
        lemma_mod_exp_one_exponent(a, modulus);
        lemma_unit_reduced(a, modulus);
        lemma_unit_product(mod_exp(a, rest, modulus), a % modulus, modulus);
    }
}

/// Bezout's identity: some positive common divisor `d` of `a` and `b` is an
/// integer combination `a * x + b * y` of them. Returns `(d, x, y)`.
proof fn lemma_bezout(a: nat, b: nat) -> (r: (nat, int, int))
    requires
        a > 0 || b > 0,
    ensures
        r.0 > 0,
        a % r.0 == 0,
        b % r.0 == 0,
        a * r.1 + b * r.2 == r.0,
    decreases b,
{
    if b == 0 {
        assert(a % a == 0 && 0nat % a == 0) by (nonlinear_arith)
            requires
                a > 0,
        ;
        (a, 1, 0)
    } else {
        let rem = a % b;
        let quot = a / b;
        let (d, x, y) = lemma_bezout(b, rem);
        assert(a == b * quot + rem) by {
            lemma_fundamental_div_mod(a as int, b as int);
        }
        assert(a * y + b * (x - quot * y) == d) by (nonlinear_arith)
            requires
                a == b * quot + rem,
                b * x + rem * y == d,
        ;
        assert(a % d == 0) by {
            lemma_fundamental_div_mod(b as int, d as int);
            lemma_fundamental_div_mod(rem as int, d as int);
            let k = (b / d) * quot + rem / d;
            assert(a == d * k) by (nonlinear_arith)
                requires
                    a == b * quot + rem,
                    b == d * (b / d),
                    rem == d * (rem / d),
                    k == (b / d) * quot + rem / d,
            ;
            lemma_mod_multiples_vanish(k as int, 0, d as int);
        }
        (d, y, x - quot * y)
    }
}

/// Modulo a prime, every residue that is not a multiple of the prime is a
/// unit.
pub proof fn lemma_prime_unit(a: nat, p: nat)
    requires
        is_prime(p),
        a % p != 0,
    ensures
        is_unit(a, p),
{
    let (d, x, y) = lemma_bezout(a, p);
    // d divides the prime p without being p, which does not divide a.
    assert(d == 1) by {
        if d > p {
            lemma_small_mod(p, d);
        }
    }
    let m = p as int;
    let inverse = (x % m) as nat;
    assert(mul_mod_spec(a, inverse, p) == 1) by {
        lemma_mul_mod_noop_general(a as int, x, m);
        assert(a * x == m * (-y) + 1) by (nonlinear_arith)
            requires
                a * x + p * y == 1,
                m == p,
        ;
        lemma_mod_multiples_vanish(-y, 1, m);
        lemma_small_mod(1, p);
    }
}

} // verus!
