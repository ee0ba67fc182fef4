//! The Pedersen commitment scheme: `C = g^m * h^r mod p`.

use crate::arith::{lemma_mod_exp_adds, mod_exp, modular_exp, mul_mod, mul_mod_spec};
use crate::entropy::sample_range;
use crate::units::{
    is_prime, is_unit, lemma_prime_unit, lemma_unit_cancels, lemma_unit_power, lemma_unit_product,
};
use vstd::arithmetic::div_mod::{lemma_mul_mod_noop_general, lemma_small_mod};
use vstd::arithmetic::power::pow;
use vstd::prelude::*;

verus! {

/// The domain parameters of a scheme as mathematical integers: two
/// generators and the modulus they are taken in.
pub struct Parameters {
    pub g: nat,
    pub h: nat,
    pub p: nat,
}

impl Parameters {
    /// The parameters a scheme can be built from: the modulus is at least one.
    pub open spec fn valid(self) -> bool {
        self.p >= 1
    }

    /// The commitment to `message` under `blinding`:
    /// `(g^message mod p) * (h^blinding mod p) mod p`.
    pub open spec fn commitment(self, message: nat, blinding: nat) -> nat {
        mul_mod_spec(mod_exp(self.g, message, self.p), mod_exp(self.h, blinding, self.p), self.p)
    }

    /// Whether `(message, blinding)` opens `commitment`.
    pub open spec fn opens(self, commitment: nat, message: nat, blinding: nat) -> bool {
        commitment == self.commitment(message, blinding)
    }
}

/// A commitment together with the blinding factor it was made under, which
/// the committer keeps until the commitment is opened.
#[derive(Clone, Copy, Debug)]
pub struct BlindedCommitment {
    pub commitment: u64,
    pub blinding: u64,
}

/// A commitment scheme with fixed domain parameters.
pub struct PedersenCommitment {
    g: u64,
    h: u64,
    p: u64,
}

impl View for PedersenCommitment {
    type V = Parameters;

    closed spec fn view(&self) -> Parameters {
        Parameters { g: self.g as nat, h: self.h as nat, p: self.p as nat }
    }
}

impl PedersenCommitment {
    #[verifier::type_invariant]
    spec fn modulus_is_positive(self) -> bool {
        self.p >= 1
    }

    /// Builds a scheme from the generators `g` and `h` and the modulus `p`,
    /// which must be at least one.
    pub fn new(g: u64, h: u64, p: u64) -> (scheme: Self)
        requires
            p >= 1,
        ensures
            scheme@ == (Parameters { g: g as nat, h: h as nat, p: p as nat }),
    {
        PedersenCommitment { g: g, h: h, p: p }
    }

    /// Commits to `message` under the blinding factor `blinding`.
    pub fn commit(&self, message: u64, blinding: u64) -> (commitment: u64)
        ensures
            commitment == self@.commitment(message as nat, blinding as nat),
            commitment < self@.p,
    {
        proof {
            use_type_invariant(self);
        }
        let gm: u64 = modular_exp(&self.g, &message, &self.p);
        let hr: u64 = modular_exp(&self.h, &blinding, &self.p);
        mul_mod(gm, hr, self.p)
    }

    /// Commits to `message` under a blinding factor drawn afresh from
    /// `[low, high)`, and returns the commitment with the factor drawn.
    ///
    /// Returns `None` exactly when the range is empty. Whatever factor is
    /// drawn, the commitment returned is the one that `message` and that
    /// factor open.
    pub fn commit_fresh(&self, message: u64, low: u64, high: u64) -> (drawn: Option<
        BlindedCommitment,
    >)
        ensures
            drawn is Some <==> low < high,
            drawn matches Some(made) ==> {
                &&& low <= made.blinding < high
                &&& made.commitment == self@.commitment(message as nat, made.blinding as nat)
                &&& self@.opens(made.commitment as nat, message as nat, made.blinding as nat)
            },
    {
        if low >= high {
            return None;
        }
        let blinding: u64 = sample_range(low, high);
        let commitment: u64 = self.commit(message, blinding);
        Some(BlindedCommitment { commitment: commitment, blinding: blinding })
    }

    /// Checks a revealed `(message, blinding)` pair against `commitment`:
    /// `true` exactly when committing to the pair gives `commitment` again.
    pub fn verify(&self, commitment: u64, message: u64, blinding: u64) -> (accepted: bool)
        ensures
            accepted == self@.opens(commitment as nat, message as nat, blinding as nat),
    {
        if commitment == self.commit(message, blinding) {
            return true;
        }
        false
    }
}

/// How far apart two messages are.
pub open spec fn distance(a: nat, b: nat) -> nat {
    if a <= b {
        (b - a) as nat
    } else {
        (a - b) as nat
    }
}

/// The smaller of two messages.
pub open spec fn lesser(a: nat, b: nat) -> nat {
    if a <= b {
        a
    } else {
        b
    }
}

/// Every commitment is opened by the pair it was made from.
pub proof fn lemma_commit_then_verify(params: Parameters, message: nat, blinding: nat)
    ensures
        params.opens(params.commitment(message, blinding), message, blinding),
{
}

/// A commitment lies below the modulus.
pub proof fn lemma_commitment_bound(params: Parameters, message: nat, blinding: nat)
    requires
        params.valid(),
    ensures
        params.commitment(message, blinding) < params.p,
{
}

/// A commitment is the exact product `g^message * h^blinding`, reduced once:
/// reducing the two powers before they are multiplied changes nothing.
pub proof fn lemma_commitment_is_product(params: Parameters, message: nat, blinding: nat)
    requires
        params.valid(),
    ensures
        params.commitment(message, blinding) == (pow(params.g as int, message) * pow(
            params.h as int,
            blinding,
        )) % (params.p as int),
{
    lemma_mul_mod_noop_general(
        pow(params.g as int, message),
        pow(params.h as int, blinding),
        params.p as int,
    );
}

/// Raising the message by `delta` multiplies the commitment by `g^delta`.
pub proof fn lemma_commitment_shift(params: Parameters, message: nat, delta: nat, blinding: nat)
    requires
        params.valid(),
    ensures
        params.commitment(message + delta, blinding) == mul_mod_spec(
            mod_exp(params.g, delta, params.p),
            params.commitment(message, blinding),
            params.p,
        ),
{
    let m = params.p as int;
    let base = mod_exp(params.g, message, params.p) as int;
    let step = mod_exp(params.g, delta, params.p) as int;
    let blind = mod_exp(params.h, blinding, params.p) as int;
    lemma_mod_exp_adds(params.g, message, delta, params.p);
    assert(((base * step) % m * blind) % m == (step * ((base * blind) % m)) % m) by {
        lemma_mul_mod_noop_general(base * step, blind, m);
        lemma_mul_mod_noop_general(step, base * blind, m);
        assert((base * step) * blind == step * (base * blind)) by (nonlinear_arith);
    }
}

/// Binding: a commitment is not opened by another message under the same
/// blinding factor, provided `g` raised to the distance between the two
/// messages is not one modulo `p` and the commitment to the smaller message
/// is invertible modulo `p`.
///
/// Without invertibility the claim fails: with `g = 2`, `h = 1` and `p = 4`
/// the messages `2` and `3` have the same commitment `0`, although
/// `g^1 mod p` is `2`.
pub proof fn lemma_binding(params: Parameters, message: nat, other: nat, blinding: nat)
    requires
        message != other,
        mod_exp(params.g, distance(message, other), params.p) != 1,
        is_unit(params.commitment(lesser(message, other), blinding), params.p),
    ensures
        !params.opens(params.commitment(message, blinding), other, blinding),
{
    let low = lesser(message, other);
    let delta = distance(message, other);
    let anchor = params.commitment(low, blinding);
    let factor = mod_exp(params.g, delta, params.p);
    lemma_commitment_shift(params, low, delta, blinding);
    if params.commitment(message, blinding) == params.commitment(other, blinding) {
        lemma_small_mod(anchor, params.p);
        lemma_unit_cancels(anchor, factor, params.p);
        lemma_small_mod(factor, params.p);
    }
}

/// When both generators are invertible modulo `p`, so is every commitment.
pub proof fn lemma_commitment_is_unit(params: Parameters, message: nat, blinding: nat)
    requires
        is_unit(params.g, params.p),
        is_unit(params.h, params.p),
    ensures
        is_unit(params.commitment(message, blinding), params.p),
{
    lemma_unit_power(params.g, message, params.p);
    lemma_unit_power(params.h, blinding, params.p);
    lemma_unit_product(
        mod_exp(params.g, message, params.p),
        mod_exp(params.h, blinding, params.p),
        params.p,
    );
}

/// Binding for invertible generators: the scheme is binding wherever `g`
/// raised to the distance between the two messages is not one modulo `p`.
pub proof fn lemma_binding_for_units(
    params: Parameters,
    message: nat,
    other: nat,
    blinding: nat,
)
    requires
        is_unit(params.g, params.p),
        is_unit(params.h, params.p),
        message != other,
        mod_exp(params.g, distance(message, other), params.p) != 1,
    ensures
        !params.opens(params.commitment(message, blinding), other, blinding),
{
    lemma_commitment_is_unit(params, lesser(message, other), blinding);
    lemma_binding(params, message, other, blinding);
}

/// Binding for a prime modulus: if `p` is prime and divides neither
/// generator, the scheme is binding wherever `g` raised to the distance
/// between the two messages is not one modulo `p`.
pub proof fn lemma_binding_for_prime(
    params: Parameters,
    message: nat,
    other: nat,
    blinding: nat,
)
    requires
        is_prime(params.p),
        params.g % params.p != 0,
        params.h % params.p != 0,
        message != other,
        mod_exp(params.g, distance(message, other), params.p) != 1,
    ensures
        !params.opens(params.commitment(message, blinding), other, blinding),
{
    lemma_prime_unit(params.g, params.p);
    lemma_prime_unit(params.h, params.p);
    lemma_binding_for_units(params, message, other, blinding);
}

} // verus!
