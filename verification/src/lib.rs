//! A Pedersen commitment scheme over the integers modulo `p`.
//!
//! A committer hides a message `m` behind a random blinding factor `r` by
//! publishing `C = g^m * h^r mod p`, and later opens the commitment by
//! revealing `(m, r)`.
//!
//! * [`arith`] holds modular multiplication and exponentiation on `u64`,
//!   exact for every modulus, and the laws of exponentiation.
//! * [`scheme`] holds the scheme itself, [`PedersenCommitment`], with the
//!   round-trip and binding laws.
//! * [`units`] holds the theory of invertible residues that the binding
//!   laws rest on.
//!
//! Every executable function is specified against unbounded integer
//! arithmetic and proved to meet that specification without overflow.

pub mod arith;
mod entropy;
pub mod scheme;
pub mod units;

pub use arith::{modular_exp, mul_mod};
pub use scheme::{BlindedCommitment, Parameters, PedersenCommitment};
