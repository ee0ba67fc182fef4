//! The source of fresh blinding factors.

use rand::Rng;
use vstd::prelude::*;

verus! {

/// Draws an integer from the half-open range `[low, high)`.
///
/// Trusted, not proved: the body calls `rand::Rng::gen_range` with the range
/// `low..high` on the generator that `rand::thread_rng` hands out. The
/// contract records what `rand` documents of that call: it panics on an
/// empty range, which the precondition rules out, and otherwise returns a
/// value inside the range. Nothing is claimed about which value is drawn,
/// and two calls with the same bounds may differ.
#[verifier::external_body]
pub(crate) fn sample_range(low: u64, high: u64) -> (value: u64)
    requires
        low < high,
    ensures
        low <= value < high,
{
    rand::thread_rng().gen_range(low..high)
}

} // verus!
