//! Random scalars, from the generator of the `rand` crate.

use rand::Rng;
use vstd::prelude::*;

verus! {

/// Calls `gen_range` on the generator that `rand::thread_rng` returns, with
/// the half-open range from `low` to `high`. The outside function draws a
/// number at random that is at least `low` and less than `high`; it panics on
/// an empty range, which the precondition leaves out.
#[verifier::external_body]
pub(crate) fn random_between(low: i64, high: i64) -> (value: i64)
    requires
        low < high,
    ensures
        low <= value < high,
{
    rand::thread_rng().gen_range(low..high)
}

} // verus!
