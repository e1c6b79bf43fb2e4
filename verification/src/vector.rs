//! Plane vectors over wide integers, for the geometry of contacts. The
//! components are fixed-point numbers that have not been forced into the range
//! of a scalar yet. The arithmetic is that of the `vecmath` crate.

use vstd::prelude::*;

verus! {

/// Calls `vecmath::vec2_add`, which adds two vectors component by component.
/// The sums have to fit: the outside function adds with `+`.
#[verifier::external_body]
pub(crate) fn vec2_add(a: [i128; 2], b: [i128; 2]) -> (sum: [i128; 2])
    requires
        i128::MIN <= a[0] + b[0] <= i128::MAX,
        i128::MIN <= a[1] + b[1] <= i128::MAX,
    ensures
        sum[0] == a[0] + b[0],
        sum[1] == a[1] + b[1],
{
    vecmath::vec2_add(a, b)
}

/// Calls `vecmath::vec2_sub`, which subtracts `b` from `a` component by
/// component. The differences have to fit: the outside function subtracts
/// with `-`.
#[verifier::external_body]
pub(crate) fn vec2_sub(a: [i128; 2], b: [i128; 2]) -> (difference: [i128; 2])
    requires
        i128::MIN <= a[0] - b[0] <= i128::MAX,
        i128::MIN <= a[1] - b[1] <= i128::MAX,
    ensures
        difference[0] == a[0] - b[0],
        difference[1] == a[1] - b[1],
{
    vecmath::vec2_sub(a, b)
}

/// Calls `vecmath::vec2_scale`, which multiplies both components of `a` by
/// `b`. The products have to fit: the outside function multiplies with `*`.
#[verifier::external_body]
pub(crate) fn vec2_scale(a: [i128; 2], b: i128) -> (scaled: [i128; 2])
    requires
        i128::MIN <= a[0] * b <= i128::MAX,
        i128::MIN <= a[1] * b <= i128::MAX,
    ensures
        scaled[0] == a[0] * b,
        scaled[1] == a[1] * b,
{
    vecmath::vec2_scale(a, b)
}

} // verus!
