//! Fixed-point scalars.
//!
//! Every coordinate, speed, duration and color channel of the simulation is an
//! `i64` that counts millionths: `ONE` stands for 1.0. A result that leaves the
//! range of `i64` sticks to the nearest bound, and quotients round toward zero.

use vstd::prelude::*;

verus! {

/// The scalar 1.0.
pub const ONE: i64 = 1_000_000;

/// The value of `x` once it is forced into the range of a scalar.
pub open spec fn saturate(x: int) -> i64 {
    if x < i64::MIN {
        i64::MIN
    } else if x > i64::MAX {
        i64::MAX
    } else {
        x as i64
    }
}

/// The quotient of `a` by a positive `b`, rounded toward zero.
pub open spec fn quotient(a: int, b: int) -> int {
    if a >= 0 {
        a / b
    } else {
        -((-a) / b)
    }
}

/// The fixed-point product of two scalars, before it is forced into range.
pub open spec fn product(a: int, b: int) -> int {
    quotient(a * b, ONE as int)
}

/// Forces a wide intermediate result into a scalar.
pub fn saturated(x: i128) -> (r: i64)
    ensures
        r == saturate(x as int),
{
    if x < i64::MIN as i128 {
        i64::MIN
    } else if x > i64::MAX as i128 {
        i64::MAX
    } else {
        x as i64
    }
}

/// The sum of two scalars, forced into range.
pub open spec fn spec_plus(a: i64, b: i64) -> i64 {
    saturate(a + b)
}

/// The sum of two scalars, see [`spec_plus`].
#[verifier::when_used_as_spec(spec_plus)]
pub fn plus(a: i64, b: i64) -> (r: i64)
    ensures
        r == saturate(a + b),
{
    saturated(a as i128 + b as i128)
}

/// The difference of two scalars, forced into range.
pub open spec fn spec_minus(a: i64, b: i64) -> i64 {
    saturate(a - b)
}

/// The difference of two scalars, see [`spec_minus`].
#[verifier::when_used_as_spec(spec_minus)]
pub fn minus(a: i64, b: i64) -> (r: i64)
    ensures
        r == saturate(a - b),
{
    saturated(a as i128 - b as i128)
}

/// The scalar with the opposite sign, forced into range: the least scalar
/// turns into the largest.
pub open spec fn spec_negated(a: i64) -> i64 {
    saturate(-a)
}

/// The scalar with the opposite sign, see [`spec_negated`].
#[verifier::when_used_as_spec(spec_negated)]
pub fn negated(a: i64) -> (r: i64)
    ensures
        r == saturate(-a),
{
    saturated(-(a as i128))
}

/// The fixed-point product of two scalars, forced into range.
pub open spec fn spec_times(a: i64, b: i64) -> i64 {
    saturate(product(a as int, b as int))
}

/// The fixed-point product of two scalars, see [`spec_times`].
#[verifier::when_used_as_spec(spec_times)]
pub fn times(a: i64, b: i64) -> (r: i64)
    ensures
        r == saturate(product(a as int, b as int)),
{
    assert(-0x4000_0000_0000_0000_0000_0000_0000_0000 <= (a as int) * (b as int)
        <= 0x4000_0000_0000_0000_0000_0000_0000_0000) by (nonlinear_arith)
        requires
            -0x8000_0000_0000_0000 <= a <= 0x7fff_ffff_ffff_ffff,
            -0x8000_0000_0000_0000 <= b <= 0x7fff_ffff_ffff_ffff,
    ;
    saturated((a as i128 * b as i128) / (ONE as i128))
}

/// Half of a scalar, rounded toward zero.
pub open spec fn spec_halved(a: i64) -> i64 {
    quotient(a as int, 2) as i64
}

/// Half of a scalar, see [`spec_halved`].
#[verifier::when_used_as_spec(spec_halved)]
pub fn halved(a: i64) -> (r: i64)
    ensures
        r == quotient(a as int, 2),
{
    a / 2
}

/// The scalar halfway between two scalars, rounded toward zero.
pub open spec fn spec_mean(a: i64, b: i64) -> i64 {
    quotient(a + b, 2) as i64
}

/// The scalar halfway between two scalars, see [`spec_mean`].
#[verifier::when_used_as_spec(spec_mean)]
pub fn mean(a: i64, b: i64) -> (r: i64)
    ensures
        r == quotient(a + b, 2),
{
    ((a as i128 + b as i128) / 2) as i64
}

/// The largest number whose square does not exceed `n`.
pub open spec fn floor_sqrt(n: nat) -> nat
    decreases n,
{
    if n == 0 {
        0
    } else {
        let below = floor_sqrt((n - 1) as nat);
        if (below + 1) * (below + 1) <= n {
            below + 1
        } else {
            below
        }
    }
}

/// The square of the root does not exceed `n`, and the next square does.
pub proof fn lemma_floor_sqrt_bounds(n: nat)
    ensures
        floor_sqrt(n) * floor_sqrt(n) <= n < (floor_sqrt(n) + 1) * (floor_sqrt(n) + 1),
    decreases n,
{
    if n > 0 {
        lemma_floor_sqrt_bounds((n - 1) as nat);
        let below = floor_sqrt((n - 1) as nat);
        assert((below + 1) * (below + 1) < (below + 1 + 1) * (below + 1 + 1))
            by (nonlinear_arith);
    } else {
        assert(floor_sqrt(0) == 0);
        assert(0 * 0 <= 0 < (0 + 1) * (0 + 1)) by (nonlinear_arith);
    }
}

/// Only one number has its square at or below `n` and the next square above.
pub proof fn lemma_floor_sqrt_unique(n: nat, s: nat)
    requires
        s * s <= n < (s + 1) * (s + 1),
    ensures
        s == floor_sqrt(n),
{
    lemma_floor_sqrt_bounds(n);
    let t = floor_sqrt(n);
    assert(s == t) by (nonlinear_arith)
        requires
            s * s <= n < (s + 1) * (s + 1),
            t * t <= n < (t + 1) * (t + 1),
    ;
}

/// Computes the largest number whose square does not exceed `n`, see
/// [`floor_sqrt`].
pub fn isqrt(n: u128) -> (root: u128)
    ensures
        root == floor_sqrt(n as nat),
{
    let mut low: u128 = 0;
    let mut high: u128 = 0x1_0000_0000_0000_0000;
    assert(n < high * high) by (nonlinear_arith)
        requires
            high == 0x1_0000_0000_0000_0000,
            n <= u128::MAX,
    ;
    while high - low > 1
        invariant
            low < high <= 0x1_0000_0000_0000_0000,
            low * low <= n < high * high,
        decreases high - low,
    {
        let middle: u128 = low + (high - low) / 2;
        assert(middle * middle <= u128::MAX) by (nonlinear_arith)
            requires
                middle < 0x1_0000_0000_0000_0000,
        ;
        if middle * middle <= n {
            low = middle;
        } else {
            high = middle;
        }
    }
    proof {
        lemma_floor_sqrt_unique(n as nat, low as nat);
    }
    low
}

} // verus!
