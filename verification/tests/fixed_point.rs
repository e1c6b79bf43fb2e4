use pong::fixed::{halved, isqrt, mean, minus, negated, plus, saturated, times, ONE};

#[test]
fn one_counts_millionths() {
    assert_eq!(ONE, 1_000_000);
}

#[test]
fn sums_and_differences_are_exact_in_range() {
    assert_eq!(plus(2 * ONE, 3 * ONE), 5 * ONE);
    assert_eq!(minus(2 * ONE, 3 * ONE), -ONE);
    assert_eq!(plus(-7, 7), 0);
}

#[test]
fn results_stick_to_the_bounds() {
    assert_eq!(plus(i64::MAX, 1), i64::MAX);
    assert_eq!(plus(i64::MIN, -1), i64::MIN);
    assert_eq!(minus(i64::MIN, 1), i64::MIN);
    assert_eq!(minus(i64::MAX, -1), i64::MAX);
    assert_eq!(negated(i64::MIN), i64::MAX);
    assert_eq!(times(i64::MAX, i64::MAX), i64::MAX);
    assert_eq!(times(i64::MIN, i64::MAX), i64::MIN);
    assert_eq!(saturated(i128::MAX), i64::MAX);
    assert_eq!(saturated(i128::MIN), i64::MIN);
    assert_eq!(saturated(-5), -5);
}

#[test]
fn negation_reverses_the_sign() {
    assert_eq!(negated(5 * ONE), -5 * ONE);
    assert_eq!(negated(-5 * ONE), 5 * ONE);
    assert_eq!(negated(0), 0);
}

#[test]
fn products_are_fixed_point() {
    assert_eq!(times(2 * ONE, 3 * ONE), 6 * ONE);
    assert_eq!(times(400 * ONE, 10_000), 4 * ONE);
    assert_eq!(times(ONE / 2, ONE / 2), ONE / 4);
    assert_eq!(times(-3 * ONE, ONE / 2), -3 * ONE / 2);
    assert_eq!(times(123, 0), 0);
}

#[test]
fn quotients_round_toward_zero() {
    assert_eq!(times(1, ONE / 2), 0);
    assert_eq!(times(-1, ONE / 2), 0);
    assert_eq!(times(3, ONE / 2), 1);
    assert_eq!(times(-3, ONE / 2), -1);
    assert_eq!(halved(3), 1);
    assert_eq!(halved(-3), -1);
    assert_eq!(halved(-4), -2);
    assert_eq!(halved(i64::MIN), i64::MIN / 2);
    assert_eq!(mean(1, 2), 1);
    assert_eq!(mean(-1, -2), -1);
    assert_eq!(mean(i64::MAX, i64::MAX), i64::MAX);
    assert_eq!(mean(i64::MIN, i64::MAX), 0);
    assert_eq!(mean(100 * ONE, 125 * ONE), 112_500_000);
}

#[test]
fn roots_are_rounded_down() {
    assert_eq!(isqrt(0), 0);
    assert_eq!(isqrt(1), 1);
    assert_eq!(isqrt(2), 1);
    assert_eq!(isqrt(3), 1);
    assert_eq!(isqrt(4), 2);
    assert_eq!(isqrt(24), 4);
    assert_eq!(isqrt(25), 5);
    assert_eq!(isqrt(26), 5);
    assert_eq!(isqrt(1_000_000_000_000), 1_000_000);
    assert_eq!(isqrt(u128::MAX), u64::MAX as u128);
}
