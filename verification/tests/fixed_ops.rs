use fluidsim::fixed::{fadd, fdiv, floor_fix, fmul, from_int, fsub, seconds_to_fix, HALF, ONE};

#[test]
fn add_exact() {
    assert_eq!(fadd(ONE, HALF), ONE + HALF);
    assert_eq!(fadd(-ONE, ONE), 0);
}

#[test]
fn add_saturates() {
    assert_eq!(fadd(i64::MAX, 1), i64::MAX);
    assert_eq!(fadd(i64::MIN, -1), i64::MIN);
    assert_eq!(fsub(i64::MIN, 1), i64::MIN);
    assert_eq!(fsub(i64::MAX, -1), i64::MAX);
}

#[test]
fn mul_exact() {
    // 1.5 * 0.5 == 0.75
    assert_eq!(fmul(ONE + HALF, HALF), 3 * (ONE / 4));
    assert_eq!(fmul(ONE, 12345), 12345);
    assert_eq!(fmul(0, i64::MAX), 0);
    assert_eq!(fmul(i64::MIN, 0), 0);
}

#[test]
fn mul_rounds_toward_zero() {
    // the smallest positive and negative scalars squared underflow to zero
    assert_eq!(fmul(1, 1), 0);
    assert_eq!(fmul(-1, 1), 0);
    assert_eq!(fmul(1, -1), 0);
}

#[test]
fn mul_saturates() {
    assert_eq!(fmul(i64::MAX, i64::MAX), i64::MAX);
    assert_eq!(fmul(i64::MAX, i64::MIN), i64::MIN);
}

#[test]
fn div_exact() {
    assert_eq!(fdiv(ONE, 2 * ONE), HALF);
    assert_eq!(fdiv(3 * ONE, ONE), 3 * ONE);
    assert_eq!(fdiv(-ONE, 2 * ONE), -HALF);
}

#[test]
fn div_by_zero_is_zero() {
    assert_eq!(fdiv(ONE, 0), 0);
    assert_eq!(fdiv(0, 0), 0);
    assert_eq!(fdiv(i64::MIN, 0), 0);
}

#[test]
fn from_int_embeds() {
    assert_eq!(from_int(0), 0);
    assert_eq!(from_int(5), 5 * ONE);
    assert_eq!(from_int(-3), -3 * ONE);
}

#[test]
fn floor_splits_positive() {
    let (q, f) = floor_fix(5 * ONE + 7);
    assert_eq!(q, 5);
    assert_eq!(f, 7);
}

#[test]
fn floor_rounds_toward_negative_infinity() {
    let (q, f) = floor_fix(-1);
    assert_eq!(q, -1);
    assert_eq!(f, ONE - 1);
    let (q, f) = floor_fix(-ONE);
    assert_eq!(q, -1);
    assert_eq!(f, 0);
    let (q, f) = floor_fix(-ONE - 1);
    assert_eq!(q, -2);
    assert_eq!(f, ONE - 1);
}

#[test]
fn seconds_conversion() {
    assert_eq!(seconds_to_fix(0, 0), 0);
    assert_eq!(seconds_to_fix(1, 500_000_000), ONE + HALF);
    assert_eq!(seconds_to_fix(u64::MAX, 0), i64::MAX);
}
