use ray_tracing::scalar::{Scalar, SCALE};

#[test]
fn scale_is_a_million() {
    assert_eq!(SCALE, 1_000_000);
    assert_eq!(Scalar::from_int(3).raw, 3_000_000);
    assert_eq!(Scalar::from_int(-7).raw, -7_000_000);
    assert_eq!(Scalar::from_u32(4_000_000_000).raw, 4_000_000_000_000_000);
}

#[test]
fn sums_and_differences_are_exact_in_range() {
    let a = Scalar::new(1_250_000);
    let b = Scalar::new(-750_000);
    assert_eq!(a.plus(b).raw, 500_000);
    assert_eq!(a.minus(b).raw, 2_000_000);
    assert_eq!(a.negated().raw, -1_250_000);
}

#[test]
fn sums_and_differences_saturate() {
    let top = Scalar::new(i64::MAX);
    let bottom = Scalar::new(i64::MIN);
    let one = Scalar::from_int(1);
    assert_eq!(top.plus(one).raw, i64::MAX);
    assert_eq!(bottom.minus(one).raw, i64::MIN);
    assert_eq!(bottom.negated().raw, i64::MAX);
    assert_eq!(top.negated().raw, -i64::MAX);
}

#[test]
fn product_rounds_down_to_a_millionth() {
    let a = Scalar::new(1_500_000);
    let b = Scalar::new(333_333);
    assert_eq!(a.times(b).raw, 499_999);
    assert_eq!(a.negated().times(b).raw, -500_000);
    assert_eq!(Scalar::new(1).times(Scalar::new(1)).raw, 0);
    assert_eq!(Scalar::new(-1).times(Scalar::new(1)).raw, -1);
}

#[test]
fn product_saturates() {
    let big = Scalar::new(4_000_000_000_000_000);
    assert_eq!(big.times(big).raw, i64::MAX);
    assert_eq!(big.times(big.negated()).raw, i64::MIN);
}

#[test]
fn quotient_rounds_down_to_a_millionth() {
    let one = Scalar::from_int(1);
    let three = Scalar::from_int(3);
    assert_eq!(one.over(three).raw, 333_333);
    assert_eq!(one.negated().over(three).raw, -333_334);
    assert_eq!(one.over(three.negated()).raw, -333_334);
    assert_eq!(one.negated().over(three.negated()).raw, 333_333);
    assert_eq!(Scalar::from_int(10).over(Scalar::from_int(4)).raw, 2_500_000);
}

#[test]
fn division_by_zero_saturates() {
    let zero = Scalar::new(0);
    assert_eq!(Scalar::from_int(1).over(zero).raw, i64::MAX);
    assert_eq!(Scalar::from_int(-1).over(zero).raw, i64::MIN);
    assert_eq!(zero.over(zero).raw, 0);
}

#[test]
fn quotient_saturates() {
    let big = Scalar::new(i64::MAX);
    let tiny = Scalar::new(1);
    assert_eq!(big.over(tiny).raw, i64::MAX);
    assert_eq!(big.over(tiny.negated()).raw, i64::MIN);
}

#[test]
fn square_root_of_two() {
    assert_eq!(Scalar::from_int(2).root().raw, 1_414_213);
}

#[test]
fn square_roots_of_squares_are_exact() {
    assert_eq!(Scalar::from_int(4).root().raw, 2_000_000);
    assert_eq!(Scalar::new(250_000).root().raw, 500_000);
    assert_eq!(Scalar::from_int(1_000_000).root().raw, 1_000_000_000);
    assert_eq!(Scalar::new(0).root().raw, 0);
}

#[test]
fn square_root_of_a_negative_number_is_zero() {
    assert_eq!(Scalar::from_int(-4).root().raw, 0);
    assert_eq!(Scalar::new(-1).root().raw, 0);
}

#[test]
fn square_root_of_the_largest_number() {
    let r = Scalar::new(i64::MAX).root().raw as i128;
    let n = i64::MAX as i128 * 1_000_000;
    assert!(r * r <= n);
    assert!(n < (r + 1) * (r + 1));
}

#[test]
fn square_root_of_the_smallest_step() {
    assert_eq!(Scalar::new(1).root().raw, 1_000);
}

#[test]
fn least_and_greatest() {
    let a = Scalar::new(5);
    let b = Scalar::new(-5);
    assert_eq!(a.least(b), b);
    assert_eq!(b.least(a), b);
    assert_eq!(a.greatest(b), a);
    assert_eq!(b.greatest(a), a);
    assert_eq!(a.least(a), a);
}

#[test]
fn whole_part_rounds_down() {
    assert_eq!(Scalar::new(2_999_999).whole(), 2);
    assert_eq!(Scalar::new(-1).whole(), -1);
    assert_eq!(Scalar::new(-1_000_000).whole(), -1);
    assert_eq!(Scalar::new(-1_000_001).whole(), -2);
    assert_eq!(Scalar::new(0).whole(), 0);
}

#[test]
fn fractional_part_keeps_the_sign() {
    assert_eq!(Scalar::new(2_750_000).fract().raw, 750_000);
    assert_eq!(Scalar::new(-2_750_000).fract().raw, -750_000);
    assert_eq!(Scalar::from_int(3).fract().raw, 0);
    assert_eq!(Scalar::new(i64::MIN).fract().raw, -775_808);
}
