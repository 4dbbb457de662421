use srg::fixed::{Fixed, SCALE};

fn raw(x: i64) -> Fixed {
    Fixed::from_raw(x)
}

#[test]
fn scale_is_a_million() {
    assert_eq!(SCALE, 1_000_000);
    assert_eq!(Fixed::from_int(1).raw, 1_000_000);
    assert_eq!(Fixed::from_int(-3).raw, -3_000_000);
    assert_eq!(Fixed::zero().raw, 0);
}

#[test]
fn add_and_sub_are_exact_in_range() {
    assert_eq!(raw(1_500_000).add(raw(250_000)), raw(1_750_000));
    assert_eq!(raw(1_500_000).sub(raw(2_000_000)), raw(-500_000));
}

#[test]
fn add_and_sub_saturate() {
    assert_eq!(raw(i64::MAX).add(raw(1)), raw(i64::MAX));
    assert_eq!(raw(i64::MIN).add(raw(-1)), raw(i64::MIN));
    assert_eq!(raw(i64::MIN).sub(raw(1)), raw(i64::MIN));
    assert_eq!(raw(0).sub(raw(i64::MIN)), raw(i64::MAX));
    assert_eq!(raw(i64::MIN).neg(), raw(i64::MAX));
    assert_eq!(raw(5).neg(), raw(-5));
}

#[test]
fn mul_scales_the_product() {
    assert_eq!(Fixed::from_int(3).mul(Fixed::from_int(4)), Fixed::from_int(12));
    assert_eq!(raw(500_000).mul(raw(500_000)), raw(250_000));
    assert_eq!(Fixed::from_int(-3).mul(raw(500_000)), raw(-1_500_000));
}

#[test]
fn mul_rounds_toward_negative_infinity() {
    assert_eq!(raw(1).mul(raw(999_999)), raw(0));
    assert_eq!(raw(-1).mul(raw(500_000)), raw(-1));
    assert_eq!(raw(-1).mul(raw(1)), raw(-1));
    assert_eq!(raw(3).mul(raw(500_000)), raw(1));
}

#[test]
fn mul_saturates() {
    assert_eq!(raw(i64::MAX).mul(Fixed::from_int(2)), raw(i64::MAX));
    assert_eq!(raw(i64::MAX).mul(Fixed::from_int(-2)), raw(i64::MIN));
    assert_eq!(raw(i64::MIN).mul(raw(i64::MIN)), raw(i64::MAX));
}

#[test]
fn div_scales_the_quotient() {
    assert_eq!(Fixed::from_int(60).div(Fixed::from_int(120)), raw(500_000));
    assert_eq!(Fixed::from_int(60).div(Fixed::from_int(140)), raw(428_571));
    assert_eq!(Fixed::from_int(140).div(Fixed::from_int(60)), raw(2_333_333));
}

#[test]
fn div_rounds_toward_negative_infinity() {
    assert_eq!(Fixed::from_int(-1).div(Fixed::from_int(3)), raw(-333_334));
    assert_eq!(Fixed::from_int(1).div(Fixed::from_int(-3)), raw(-333_334));
    assert_eq!(Fixed::from_int(-1).div(Fixed::from_int(-3)), raw(333_333));
}

#[test]
fn div_by_zero_goes_to_the_end_of_the_range() {
    assert_eq!(Fixed::from_int(60).div(Fixed::zero()), raw(i64::MAX));
    assert_eq!(Fixed::from_int(-60).div(Fixed::zero()), raw(i64::MIN));
    assert_eq!(Fixed::zero().div(Fixed::zero()), raw(0));
}

#[test]
fn div_saturates() {
    assert_eq!(raw(i64::MAX).div(raw(1)), raw(i64::MAX));
    assert_eq!(raw(i64::MIN).div(raw(1)), raw(i64::MIN));
    assert_eq!(raw(i64::MIN).div(raw(-1)), raw(i64::MAX));
}

#[test]
fn max_and_order() {
    assert_eq!(raw(3).max(raw(7)), raw(7));
    assert_eq!(raw(-3).max(raw(-7)), raw(-3));
    assert!(raw(3).lt(raw(7)));
    assert!(!raw(7).lt(raw(7)));
    assert!(raw(7).le(raw(7)));
    assert!(!raw(8).le(raw(7)));
}
