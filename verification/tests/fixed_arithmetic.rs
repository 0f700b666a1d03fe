use hw_raytracer::fixed::{integer_sqrt, Fixed, SCALE};

#[test]
fn whole_numbers_have_no_fraction() {
    assert_eq!(Fixed::from_int(3).raw, 3 * SCALE);
    assert_eq!(Fixed::from_int(-7).raw, -7 * SCALE);
    assert_eq!(Fixed::zero().raw, 0);
    assert_eq!(Fixed::one().raw, SCALE);
    assert_eq!(Fixed::from_raw(42).raw, 42);
}

#[test]
fn product_of_whole_numbers_is_exact() {
    let six = Fixed::from_int(2).saturating_mul(Fixed::from_int(3));
    assert_eq!(six.raw, 6 * SCALE);
    let minus_six = Fixed::from_int(-2).saturating_mul(Fixed::from_int(3));
    assert_eq!(minus_six.raw, -6 * SCALE);
}

#[test]
fn product_rounds_toward_zero() {
    let tiny = Fixed::from_raw(3);
    let half = Fixed::from_raw(SCALE / 2);
    assert_eq!(tiny.saturating_mul(half).raw, 1);
    assert_eq!(Fixed::from_raw(-3).saturating_mul(half).raw, -1);
    assert_eq!(Fixed::from_raw(1).saturating_mul(half).raw, 0);
    assert_eq!(Fixed::from_raw(-1).saturating_mul(half).raw, 0);
    assert_eq!(Fixed::from_raw(5).saturating_mul(half).raw, 2);
    assert_eq!(Fixed::from_raw(-5).saturating_mul(half).raw, -2);
}

#[test]
fn quotient_rounds_toward_zero() {
    let third = Fixed::from_int(1).saturating_div(Fixed::from_int(3));
    assert_eq!(third.raw, 0x5555_5555);
    let minus_third = Fixed::from_int(-1).saturating_div(Fixed::from_int(3));
    assert_eq!(minus_third.raw, -0x5555_5555);
    let also_minus_third = Fixed::from_int(1).saturating_div(Fixed::from_int(-3));
    assert_eq!(also_minus_third.raw, -0x5555_5555);
    assert_eq!(Fixed::from_ratio(1, 4).raw, SCALE / 4);
}

#[test]
fn division_by_zero_saturates() {
    assert_eq!(Fixed::from_int(1).saturating_div(Fixed::zero()).raw, i64::MAX);
    assert_eq!(Fixed::from_int(-1).saturating_div(Fixed::zero()).raw, i64::MIN);
    assert_eq!(Fixed::zero().saturating_div(Fixed::zero()).raw, 0);
}

#[test]
fn sums_and_products_saturate() {
    let big = Fixed::max_value();
    assert_eq!(big.saturating_add(Fixed::one()).raw, i64::MAX);
    assert_eq!(Fixed::min_value().saturating_sub(Fixed::one()).raw, i64::MIN);
    assert_eq!(big.saturating_mul(Fixed::from_int(2)).raw, i64::MAX);
    assert_eq!(big.saturating_mul(Fixed::from_int(-2)).raw, i64::MIN);
    assert_eq!(Fixed::min_value().saturating_neg().raw, i64::MAX);
    assert_eq!(Fixed::min_value().saturating_abs().raw, i64::MAX);
    assert_eq!(Fixed::from_int(-5).saturating_abs().raw, 5 * SCALE);
    assert_eq!(Fixed::from_int(5).saturating_neg().raw, -5 * SCALE);
}

#[test]
fn square_root_of_four_is_two() {
    assert_eq!(Fixed::from_int(4).sqrt().raw, 2 * SCALE);
    assert_eq!(Fixed::from_int(-4).sqrt().raw, 0);
    assert_eq!(Fixed::zero().sqrt().raw, 0);
    assert_eq!(Fixed::from_ratio(1, 4).sqrt().raw, SCALE / 2);
}

#[test]
fn square_root_of_two_is_rounded_down() {
    let root = Fixed::from_int(2).sqrt().raw as i128;
    let two = 2i128 << 64;
    assert!(root * root <= two);
    assert!((root + 1) * (root + 1) > two);
}

#[test]
fn integer_square_root_is_the_floor() {
    assert_eq!(integer_sqrt(0), 0);
    assert_eq!(integer_sqrt(1), 1);
    assert_eq!(integer_sqrt(15), 3);
    assert_eq!(integer_sqrt(16), 4);
    assert_eq!(integer_sqrt(17), 4);
    assert_eq!(integer_sqrt(u128::MAX), u64::MAX);
}

#[test]
fn smaller_and_larger() {
    let a = Fixed::from_int(2);
    let b = Fixed::from_int(-3);
    assert_eq!(a.min(b), b);
    assert_eq!(a.max(b), a);
    assert_eq!(Fixed::from_int(7).half().raw, 7 * SCALE / 2);
    assert_eq!(Fixed::from_raw(-7).half().raw, -3);
}
