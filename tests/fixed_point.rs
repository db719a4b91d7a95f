use meta_pool::fixed_point::{checked_fraction_of, div_wide, fraction_of, mul_wide, wide_add, wide_lt};

#[test]
fn fraction_of_exact_values() {
    assert_eq!(fraction_of(1000, 50, 100), 500);
    assert_eq!(fraction_of(10, 1, 3), 3);
    assert_eq!(fraction_of(0, 5, 7), 0);
    assert_eq!(fraction_of(7, 0, 7), 0);
}

#[test]
fn fraction_of_with_product_beyond_128_bits() {
    assert_eq!(fraction_of(u128::MAX, u128::MAX, u128::MAX), u128::MAX);
    assert_eq!(fraction_of(u128::MAX, 3, 4), u128::MAX / 4 * 3 + 2);
    assert_eq!(fraction_of(1 << 100, 1 << 100, 1 << 90), 1 << 110);
}

#[test]
fn checked_fraction_of_reports_overflow() {
    assert_eq!(checked_fraction_of(u128::MAX, 2, 1), None);
    assert_eq!(checked_fraction_of(u128::MAX, 2, 2), Some(u128::MAX));
    assert_eq!(checked_fraction_of(6, 4, 3), Some(8));
}

#[test]
fn wide_product_and_quotient() {
    assert_eq!(mul_wide(u128::MAX, u128::MAX), (u128::MAX - 1, 1));
    assert_eq!(mul_wide(1 << 64, 1 << 64), (1, 0));
    assert_eq!(div_wide(1, 0, 2), 1 << 127);
    assert_eq!(div_wide(0, 17, 5), 3);
}

#[test]
fn wide_sum_and_order() {
    assert_eq!(wide_add((0, u128::MAX), (0, 1)), (1, 0));
    assert_eq!(wide_add((2, 3), (4, 5)), (6, 8));
    assert!(wide_lt((0, u128::MAX), (1, 0)));
    assert!(!wide_lt((1, 0), (1, 0)));
    assert!(wide_lt((1, 0), (1, 1)));
}
