use pallet_dex::calc::{fee_multiplier, get_amount_in, get_amount_out};
use pallet_dex::error::{ArithmeticError, Error};
use pallet_dex::fee::Fee;
use pallet_dex::math::{checked_mul_div, integer_sqrt, mul_div, saturating_mul};
use sp_arithmetic::helpers_128bit::multiply_by_rational_with_rounding;
use sp_arithmetic::Rounding;

#[test]
fn swap_without_fee_follows_the_constant_product() {
    assert_eq!(get_amount_out(10, 100, 100, Fee::from_percent(0)), Ok(9));
}

#[test]
fn swap_with_three_percent_fee() {
    let fee = Fee::from_percent(3);
    assert_eq!(get_amount_out(100, 100_000, 100_000, fee), Ok(96));
    assert_eq!(get_amount_in(100, 100_000, 100_000, fee), Ok(104));
    // What is asked for 100 does buy 100.
    assert_eq!(get_amount_out(104, 100_000, 100_000, fee), Ok(100));
}

#[test]
fn pricing_refuses_zero_amounts_and_empty_reserves() {
    let fee = Fee::from_percent(3);
    assert_eq!(get_amount_out(0, 100, 100, fee), Err(Error::InsufficientInputAmount));
    assert_eq!(get_amount_out(0, 0, 0, fee), Err(Error::InsufficientInputAmount));
    assert_eq!(get_amount_out(1, 0, 100, fee), Err(Error::InsufficientLiquidity));
    assert_eq!(get_amount_out(1, 100, 0, fee), Err(Error::InsufficientLiquidity));
    assert_eq!(get_amount_in(0, 100, 100, fee), Err(Error::InsufficientOutputAmount));
    assert_eq!(get_amount_in(0, 0, 0, fee), Err(Error::InsufficientOutputAmount));
    assert_eq!(get_amount_in(1, 100, 0, fee), Err(Error::InsufficientLiquidity));
    assert_eq!(get_amount_in(1, 0, 100, fee), Err(Error::InsufficientLiquidity));
}

#[test]
fn amount_in_is_zero_where_the_reserve_cannot_pay() {
    let fee = Fee::from_percent(0);
    // All of the reserve, and more than the reserve.
    assert_eq!(get_amount_in(100, 100, 100, fee), Ok(0));
    assert_eq!(get_amount_in(101, 100, 100, fee), Ok(0));
    // A fee of the whole leaves nothing to price.
    assert_eq!(get_amount_in(50, 100, 100, Fee::from_percent(100)), Ok(0));
    assert_eq!(get_amount_out(50, 100, 100, Fee::from_percent(100)), Ok(0));
}

#[test]
fn amount_in_is_biased_up_by_one() {
    let fee = Fee::from_percent(0);
    // floor(100 * 10 * 1000 / (1000 * 90)) + 1
    assert_eq!(get_amount_in(10, 100, 100, fee), Ok(12));
    assert_eq!(get_amount_out(12, 100, 100, fee), Ok(10));
    // An exact quotient is biased as well.
    assert_eq!(get_amount_in(50, 100, 100, fee), Ok(101));
}

#[test]
fn pricing_clamps_at_the_largest_balance() {
    let fee = Fee::from_percent(0);
    assert_eq!(get_amount_out(u128::MAX, 1, 1, fee), Ok(1));
    assert_eq!(get_amount_out(1 << 60, 1 << 127, 1 << 60, fee), Ok(1));
}

#[test]
fn constant_product_does_not_fall() {
    let fee = Fee::from_parts(3_000);
    let (reserve_in, reserve_out) = (2_000u128, 1_000u128);
    let amount_out = get_amount_out(100, reserve_in, reserve_out, fee).unwrap();
    assert_eq!(amount_out, 47);
    assert!((reserve_in + 100) * (reserve_out - amount_out) > reserve_in * reserve_out);
}

#[test]
fn round_trip_stays_within_one_unit() {
    let fee = Fee::from_percent(0);
    for amount_in in 1..200u128 {
        let amount_out = get_amount_out(amount_in, 1_000, 3_000, fee).unwrap();
        if amount_out > 0 {
            let back = get_amount_in(amount_out, 1_000, 3_000, fee).unwrap();
            assert!(back <= amount_in + 1);
            assert!(get_amount_out(back, 1_000, 3_000, fee).unwrap() >= amount_out);
        }
    }
}

#[test]
fn fee_multiplier_counts_full_thousandths() {
    assert_eq!(fee_multiplier(Fee::from_percent(3)), 970);
    assert_eq!(fee_multiplier(Fee::from_parts(0)), 1000);
    assert_eq!(fee_multiplier(Fee::from_parts(999)), 1000);
    assert_eq!(fee_multiplier(Fee::from_parts(1_000)), 999);
    assert_eq!(fee_multiplier(Fee::from_percent(100)), 0);
}

#[test]
fn fee_is_clamped_to_the_whole() {
    assert_eq!(Fee::from_parts(1_000_001).deconstruct(), 1_000_000);
    assert_eq!(Fee::from_parts(u32::MAX).deconstruct(), 1_000_000);
    assert_eq!(Fee::from_percent(101).deconstruct(), 1_000_000);
    assert_eq!(Fee::from_percent(3).deconstruct(), 30_000);
    assert_eq!(Fee::from_percent(3), Fee::from_parts(30_000));
}

#[test]
fn fee_of_a_value_is_rounded_down() {
    assert_eq!(Fee::from_percent(3).mul_floor(1000), 30);
    assert_eq!(Fee::from_percent(3).mul_floor(100), 3);
    assert_eq!(Fee::from_percent(3).mul_floor(33), 0);
    assert_eq!(Fee::from_parts(1).mul_floor(999_999), 0);
    assert_eq!(Fee::from_parts(1).mul_floor(1_000_000), 1);
    assert_eq!(Fee::from_percent(100).mul_floor(u128::MAX), u128::MAX);
    assert_eq!(Fee::from_percent(50).mul_floor(u128::MAX), u128::MAX / 2);
}

#[test]
fn square_root_is_rounded_down() {
    assert_eq!(integer_sqrt(0), 0);
    assert_eq!(integer_sqrt(1), 1);
    assert_eq!(integer_sqrt(99), 9);
    assert_eq!(integer_sqrt(100), 10);
    assert_eq!(integer_sqrt(100 * 100), 100);
    assert_eq!(integer_sqrt(1_000_000_000_000_000_000_000_000_000_000), 1_000_000_000_000_000);
    assert_eq!(integer_sqrt(u128::MAX), u64::MAX as u128);
}

#[test]
fn saturating_mul_clamps() {
    assert_eq!(saturating_mul(7, 6), 42);
    assert_eq!(saturating_mul(u128::MAX, 0), 0);
    assert_eq!(saturating_mul(u128::MAX, 2), u128::MAX);
    assert_eq!(saturating_mul(1 << 64, 1 << 64), u128::MAX);
}

#[test]
fn mul_div_fails_rather_than_wraps() {
    assert_eq!(checked_mul_div(10, 3, 4), Some(7));
    assert_eq!(checked_mul_div(10, 3, 0), None);
    assert_eq!(checked_mul_div(0, 0, 0), None);
    assert_eq!(checked_mul_div(1 << 64, 1 << 64, 1 << 64), None);
    assert_eq!(checked_mul_div(u128::MAX, 1, 1), Some(u128::MAX));
}

#[test]
fn mul_div_takes_products_of_any_size() {
    assert_eq!(mul_div(10, 3, 4), Ok(7));
    assert_eq!(mul_div(0, 0, 1), Ok(0));
    assert_eq!(mul_div(10, 3, 0), Err(ArithmeticError::DivisionByZero));
    assert_eq!(mul_div(0, 0, 0), Err(ArithmeticError::DivisionByZero));
    assert_eq!(mul_div(1 << 64, 1 << 64, 1 << 64), Ok(1 << 64));
    assert_eq!(mul_div(u128::MAX, u128::MAX, u128::MAX), Ok(u128::MAX));
    assert_eq!(mul_div(u128::MAX, u128::MAX - 1, u128::MAX), Ok(u128::MAX - 1));
    assert_eq!(mul_div(u128::MAX, 3, 7), Ok(u128::MAX / 7 * 3 + (u128::MAX % 7) * 3 / 7));
    assert_eq!(mul_div(u128::MAX, 2, 1), Err(ArithmeticError::Overflow));
    assert_eq!(mul_div(u128::MAX, u128::MAX, u128::MAX - 1), Err(ArithmeticError::Overflow));
    assert_eq!(mul_div(1 << 127, 4, 2), Err(ArithmeticError::Overflow));
    assert_eq!(mul_div(1 << 127, 4, 4), Ok(1 << 127));
}

#[test]
fn mul_div_agrees_with_the_wide_product() {
    let samples: [u128; 12] = [
        0,
        1,
        2,
        3,
        97,
        1_000_000_007,
        (1 << 64) - 1,
        1 << 64,
        (1 << 64) + 12_345,
        0x1234_5678_9abc_def0_0fed_cba9_8765_4321,
        u128::MAX - 1,
        u128::MAX,
    ];
    for value in samples {
        for numerator in samples {
            for denominator in samples {
                assert_eq!(
                    mul_div(value, numerator, denominator).ok(),
                    multiply_by_rational_with_rounding(value, numerator, denominator, Rounding::Down)
                );
            }
        }
    }
}
