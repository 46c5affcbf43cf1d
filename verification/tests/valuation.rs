use zo_keeper::account::{Collateral, Market};
use zo_keeper::error::ErrorCode;
use zo_keeper::fixed_point::{Fixed, ONE_BITS};
use zo_keeper::sizing::{floor_div, perp_lots, size_from_quotient, spot_amount};
use zo_keeper::valuation::{
    decimal_scale, value_collateral, value_one_collateral, value_positions,
};

fn fx(n: i64) -> Fixed {
    Fixed::from_int(n)
}

#[test]
fn from_int_scales_by_two_to_the_48() {
    assert_eq!(ONE_BITS, 1i128 << 48);
    assert_eq!(fx(1).bits, 1i128 << 48);
    assert_eq!(fx(-3).bits, -3 * (1i128 << 48));
    assert_eq!(Fixed::zero().bits, 0);
    assert_eq!(Fixed::from_int(i64::MIN).bits, (i64::MIN as i128) << 48);
}

#[test]
fn sign_tests() {
    assert!(fx(0).is_zero());
    assert!(!fx(1).is_zero());
    assert!(fx(2).is_positive());
    assert!(!fx(0).is_positive());
    assert!(fx(-2).is_negative());
    assert!(!fx(0).is_negative());
}

#[test]
fn abs_bits_has_no_exception() {
    assert_eq!(fx(-2).abs_bits(), 2u128 << 48);
    assert_eq!(fx(2).abs_bits(), 2u128 << 48);
    assert_eq!(Fixed { bits: i128::MIN }.abs_bits(), 1u128 << 127);
    assert_eq!(Fixed { bits: i128::MAX }.abs_bits(), (1u128 << 127) - 1);
}

#[test]
fn checked_mul_multiplies() {
    assert_eq!(fx(2).checked_mul(fx(3)), Some(fx(6)));
    assert_eq!(fx(-4).checked_mul(fx(5)), Some(fx(-20)));
    let half = Fixed { bits: ONE_BITS / 2 };
    assert_eq!(fx(3).checked_mul(half), Some(Fixed { bits: 3 * ONE_BITS / 2 }));
}

#[test]
fn checked_mul_rounds_towards_minus_infinity() {
    let least = Fixed { bits: 1 };
    assert_eq!(Fixed { bits: -1 }.checked_mul(least), Some(Fixed { bits: -1 }));
    assert_eq!(least.checked_mul(least), Some(Fixed { bits: 0 }));
    let half = Fixed { bits: ONE_BITS / 2 };
    assert_eq!(Fixed { bits: -3 }.checked_mul(half), Some(Fixed { bits: -2 }));
    assert_eq!(Fixed { bits: 3 }.checked_mul(half), Some(Fixed { bits: 1 }));
}

#[test]
fn checked_div_rounds_towards_zero() {
    assert_eq!(Fixed { bits: -1 }.checked_div(fx(3)), Some(Fixed { bits: 0 }));
    assert_eq!(Fixed { bits: 1 }.checked_div(fx(-3)), Some(Fixed { bits: 0 }));
    assert_eq!(Fixed { bits: -7 }.checked_div(fx(2)), Some(Fixed { bits: -3 }));
    assert_eq!(Fixed { bits: 7 }.checked_div(fx(2)), Some(Fixed { bits: 3 }));
    assert_eq!(Fixed { bits: -7 }.checked_div(fx(-2)), Some(Fixed { bits: 3 }));
    assert_eq!(fx(1).checked_div(fx(3)), Some(Fixed { bits: ONE_BITS / 3 }));
    assert_eq!(fx(-1).checked_div(fx(3)), Some(Fixed { bits: -(ONE_BITS / 3) }));
}

#[test]
fn checked_mul_and_div_at_the_edges() {
    let most = Fixed { bits: i128::MAX };
    let least = Fixed { bits: i128::MIN };
    assert_eq!(most.checked_mul(fx(1)), Some(most));
    assert_eq!(least.checked_mul(fx(1)), Some(least));
    assert_eq!(least.checked_mul(fx(-1)), None);
    assert_eq!(most.checked_div(fx(1)), Some(most));
    assert_eq!(least.checked_div(fx(1)), Some(least));
    assert_eq!(least.checked_div(fx(-1)), None);
    assert_eq!(most.checked_div(fx(-1)), Some(Fixed { bits: -i128::MAX }));
}

#[test]
fn checked_mul_overflow_is_none() {
    assert_eq!(Fixed { bits: i128::MAX }.checked_mul(fx(2)), None);
}

#[test]
fn checked_div_divides() {
    assert_eq!(fx(6).checked_div(fx(3)), Some(fx(2)));
    assert_eq!(fx(3).checked_div(fx(2)), Some(Fixed { bits: 3 * ONE_BITS / 2 }));
    assert_eq!(fx(-9).checked_div(fx(3)), Some(fx(-3)));
}

#[test]
fn checked_div_by_zero_or_overflow_is_none() {
    assert_eq!(fx(6).checked_div(fx(0)), None);
    assert_eq!(Fixed { bits: i128::MAX }.checked_div(Fixed { bits: 1 }), None);
}

#[test]
fn checked_floor_rounds_down() {
    assert_eq!(fx(7).checked_floor(), Some(7));
    assert_eq!(Fixed { bits: 5 * ONE_BITS / 2 }.checked_floor(), Some(2));
    assert_eq!(Fixed { bits: -5 * ONE_BITS / 2 }.checked_floor(), Some(-3));
    assert_eq!(Fixed { bits: -1 }.checked_floor(), Some(-1));
    assert_eq!(Fixed { bits: 1 }.checked_floor(), Some(0));
}

#[test]
fn checked_floor_out_of_range_is_none() {
    assert_eq!(Fixed { bits: i128::MAX }.checked_floor(), None);
    assert_eq!(Fixed { bits: i128::MIN }.checked_floor(), None);
    assert_eq!(Fixed::from_int(i64::MAX).checked_floor(), Some(i64::MAX));
    assert_eq!(Fixed::from_int(i64::MIN).checked_floor(), Some(i64::MIN));
}

#[test]
fn decimal_scale_is_a_power_of_ten() {
    assert_eq!(decimal_scale(0), Some(1));
    assert_eq!(decimal_scale(6), Some(1_000_000));
    assert_eq!(decimal_scale(18), Some(1_000_000_000_000_000_000));
    assert_eq!(decimal_scale(19), None);
    assert_eq!(decimal_scale(255), None);
}

#[test]
fn collateral_value_is_balance_times_price_over_scale() {
    let c = Collateral {
        balance: fx(1_500_000),
        price: Some(fx(2)),
        decimals: 6,
        has_spot_market: false,
    };
    assert_eq!(value_one_collateral(&c), Some(fx(3)));
    let d = Collateral { balance: fx(-50), price: Some(fx(3)), decimals: 0, has_spot_market: true };
    assert_eq!(value_one_collateral(&d), Some(fx(-150)));
    assert_eq!(value_collateral(&vec![c, d]), Ok(vec![fx(3), fx(-150)]));
}

#[test]
fn collateral_without_price_fails() {
    let c = Collateral { balance: fx(1), price: Some(fx(2)), decimals: 0, has_spot_market: false };
    let d = Collateral { balance: fx(0), price: None, decimals: 0, has_spot_market: false };
    assert_eq!(value_one_collateral(&d), None);
    assert_eq!(value_collateral(&vec![c, d]), Err(ErrorCode::CollateralFailure));
}

#[test]
fn collateral_with_too_many_decimals_or_overflow_fails() {
    let c = Collateral { balance: fx(1), price: Some(fx(2)), decimals: 19, has_spot_market: false };
    assert_eq!(value_collateral(&vec![c]), Err(ErrorCode::CollateralFailure));
    let d = Collateral {
        balance: Fixed { bits: i128::MAX },
        price: Some(fx(2)),
        decimals: 0,
        has_spot_market: false,
    };
    assert_eq!(value_collateral(&vec![d]), Err(ErrorCode::CollateralFailure));
}

#[test]
fn no_collateral_values_to_nothing() {
    assert_eq!(value_collateral(&vec![]), Ok(vec![]));
    assert_eq!(value_positions(&vec![]), Ok(vec![]));
}

#[test]
fn position_value_is_size_times_mark() {
    let markets = vec![
        Market { position_size: 3, mark_price: fx(10), order_size: 0 },
        Market { position_size: -30, mark_price: fx(2), order_size: 5 },
        Market { position_size: 0, mark_price: fx(7), order_size: 0 },
    ];
    assert_eq!(value_positions(&markets), Ok(vec![fx(30), fx(-60), fx(0)]));
}

#[test]
fn position_too_large_to_value_fails() {
    let markets =
        vec![Market { position_size: i64::MAX, mark_price: Fixed { bits: i128::MAX }, order_size: 0 }];
    assert_eq!(value_positions(&markets), Err(ErrorCode::CollateralFailure));
}

#[test]
fn floor_div_rounds_towards_minus_infinity() {
    assert_eq!(floor_div(7, 2), 3);
    assert_eq!(floor_div(-7, 2), -4);
    assert_eq!(floor_div(-8, 2), -4);
    assert_eq!(floor_div(-1, 10), -1);
    assert_eq!(floor_div(0, 10), 0);
    assert_eq!(floor_div(i64::MIN, 1), i64::MIN);
    assert_eq!(floor_div(i64::MAX, 1), i64::MAX);
    assert_eq!(floor_div(i64::MIN, u64::MAX), -1);
}

#[test]
fn perp_lots_formula() {
    assert_eq!(perp_lots(fx(1000), fx(3), 10), Some(330));
    assert_eq!(perp_lots(fx(1000), fx(4), 1), Some(2500));
    assert_eq!(perp_lots(fx(5), fx(10), 1), Some(0));
    assert_eq!(perp_lots(fx(-1000), fx(3), 10), Some(-340));
}

#[test]
fn perp_lots_undefined() {
    assert_eq!(perp_lots(Fixed { bits: i128::MAX }, fx(1), 1), None);
    assert_eq!(perp_lots(Fixed::from_int(i64::MAX), fx(1), 1), None);
}

#[test]
fn spot_amount_formula() {
    assert_eq!(spot_amount(fx(5_000_000), fx(2), 3), Some(25_000));
    assert_eq!(spot_amount(fx(5_000_000), fx(2), 0), Some(25_000_000));
    assert_eq!(spot_amount(fx(999), fx(1), 3), Some(0));
}

#[test]
fn spot_amount_undefined() {
    assert_eq!(spot_amount(fx(5_000_000), fx(2), 19), None);
    assert_eq!(spot_amount(Fixed { bits: i128::MAX }, Fixed { bits: 1 }, 0), None);
}

#[test]
fn size_from_quotient_cases() {
    assert_eq!(size_from_quotient(None, 5), None);
    assert_eq!(size_from_quotient(Some(fx(57)), 5), Some(110));
    assert_eq!(size_from_quotient(Some(Fixed { bits: 115 * ONE_BITS / 2 }), 5), Some(110));
    assert_eq!(size_from_quotient(Some(fx(57)), 0), None);
    assert_eq!(size_from_quotient(Some(fx(922_337_203_685_477_580)), 1), Some(9_223_372_036_854_775_800));
    assert_eq!(size_from_quotient(Some(fx(922_337_203_685_477_581)), 1), None);
    assert_eq!(size_from_quotient(Some(fx(-922_337_203_685_477_580)), 1), Some(-9_223_372_036_854_775_800));
    assert_eq!(size_from_quotient(Some(fx(-922_337_203_685_477_581)), 1), None);
}
