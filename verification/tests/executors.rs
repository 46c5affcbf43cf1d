use zo_keeper::account::{Collateral, Market};
use zo_keeper::bankruptcy::{settle_bankruptcy, settlement_result, LegOutcome, SettlementLeg};
use zo_keeper::duration::{parse_seconds, ParseSecondsError, Seconds};
use zo_keeper::error::ErrorCode;
use zo_keeper::fixed_point::Fixed;
use zo_keeper::plan::{
    cancel, cancel_orders, cancel_result, liquidate_perp_position, liquidate_spot_position,
    spot_rebalance_legs, Instruction, CANCEL_LIMIT,
};
use zo_keeper::retry::{classify, Halving, SendOutcome, Step, MAX_REDUCTIONS, SEND_ATTEMPTS};
use zo_keeper::scan::{refresh_due, REFRESH_AFTER_SECS, SCAN_PERIOD_MS};

fn collateral(balance: i64, has_spot_market: bool) -> Collateral {
    Collateral {
        balance: Fixed::from_int(balance),
        price: Some(Fixed::from_int(1)),
        decimals: 0,
        has_spot_market,
    }
}

fn market(order_size: i64) -> Market {
    Market { position_size: 0, mark_price: Fixed::from_int(1), order_size }
}

#[test]
fn constants() {
    assert_eq!(MAX_REDUCTIONS, 5);
    assert_eq!(SEND_ATTEMPTS, 5);
    assert_eq!(CANCEL_LIMIT, 32);
    assert_eq!(SCAN_PERIOD_MS, 250);
    assert_eq!(REFRESH_AFTER_SECS, 6000);
}

#[test]
fn halving_sequence_from_320() {
    let mut state = Halving::new(320);
    assert_eq!(state.size(), 320);
    assert_eq!(state.reductions(), 0);
    let mut seen = vec![state.size()];
    for k in 1..=5u32 {
        let (next, step) = state.step(SendOutcome::OverExposure);
        state = next;
        assert_eq!(step, Step::Resubmit { size: 320 >> k });
        assert_eq!(state.reductions(), k);
        seen.push(state.size());
    }
    assert_eq!(seen, vec![320, 160, 80, 40, 20, 10]);
    let (last, step) = state.step(SendOutcome::OverExposure);
    assert_eq!(step, Step::Failed { error: ErrorCode::LiquidationFailure });
    assert_eq!(last.size(), 10);
    assert_eq!(last.reductions(), 5);
}

#[test]
fn halving_rounds_down() {
    let state = Halving::new(7);
    let (state, step) = state.step(SendOutcome::OverExposure);
    assert_eq!(step, Step::Resubmit { size: 3 });
    let (state, step) = state.step(SendOutcome::OverExposure);
    assert_eq!(step, Step::Resubmit { size: 1 });
    let (state, step) = state.step(SendOutcome::OverExposure);
    assert_eq!(step, Step::Resubmit { size: 0 });
    assert_eq!(state.size(), 0);
    assert_eq!(state.reductions(), 3);
}

#[test]
fn halving_below_zero_rounds_towards_minus_infinity() {
    let (state, step) = Halving::new(-5).step(SendOutcome::OverExposure);
    assert_eq!(step, Step::Resubmit { size: -3 });
    assert_eq!(state.size(), -3);
    let (state, _) = Halving::new(i64::MIN).step(SendOutcome::OverExposure);
    assert_eq!(state.size(), i64::MIN / 2);
}

#[test]
fn confirmation_ends_with_success() {
    let (state, step) = Halving::new(320).step(SendOutcome::Confirmed);
    assert_eq!(step, Step::Succeeded);
    assert_eq!(state.size(), 320);
    assert_eq!(state.reductions(), 0);
    let (state, _) = Halving::new(320).step(SendOutcome::OverExposure);
    let (state, step) = state.step(SendOutcome::Confirmed);
    assert_eq!(step, Step::Succeeded);
    assert_eq!(state.size(), 160);
}

#[test]
fn other_rejection_is_terminal_at_once() {
    let (state, step) = Halving::new(320).step(SendOutcome::Rejected);
    assert_eq!(step, Step::Failed { error: ErrorCode::LiquidationFailure });
    assert_eq!(state.size(), 320);
    assert_eq!(state.reductions(), 0);
}

#[test]
fn classify_submission_results() {
    assert_eq!(classify(Ok(())), SendOutcome::Confirmed);
    assert_eq!(classify(Err(ErrorCode::LiquidationOverExposure)), SendOutcome::OverExposure);
    assert_eq!(classify(Err(ErrorCode::LiquidationFailure)), SendOutcome::Rejected);
    assert_eq!(classify(Err(ErrorCode::CancelFailure)), SendOutcome::Rejected);
    assert_eq!(classify(Err(ErrorCode::CollateralFailure)), SendOutcome::Rejected);
}

#[test]
fn perp_submission_with_and_without_rebalance() {
    assert_eq!(
        liquidate_perp_position(3, true, 330, true),
        vec![
            Instruction::ForceCancelAllPerpOrders { market: 3, limit: 32 },
            Instruction::LiquidatePerpPosition { market: 3, lots: 330 },
            Instruction::Rebalance { market: 3, liqee_was_long: true },
        ]
    );
    assert_eq!(
        liquidate_perp_position(1, false, 165, false),
        vec![
            Instruction::ForceCancelAllPerpOrders { market: 1, limit: 32 },
            Instruction::LiquidatePerpPosition { market: 1, lots: 165 },
        ]
    );
}

#[test]
fn spot_instruction() {
    assert_eq!(
        liquidate_spot_position(0, 1, 25_000),
        Instruction::LiquidateSpotPosition { asset: 0, quote: 1, amount: 25_000 }
    );
}

#[test]
fn spot_rebalance_skips_unregistered_legs() {
    let collaterals = vec![collateral(-50, false), collateral(200, true), collateral(5, true)];
    assert_eq!(spot_rebalance_legs(1, 0, &collaterals), vec![1]);
    assert_eq!(spot_rebalance_legs(1, 2, &collaterals), vec![1, 2]);
    assert_eq!(spot_rebalance_legs(0, 2, &collaterals), vec![2]);
    assert_eq!(spot_rebalance_legs(0, 0, &collaterals), Vec::<usize>::new());
    assert_eq!(spot_rebalance_legs(7, 1, &collaterals), vec![1]);
}

#[test]
fn cancel_targets_the_largest_resting_order() {
    assert_eq!(
        cancel(&vec![market(2), market(-8), market(8)]),
        Some(Instruction::ForceCancelAllPerpOrders { market: 1, limit: 32 })
    );
    assert_eq!(cancel_orders(4), Instruction::ForceCancelAllPerpOrders { market: 4, limit: 32 });
}

#[test]
fn cancel_without_orders_is_a_no_op() {
    assert_eq!(cancel(&vec![market(0), market(0)]), None);
    assert_eq!(cancel(&vec![]), None);
}

#[test]
fn cancel_result_reports_failure() {
    assert_eq!(cancel_result(true), Ok(()));
    assert_eq!(cancel_result(false), Err(ErrorCode::CancelFailure));
}

#[test]
fn settlement_visits_negative_balances_in_order() {
    let collaterals = vec![
        collateral(-1, false),
        collateral(4, true),
        collateral(-7, true),
        collateral(0, true),
        collateral(-2, false),
    ];
    assert_eq!(
        settle_bankruptcy(&collaterals),
        vec![
            SettlementLeg { asset: 0, rebalance: false },
            SettlementLeg { asset: 2, rebalance: true },
            SettlementLeg { asset: 4, rebalance: false },
        ]
    );
}

#[test]
fn settlement_without_negative_balance_does_nothing() {
    let collaterals = vec![collateral(5, true), collateral(8, false), collateral(2, true)];
    assert_eq!(settle_bankruptcy(&collaterals), vec![]);
    assert_eq!(settlement_result(&vec![]), Ok(()));
    assert_eq!(settle_bankruptcy(&vec![]), vec![]);
}

#[test]
fn settlement_fails_if_any_leg_failed() {
    let ok = LegOutcome { settled: true, swap_error: None };
    let failed = LegOutcome { settled: false, swap_error: None };
    assert_eq!(settlement_result(&vec![ok, ok]), Ok(()));
    assert_eq!(settlement_result(&vec![failed, ok, ok]), Err(ErrorCode::SettlementFailure));
    assert_eq!(settlement_result(&vec![ok, ok, failed]), Err(ErrorCode::SettlementFailure));
}

#[test]
fn settlement_reports_the_first_swap_error() {
    let ok = LegOutcome { settled: true, swap_error: None };
    let swap_a = LegOutcome { settled: true, swap_error: Some(ErrorCode::LiquidationFailure) };
    let swap_b = LegOutcome { settled: true, swap_error: Some(ErrorCode::CancelFailure) };
    let failed = LegOutcome { settled: false, swap_error: Some(ErrorCode::CancelFailure) };
    assert_eq!(settlement_result(&vec![ok, swap_a, swap_b]), Err(ErrorCode::LiquidationFailure));
    assert_eq!(settlement_result(&vec![swap_b, swap_a]), Err(ErrorCode::CancelFailure));
    assert_eq!(settlement_result(&vec![swap_a, failed]), Err(ErrorCode::SettlementFailure));
}

#[test]
fn refresh_is_due_after_the_interval() {
    assert!(!refresh_due(0));
    assert!(!refresh_due(6000));
    assert!(refresh_due(6001));
}

fn span(secs: u64, nanos: u32) -> Result<Seconds, ParseSecondsError> {
    Ok(Seconds { secs, nanos })
}

#[test]
fn parse_seconds_reads_whole_seconds() {
    assert_eq!(parse_seconds("2"), span(2, 0));
    assert_eq!(parse_seconds("15"), span(15, 0));
    assert_eq!(parse_seconds("007"), span(7, 0));
    assert_eq!(parse_seconds("0"), span(0, 0));
    assert_eq!(parse_seconds("+30"), span(30, 0));
    assert_eq!(parse_seconds("18446744073709551615"), span(u64::MAX, 0));
}

#[test]
fn parse_seconds_reads_a_fraction() {
    assert_eq!(parse_seconds("2.5"), span(2, 500_000_000));
    assert_eq!(parse_seconds("+1.5"), span(1, 500_000_000));
    assert_eq!(parse_seconds("0.25"), span(0, 250_000_000));
    assert_eq!(parse_seconds("2."), span(2, 0));
    assert_eq!(parse_seconds(".5"), span(0, 500_000_000));
    assert_eq!(parse_seconds("1.000000001"), span(1, 1));
    assert_eq!(parse_seconds("1.999999999"), span(1, 999_999_999));
    assert_eq!(parse_seconds("18446744073709551615.123456789"), span(u64::MAX, 123_456_789));
}

#[test]
fn parse_seconds_reads_an_exponent() {
    assert_eq!(parse_seconds("1e3"), span(1000, 0));
    assert_eq!(parse_seconds("1E0"), span(1, 0));
    assert_eq!(parse_seconds("2e-3"), span(0, 2_000_000));
    assert_eq!(parse_seconds("1.5e1"), span(15, 0));
    assert_eq!(parse_seconds("1.5e+2"), span(150, 0));
    assert_eq!(parse_seconds("12.5E-1"), span(1, 250_000_000));
    assert_eq!(parse_seconds("1234.5678e-2"), span(12, 345_678_000));
    assert_eq!(parse_seconds(".5e1"), span(5, 0));
    assert_eq!(parse_seconds("5.e2"), span(500, 0));
    assert_eq!(parse_seconds("1e-9"), span(0, 1));
    assert_eq!(parse_seconds("1e-10"), span(0, 0));
    assert_eq!(parse_seconds("123456789e-18"), span(0, 0));
    assert_eq!(parse_seconds("123456789e-17"), span(0, 1));
    assert_eq!(parse_seconds("1e019"), span(10_000_000_000_000_000_000, 0));
    assert_eq!(parse_seconds("0.0000000000000000000001e41"), span(10_000_000_000_000_000_000, 0));
    assert_eq!(parse_seconds("1e-0"), span(1, 0));
}

#[test]
fn parse_seconds_reads_zero_whatever_the_exponent() {
    assert_eq!(parse_seconds("0e99999999999999999999999999999999999999999"), span(0, 0));
    assert_eq!(parse_seconds("0.000e-99999999999999999999999999999999999999999"), span(0, 0));
    assert_eq!(parse_seconds("-0"), span(0, 0));
    assert_eq!(parse_seconds("-0.0e5"), span(0, 0));
    assert_eq!(parse_seconds("1e-99999999999999999999999999999999999999999"), span(0, 0));
    assert_eq!(parse_seconds("1e-1000000"), span(0, 0));
}

#[test]
fn parse_seconds_drops_digits_beyond_the_ninth() {
    assert_eq!(parse_seconds("1.0000000019"), span(1, 1));
    assert_eq!(parse_seconds("3.99999999999999"), span(3, 999_999_999));
}

#[test]
fn parse_seconds_rejects_what_is_no_number() {
    for text in [
        "", ".", "+", "-", "e5", ".e5", "1e", "1e+", "1e-", "1e5.5", "1.2.3", "..", " 3", "3 ",
        "2.5s", "abc", "1_000", "0x10", "1e5e5", "+-1", "in", "infinit", "nano", "--1",
        "99999999999999999999x",
    ] {
        assert_eq!(parse_seconds(text), Err(ParseSecondsError::Invalid), "{}", text);
    }
}

#[test]
fn parse_seconds_rejects_what_is_not_finite() {
    for text in ["inf", "+inf", "-inf", "INF", "Infinity", "-infinity", "nan", "NaN", "+NAN"] {
        assert_eq!(parse_seconds(text), Err(ParseSecondsError::NotFinite), "{}", text);
    }
}

#[test]
fn parse_seconds_rejects_what_is_below_zero() {
    assert_eq!(parse_seconds("-3"), Err(ParseSecondsError::Negative));
    assert_eq!(parse_seconds("-0.5"), Err(ParseSecondsError::Negative));
    assert_eq!(parse_seconds("-1e-30"), Err(ParseSecondsError::Negative));
    assert_eq!(parse_seconds("-1e99999999999999999999999999999999"), Err(ParseSecondsError::Negative));
}

#[test]
fn parse_seconds_rejects_what_does_not_fit() {
    assert_eq!(parse_seconds("18446744073709551616"), Err(ParseSecondsError::TooLarge));
    assert_eq!(parse_seconds("99999999999999999999999.5"), Err(ParseSecondsError::TooLarge));
    assert_eq!(parse_seconds("1e20"), Err(ParseSecondsError::TooLarge));
    assert_eq!(parse_seconds("1.8446744073709551616e19"), Err(ParseSecondsError::TooLarge));
    assert_eq!(parse_seconds("1.8446744073709551615e19"), span(u64::MAX, 0));
    assert_eq!(parse_seconds("0.001e1000000"), Err(ParseSecondsError::TooLarge));
    assert_eq!(
        parse_seconds("1e99999999999999999999999999999999999999999"),
        Err(ParseSecondsError::TooLarge)
    );
}

#[test]
fn bankrupt_account_with_nothing_owed_settles_trivially() {
    let account = zo_keeper::account::Account {
        collaterals: vec![collateral(5, true), collateral(8, false), collateral(2, true)],
        markets: vec![market(0), market(0)],
    };
    let action = zo_keeper::strategy::liquidate(&account, Fixed::from_int(10));
    assert_eq!(action, Ok(zo_keeper::strategy::Action::SettleBankruptcy));
    let legs = settle_bankruptcy(&account.collaterals);
    assert!(legs.is_empty());
    let outcomes: Vec<LegOutcome> = Vec::new();
    assert_eq!(settlement_result(&outcomes), Ok(()));
}
