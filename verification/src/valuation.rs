use crate::account::{Collateral, Market};
use crate::error::ErrorCode;
use crate::fixed_point::{i80f48_div, i80f48_mul, lift, Fixed, ONE_BITS};
use vstd::prelude::*;

verus! {

/// The most decimals an asset can have for its scale to fit an `i64`.
pub const MAX_DECIMALS: u8 = 18;

/// Ten to the power `e`.
pub open spec fn pow10(e: nat) -> nat
    decreases e,
{
    if e == 0 {
        1
    } else {
        10 * pow10((e - 1) as nat)
    }
}

/// Ten to the power `decimals`, or `None` where it does not fit an `i64`.
pub fn decimal_scale(decimals: u8) -> (r: Option<i64>)
    ensures
        r == (if decimals <= MAX_DECIMALS {
            Some(pow10(decimals as nat) as i64)
        } else {
            None
        }),
        decimals <= MAX_DECIMALS ==> 1 <= pow10(decimals as nat) <= 1_000_000_000_000_000_000,
{
    if decimals > MAX_DECIMALS {
        return None;
    }
    let mut scale: i64 = 1;
    let mut i: u8 = 0;
    proof {
        reveal_with_fuel(pow10, 19);
        assert(pow10(18) == 1_000_000_000_000_000_000);
    }
    while i < decimals
        invariant
            i <= decimals <= MAX_DECIMALS,
            scale == pow10(i as nat),
            scale >= 1,
            scale * pow10((18 - i) as nat) == 1_000_000_000_000_000_000,
        decreases decimals - i,
    {
        proof {
            let rest = pow10((17 - i) as nat);
            assert(pow10((18 - i) as nat) == 10 * rest);
            assert(pow10((i + 1) as nat) == 10 * pow10(i as nat));
            assert(rest >= 1) by {
                lemma_pow10_positive((17 - i) as nat);
            }
            assert((scale * 10) * rest == scale * (10 * rest)) by (nonlinear_arith);
            assert(scale * 10 <= (scale * 10) * rest) by (nonlinear_arith)
                requires
                    rest >= 1,
                    scale >= 1,
            ;
        }
        scale = scale * 10;
        i = i + 1;
    }
    proof {
        lemma_pow10_positive((18 - i) as nat);
        let rest = pow10((18 - i) as nat);
        assert(scale <= scale * rest) by (nonlinear_arith)
            requires
                rest >= 1,
                scale >= 1,
        ;
    }
    Some(scale)
}

/// A power of ten is at least one.
pub proof fn lemma_pow10_positive(e: nat)
    ensures
        pow10(e) >= 1,
    decreases e,
{
    if e > 0 {
        lemma_pow10_positive((e - 1) as nat);
    }
}

/// The value of one collateral entry: its balance times its oracle price,
/// rounded towards minus infinity, divided by ten to the power of its
/// decimals, rounded towards zero. There is none where the price is missing,
/// the decimals exceed `MAX_DECIMALS`, or the product or the quotient does
/// not fit.
pub open spec fn collateral_value(c: Collateral) -> Option<Fixed> {
    match c.price {
        None => None,
        Some(price) => if c.decimals > MAX_DECIMALS {
            None
        } else {
            match i80f48_mul(c.balance.bits, price.bits) {
                None => None,
                Some(product) => lift(
                    i80f48_div(product, (pow10(c.decimals as nat) * ONE_BITS) as i128),
                ),
            }
        },
    }
}

/// The value of one position: its size times the mark price, rounded towards
/// minus infinity, or none where the product does not fit.
pub open spec fn position_value(m: Market) -> Option<Fixed> {
    lift(i80f48_mul((m.position_size * ONE_BITS) as i128, m.mark_price.bits))
}

/// The values of all collateral entries, by index, if each has one.
pub open spec fn collateral_values(cs: Seq<Collateral>) -> Option<Seq<Fixed>> {
    if forall|i: int| 0 <= i < cs.len() ==> (#[trigger] collateral_value(cs[i])).is_some() {
        Some(Seq::new(cs.len(), |i: int| collateral_value(cs[i]).unwrap()))
    } else {
        None
    }
}

/// The values of all positions, by index, if each has one.
pub open spec fn position_values(ms: Seq<Market>) -> Option<Seq<Fixed>> {
    if forall|i: int| 0 <= i < ms.len() ==> (#[trigger] position_value(ms[i])).is_some() {
        Some(Seq::new(ms.len(), |i: int| position_value(ms[i]).unwrap()))
    } else {
        None
    }
}

/// Values one collateral entry.
pub fn value_one_collateral(c: &Collateral) -> (r: Option<Fixed>)
    ensures
        r == collateral_value(*c),
{
    let price = match c.price {
        Some(price) => price,
        None => {
            return None;
        },
    };
    let scale = match decimal_scale(c.decimals) {
        Some(scale) => scale,
        None => {
            return None;
        },
    };
    match c.balance.checked_mul(price) {
        Some(product) => product.checked_div(Fixed::from_int(scale)),
        None => None,
    }
}

/// Values every collateral entry of an account, in index order. Fails with
/// `CollateralFailure` exactly where some entry has no value.
pub fn value_collateral(collaterals: &Vec<Collateral>) -> (r: Result<Vec<Fixed>, ErrorCode>)
    ensures
        match collateral_values(collaterals@) {
            Some(values) => r.is_ok() && r.unwrap()@ == values,
            None => r.is_err() && r.unwrap_err() == ErrorCode::CollateralFailure,
        },
{
    let mut values: Vec<Fixed> = Vec::new();
    let mut i: usize = 0;
    while i < collaterals.len()
        invariant
            i <= collaterals.len(),
            values.len() == i,
            forall|j: int|
                0 <= j < i ==> #[trigger] collateral_value(collaterals@[j]) == Some(values@[j]),
        decreases collaterals.len() - i,
    {
        match value_one_collateral(&collaterals[i]) {
            Some(value) => {
                values.push(value);
            },
            None => {
                return Err(ErrorCode::CollateralFailure);
            },
        }
        i = i + 1;
    }
    proof {
        assert(values@ =~= collateral_values(collaterals@).unwrap());
    }
    Ok(values)
}

/// Values every position of an account, in index order. Fails with
/// `CollateralFailure` exactly where some product does not fit.
pub fn value_positions(markets: &Vec<Market>) -> (r: Result<Vec<Fixed>, ErrorCode>)
    ensures
        match position_values(markets@) {
            Some(values) => r.is_ok() && r.unwrap()@ == values,
            None => r.is_err() && r.unwrap_err() == ErrorCode::CollateralFailure,
        },
{
    let mut values: Vec<Fixed> = Vec::new();
    let mut i: usize = 0;
    while i < markets.len()
        invariant
            i <= markets.len(),
            values.len() == i,
            forall|j: int|
                0 <= j < i ==> #[trigger] position_value(markets@[j]) == Some(values@[j]),
        decreases markets.len() - i,
    {
        let size = Fixed::from_int(markets[i].position_size);
        match size.checked_mul(markets[i].mark_price) {
            Some(value) => {
                values.push(value);
            },
            None => {
                assert(position_value(markets@[i as int]).is_none());
                return Err(ErrorCode::CollateralFailure);
            },
        }
        i = i + 1;
    }
    proof {
        assert(values@ =~= position_values(markets@).unwrap());
    }
    Ok(values)
}

} // verus!
