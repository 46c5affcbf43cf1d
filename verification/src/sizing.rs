use crate::fixed_point::{floor_of, i80f48_div, lift, Fixed};
use crate::valuation::{decimal_scale, pow10, MAX_DECIMALS};
use vstd::arithmetic::div_mod::lemma_fundamental_div_mod_converse;
use vstd::prelude::*;

verus! {

/// How many units the first attempt asks for per unit that the liquidator's
/// capital covers.
pub const SIZE_FACTOR: i64 = 10;

/// The quotient of a signed number by a positive one, rounded towards minus
/// infinity.
pub fn floor_div(a: i64, unit: u64) -> (r: i64)
    requires
        unit > 0,
    ensures
        r == a as int / unit as int,
{
    if a >= 0 {
        let q: u64 = (a as u64) / unit;
        q as i64
    } else {
        let m: u64 = (-(a + 1)) as u64;
        let q: u64 = m / unit;
        let rem: u64 = m % unit;
        proof {
            let d = unit as int;
            assert(m == q * d + rem) by {
                vstd::arithmetic::div_mod::lemma_fundamental_div_mod(m as int, d);
                assert(d * (m as int / d) == (m as int / d) * d) by (nonlinear_arith);
            }
            assert(a as int == (-(q as int) - 1) * d + (d - rem - 1)) by (nonlinear_arith)
                requires
                    a as int == -(m as int) - 1,
                    m as int == q * d + rem,
            ;
            lemma_fundamental_div_mod_converse(a as int, d, -(q as int) - 1, d - rem - 1);
        }
        -(q as i64) - 1
    }
}

/// The size of a first transfer: the whole number of `unit`s in `whole`,
/// rounded towards minus infinity, times `SIZE_FACTOR`; none where that does
/// not fit an `i64`.
pub open spec fn transfer_size(whole: int, unit: int) -> Option<i64> {
    let scaled = (whole / unit) * SIZE_FACTOR;
    if i64::MIN <= scaled <= i64::MAX {
        Some(scaled as i64)
    } else {
        None
    }
}

/// The size of a first transfer for a quotient of the liquidator's capital
/// by a price: none where there is no quotient, where its whole part does
/// not fit an `i64`, where the unit is zero, or where the size does not fit.
pub open spec fn size_for(quotient: Option<Fixed>, unit: u64) -> Option<i64> {
    match quotient {
        None => None,
        Some(q) => if unit == 0 || !(i64::MIN <= floor_of(q.bits) <= i64::MAX) {
            None
        } else {
            transfer_size(floor_of(q.bits), unit as int)
        },
    }
}

/// Sizes a first transfer from the quotient of capital by price.
pub fn size_from_quotient(quotient: Option<Fixed>, unit: u64) -> (r: Option<i64>)
    ensures
        r == size_for(quotient, unit),
{
    let q = match quotient {
        Some(q) => q,
        None => {
            return None;
        },
    };
    if unit == 0 {
        return None;
    }
    let whole = match q.checked_floor() {
        Some(whole) => whole,
        None => {
            return None;
        },
    };
    let units: i64 = floor_div(whole, unit);
    if units > 922_337_203_685_477_580 || units < -922_337_203_685_477_580 {
        return None;
    }
    Some(units * SIZE_FACTOR)
}

/// The lots of a first perp liquidation: the liquidator's total collateral
/// value divided by the mark price, in whole lots, times `SIZE_FACTOR`.
pub open spec fn perp_lots_for(total: Fixed, mark_price: Fixed, lot_size: u64) -> Option<i64> {
    size_for(lift(i80f48_div(total.bits, mark_price.bits)), lot_size)
}

/// The amount of a first spot liquidation: the liquidator's total collateral
/// value divided by the asset's oracle price, in whole units of ten to the
/// power of the asset's decimals, times `SIZE_FACTOR`.
pub open spec fn spot_amount_for(total: Fixed, price: Fixed, decimals: u8) -> Option<i64> {
    if decimals > MAX_DECIMALS {
        None
    } else {
        size_for(lift(i80f48_div(total.bits, price.bits)), pow10(decimals as nat) as u64)
    }
}

/// Sizes the first perp liquidation, for a mark price and a lot size that
/// are not zero. There is no size where a step does not fit its type.
pub fn perp_lots(total: Fixed, mark_price: Fixed, lot_size: u64) -> (r: Option<i64>)
    requires
        mark_price.bits != 0,
        lot_size != 0,
    ensures
        r == perp_lots_for(total, mark_price, lot_size),
{
    size_from_quotient(total.checked_div(mark_price), lot_size)
}

/// Sizes the first spot liquidation, for a price that is not zero. There is
/// no amount where the decimals exceed `MAX_DECIMALS` or a step does not fit
/// its type.
pub fn spot_amount(total: Fixed, price: Fixed, decimals: u8) -> (r: Option<i64>)
    requires
        price.bits != 0,
    ensures
        r == spot_amount_for(total, price, decimals),
        decimals > MAX_DECIMALS ==> r.is_none(),
{
    match decimal_scale(decimals) {
        Some(scale) => size_from_quotient(total.checked_div(price), scale as u64),
        None => None,
    }
}

} // verus!
