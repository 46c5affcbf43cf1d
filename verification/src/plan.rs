use crate::account::{Collateral, Market};
use crate::error::ErrorCode;
use crate::ranking::{largest_open_order, largest_order_of};
use vstd::prelude::*;

verus! {

/// How many orders one force-cancel instruction may cancel.
pub const CANCEL_LIMIT: u16 = 32;

/// An instruction for the exchange, by the indices and the size it acts on.
/// The caller fills in the addresses that belong to the indices.
#[derive(Clone, Copy, Debug, PartialEq, Eq, Structural)]
pub enum Instruction {
    /// Cancel up to `limit` resting orders of the account in `market`.
    ForceCancelAllPerpOrders { market: usize, limit: u16 },
    /// Transfer `lots` contract lots of the position in `market` to the
    /// liquidator.
    LiquidatePerpPosition { market: usize, lots: i64 },
    /// Transfer `amount` units of collateral `asset` to the liquidator,
    /// against collateral `quote`.
    LiquidateSpotPosition { asset: usize, quote: usize, amount: i64 },
    /// Settle the account's bankruptcy in collateral `asset`.
    SettleBankruptcy { asset: usize },
    /// Close the position that the liquidator took over in `market`.
    Rebalance { market: usize, liqee_was_long: bool },
}

/// The compound submission of a perp liquidation: the force-cancel, always;
/// the liquidation of `lots` lots; and the rebalance where one could be
/// built.
pub open spec fn perp_submission(
    market: usize,
    liqee_was_long: bool,
    lots: i64,
    rebalance: bool,
) -> Seq<Instruction> {
    let base = seq![
        Instruction::ForceCancelAllPerpOrders { market, limit: CANCEL_LIMIT },
        Instruction::LiquidatePerpPosition { market, lots },
    ];
    if rebalance {
        base.push(Instruction::Rebalance { market, liqee_was_long })
    } else {
        base
    }
}

/// Builds the compound submission of a perp liquidation of `lots` lots.
/// `rebalance` says whether the rebalance instruction could be built; where
/// it could not, it is left out and the liquidation goes on.
pub fn liquidate_perp_position(
    market: usize,
    liqee_was_long: bool,
    lots: i64,
    rebalance: bool,
) -> (r: Vec<Instruction>)
    ensures
        r@ == perp_submission(market, liqee_was_long, lots, rebalance),
{
    let mut instructions: Vec<Instruction> = Vec::new();
    instructions.push(Instruction::ForceCancelAllPerpOrders { market, limit: CANCEL_LIMIT });
    instructions.push(Instruction::LiquidatePerpPosition { market, lots });
    if rebalance {
        instructions.push(Instruction::Rebalance { market, liqee_was_long });
    }
    proof {
        assert(instructions@ =~= perp_submission(market, liqee_was_long, lots, rebalance));
    }
    instructions
}

/// Builds the single instruction of a spot liquidation of `amount` units.
pub fn liquidate_spot_position(asset: usize, quote: usize, amount: i64) -> (r: Instruction)
    ensures
        r == (Instruction::LiquidateSpotPosition { asset, quote, amount }),
{
    Instruction::LiquidateSpotPosition { asset, quote, amount }
}

/// The collaterals to rebalance after a spot liquidation: the quote leg,
/// then the collateral leg, each only where a spot market is registered for
/// it.
pub open spec fn rebalance_legs(quote: usize, asset: usize, collaterals: Seq<Collateral>) -> Seq<
    usize,
> {
    let quote_leg = if quote < collaterals.len() && collaterals[quote as int].has_spot_market {
        seq![quote]
    } else {
        Seq::<usize>::empty()
    };
    if asset < collaterals.len() && collaterals[asset as int].has_spot_market {
        quote_leg.push(asset)
    } else {
        quote_leg
    }
}

/// Lists the collaterals to rebalance after a spot liquidation. A leg
/// without a registered spot market is skipped, which is no error.
pub fn spot_rebalance_legs(quote: usize, asset: usize, collaterals: &Vec<Collateral>) -> (r: Vec<
    usize,
>)
    ensures
        r@ == rebalance_legs(quote, asset, collaterals@),
{
    let mut legs: Vec<usize> = Vec::new();
    if quote < collaterals.len() && collaterals[quote].has_spot_market {
        legs.push(quote);
    }
    if asset < collaterals.len() && collaterals[asset].has_spot_market {
        legs.push(asset);
    }
    proof {
        assert(legs@ =~= rebalance_legs(quote, asset, collaterals@));
    }
    legs
}

/// Builds the force-cancel instruction for `market`.
pub fn cancel_orders(market: usize) -> (r: Instruction)
    ensures
        r == (Instruction::ForceCancelAllPerpOrders { market, limit: CANCEL_LIMIT }),
{
    Instruction::ForceCancelAllPerpOrders { market, limit: CANCEL_LIMIT }
}

/// Plans the cancellation for an account: one force-cancel instruction for
/// the market with the largest resting orders, or nothing where no order
/// rests.
pub fn cancel(markets: &Vec<Market>) -> (r: Option<Instruction>)
    ensures
        r == (match largest_order_of(markets@) {
            Some(market) => Some(
                Instruction::ForceCancelAllPerpOrders { market, limit: CANCEL_LIMIT },
            ),
            None => None,
        }),
{
    match largest_open_order(markets) {
        Some(market) => Some(cancel_orders(market)),
        None => None,
    }
}

/// The result of a cancellation, from whether its submission was confirmed
/// within its send attempts.
pub fn cancel_result(confirmed: bool) -> (r: Result<(), ErrorCode>)
    ensures
        r == (if confirmed {
            Ok::<(), ErrorCode>(())
        } else {
            Err(ErrorCode::CancelFailure)
        }),
{
    if confirmed {
        Ok(())
    } else {
        Err(ErrorCode::CancelFailure)
    }
}

} // verus!
