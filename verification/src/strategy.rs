use crate::account::{Account, Market};
use crate::error::ErrorCode;
use crate::fixed_point::Fixed;
use crate::ranking::{
    best_quote, best_quote_of, is_spot_bankrupt, largest_open_order, largest_order_of,
    largest_position, largest_position_of, lemma_best_quote, lemma_largest_order,
    lemma_largest_position, lemma_worst_is_first_least, spot_bankrupt, worst_collateral, worst_of,
};
use crate::valuation::{collateral_values, position_values, value_collateral, value_positions};
use vstd::prelude::*;

verus! {

/// The four corrective branches, and the branch that does nothing.
#[derive(Clone, Copy, Debug, PartialEq, Eq, Structural)]
pub enum Branch {
    PerpLiquidation,
    CancelOrders,
    BankruptcySettlement,
    SpotLiquidation,
    Nothing,
}

/// The single corrective action chosen for an account, with the indices it
/// acts on.
#[derive(Clone, Copy, Debug, PartialEq, Eq, Structural)]
pub enum Action {
    /// Take over part of the position in `market`.
    LiquidatePerp { market: usize, liqee_was_long: bool },
    /// Force-cancel the resting orders in `market`.
    CancelOrders { market: usize },
    /// Settle the bankruptcy of every collateral with a negative balance.
    SettleBankruptcy,
    /// Close the deficit of collateral `asset` against collateral `quote`.
    LiquidateSpot { asset: usize, quote: usize },
    /// The account needs nothing.
    Nothing,
}

/// The branch for the given valuation summary; the first rule that matches
/// decides.
pub open spec fn branch_for(
    worst_value: Fixed,
    best_quote_value: Fixed,
    position_notional: Option<Fixed>,
    is_bankrupt: bool,
    has_resting_order: bool,
) -> Branch {
    if position_notional.is_some() && (worst_value.magnitude()
        <= position_notional.unwrap().magnitude() || is_bankrupt) {
        Branch::PerpLiquidation
    } else if is_bankrupt && position_notional.is_none() {
        if has_resting_order {
            Branch::CancelOrders
        } else {
            Branch::BankruptcySettlement
        }
    } else if worst_value.bits < 0 {
        Branch::SpotLiquidation
    } else if has_resting_order {
        Branch::CancelOrders
    } else {
        Branch::Nothing
    }
}

/// The branch that an action belongs to.
pub open spec fn branch_of(action: Action) -> Branch {
    match action {
        Action::LiquidatePerp { .. } => Branch::PerpLiquidation,
        Action::CancelOrders { .. } => Branch::CancelOrders,
        Action::SettleBankruptcy => Branch::BankruptcySettlement,
        Action::LiquidateSpot { .. } => Branch::SpotLiquidation,
        Action::Nothing => Branch::Nothing,
    }
}

/// The notional of a position, if there is one.
pub open spec fn notional_of(position: Option<(usize, Fixed)>) -> Option<Fixed> {
    match position {
        Some(p) => Some(p.1),
        None => None,
    }
}

/// The action for the given valuation summary: the branch of `branch_for`,
/// with the indices of what it acts on.
pub open spec fn action_for(
    worst: (usize, Fixed),
    best_quote: (usize, Fixed),
    position: Option<(usize, Fixed)>,
    is_bankrupt: bool,
    resting_order: Option<usize>,
) -> Action {
    match branch_for(
        worst.1,
        best_quote.1,
        notional_of(position),
        is_bankrupt,
        resting_order.is_some(),
    ) {
        Branch::PerpLiquidation => Action::LiquidatePerp {
            market: position.unwrap().0,
            liqee_was_long: position.unwrap().1.bits > 0,
        },
        Branch::CancelOrders => Action::CancelOrders { market: resting_order.unwrap() },
        Branch::BankruptcySettlement => Action::SettleBankruptcy,
        Branch::SpotLiquidation => Action::LiquidateSpot { asset: worst.0, quote: best_quote.0 },
        Branch::Nothing => Action::Nothing,
    }
}

/// The branch taken is a function of the worst collateral's value, the best
/// quote's value, the largest position's notional if there is one, and the
/// two flags: the indices decide nothing.
pub proof fn lemma_branch_depends_on_values_only(
    worst: (usize, Fixed),
    best_quote: (usize, Fixed),
    position: Option<(usize, Fixed)>,
    is_bankrupt: bool,
    resting_order: Option<usize>,
)
    ensures
        branch_of(action_for(worst, best_quote, position, is_bankrupt, resting_order))
            == branch_for(
            worst.1,
            best_quote.1,
            notional_of(position),
            is_bankrupt,
            resting_order.is_some(),
        ),
{
}

/// Chooses the branch for a valuation summary.
pub fn select_branch(
    worst_value: Fixed,
    best_quote_value: Fixed,
    position_notional: Option<Fixed>,
    is_bankrupt: bool,
    has_resting_order: bool,
) -> (r: Branch)
    ensures
        r == branch_for(
            worst_value,
            best_quote_value,
            position_notional,
            is_bankrupt,
            has_resting_order,
        ),
{
    match position_notional {
        Some(notional) => {
            if worst_value.abs_bits() <= notional.abs_bits() || is_bankrupt {
                return Branch::PerpLiquidation;
            }
        },
        None => {
            if is_bankrupt {
                if has_resting_order {
                    return Branch::CancelOrders;
                } else {
                    return Branch::BankruptcySettlement;
                }
            }
        },
    }
    if worst_value.is_negative() {
        Branch::SpotLiquidation
    } else if has_resting_order {
        Branch::CancelOrders
    } else {
        Branch::Nothing
    }
}

/// Chooses the action for a valuation summary.
pub fn select_action(
    worst: (usize, Fixed),
    best_quote: (usize, Fixed),
    position: Option<(usize, Fixed)>,
    is_bankrupt: bool,
    resting_order: Option<usize>,
) -> (r: Action)
    ensures
        r == action_for(worst, best_quote, position, is_bankrupt, resting_order),
{
    let notional = match position {
        Some(p) => Some(p.1),
        None => None,
    };
    match select_branch(worst.1, best_quote.1, notional, is_bankrupt, resting_order.is_some()) {
        Branch::PerpLiquidation => {
            let p = position.unwrap();
            Action::LiquidatePerp { market: p.0, liqee_was_long: p.1.is_positive() }
        },
        Branch::CancelOrders => Action::CancelOrders { market: resting_order.unwrap() },
        Branch::BankruptcySettlement => Action::SettleBankruptcy,
        Branch::SpotLiquidation => Action::LiquidateSpot { asset: worst.0, quote: best_quote.0 },
        Branch::Nothing => Action::Nothing,
    }
}

/// The decision for an account whose collateral and positions are valued:
/// an account without any collateral entry or without any market is
/// degenerate; otherwise the action for its valuation summary.
pub open spec fn decision(
    values: Seq<Fixed>,
    positions: Seq<Fixed>,
    markets: Seq<Market>,
    dust: Fixed,
) -> Result<Action, ErrorCode> {
    if values.len() == 0 {
        Err(ErrorCode::NoCollateral)
    } else if positions.len() == 0 {
        Err(ErrorCode::NoPositions)
    } else {
        Ok(
            action_for(
                worst_of(values).unwrap(),
                best_quote_of(values).unwrap(),
                largest_position_of(positions),
                spot_bankrupt(values, dust),
                largest_order_of(markets),
            ),
        )
    }
}

/// Whether the indices that an action acts on are within the given numbers
/// of collaterals, positions and markets.
pub open spec fn in_range(action: Action, collaterals: nat, positions: nat, markets: nat) -> bool {
    match action {
        Action::LiquidatePerp { market, .. } => market < positions,
        Action::CancelOrders { market } => market < markets,
        Action::LiquidateSpot { asset, quote } => asset < collaterals && quote < collaterals,
        Action::SettleBankruptcy => true,
        Action::Nothing => true,
    }
}

/// A decided action acts on indices of the vectors it was decided from.
pub proof fn lemma_decision_in_range(
    values: Seq<Fixed>,
    positions: Seq<Fixed>,
    markets: Seq<Market>,
    dust: Fixed,
)
    requires
        values.len() <= usize::MAX,
        positions.len() <= usize::MAX,
        markets.len() <= usize::MAX,
    ensures
        decision(values, positions, markets, dust).is_ok() ==> in_range(
            decision(values, positions, markets, dust).unwrap(),
            values.len(),
            positions.len(),
            markets.len(),
        ),
{
    if values.len() > 0 && positions.len() > 0 {
        lemma_worst_is_first_least(values);
        lemma_best_quote(values);
        lemma_largest_position(positions);
        lemma_largest_order(markets);
    }
}

/// For an account with some collateral and some market, the decision is an
/// action, and its branch is the one that the five rules give for the worst
/// collateral's value, the best quote's value, the largest position's
/// notional if a position is not zero, whether every collateral is below the
/// dust threshold, and whether an order rests.
pub proof fn lemma_decision_follows_the_rules(
    values: Seq<Fixed>,
    positions: Seq<Fixed>,
    markets: Seq<Market>,
    dust: Fixed,
)
    requires
        values.len() > 0,
        positions.len() > 0,
    ensures
        decision(values, positions, markets, dust).is_ok(),
        branch_of(decision(values, positions, markets, dust).unwrap()) == branch_for(
            worst_of(values).unwrap().1,
            best_quote_of(values).unwrap().1,
            notional_of(largest_position_of(positions)),
            spot_bankrupt(values, dust),
            largest_order_of(markets).is_some(),
        ),
{
}

/// An account whose positions are all zero has no position: its decision is
/// an action that is no perp liquidation, the one that the rules give
/// without a position.
pub proof fn lemma_no_position_no_perp_liquidation(
    values: Seq<Fixed>,
    positions: Seq<Fixed>,
    markets: Seq<Market>,
    dust: Fixed,
)
    requires
        values.len() > 0,
        0 < positions.len() <= usize::MAX,
        forall|i: int| 0 <= i < positions.len() ==> (#[trigger] positions[i]).bits == 0,
    ensures
        decision(values, positions, markets, dust).is_ok(),
        branch_of(decision(values, positions, markets, dust).unwrap()) != Branch::PerpLiquidation,
        branch_of(decision(values, positions, markets, dust).unwrap()) == branch_for(
            worst_of(values).unwrap().1,
            best_quote_of(values).unwrap().1,
            None,
            spot_bankrupt(values, dust),
            largest_order_of(markets).is_some(),
        ),
{
    lemma_largest_position(positions);
}

/// Decides the action for an account from its valued collateral, its valued
/// positions and its markets.
pub fn decide(values: &Vec<Fixed>, positions: &Vec<Fixed>, markets: &Vec<Market>, dust: Fixed) -> (r:
    Result<Action, ErrorCode>)
    ensures
        r == decision(values@, positions@, markets@, dust),
        r.is_ok() ==> in_range(r.unwrap(), values@.len(), positions@.len(), markets@.len()),
{
    let worst = match worst_collateral(values) {
        Some(worst) => worst,
        None => {
            return Err(ErrorCode::NoCollateral);
        },
    };
    let quote = match best_quote(values) {
        Some(quote) => quote,
        None => {
            return Err(ErrorCode::NoCollateral);
        },
    };
    if positions.len() == 0 {
        return Err(ErrorCode::NoPositions);
    }
    let position = largest_position(positions);
    let bankrupt = is_spot_bankrupt(values, dust);
    let resting = largest_open_order(markets);
    proof {
        assert(values@.len() == values.len() && markets@.len() == markets.len());
        lemma_decision_in_range(values@, positions@, markets@, dust);
    }
    Ok(select_action(worst, quote, position, bankrupt, resting))
}

/// What `liquidate` decides for an account: a valuation failure where its
/// collateral or its positions cannot be valued, otherwise the decision for
/// the values.
pub open spec fn triage(account: Account, dust: Fixed) -> Result<Action, ErrorCode> {
    match collateral_values(account.collaterals@) {
        None => Err(ErrorCode::CollateralFailure),
        Some(values) => match position_values(account.markets@) {
            None => Err(ErrorCode::CollateralFailure),
            Some(positions) => decision(values, positions, account.markets@, dust),
        },
    }
}

/// Values a distressed account and decides the single corrective action
/// for it. Nothing is submitted: the action is for the caller to carry out.
pub fn liquidate(account: &Account, dust: Fixed) -> (r: Result<Action, ErrorCode>)
    ensures
        r == triage(*account, dust),
        r.is_ok() ==> in_range(
            r.unwrap(),
            account.collaterals@.len(),
            account.markets@.len(),
            account.markets@.len(),
        ),
{
    let values = match value_collateral(&account.collaterals) {
        Ok(values) => values,
        Err(_) => {
            return Err(ErrorCode::CollateralFailure);
        },
    };
    let positions = match value_positions(&account.markets) {
        Ok(positions) => positions,
        Err(_) => {
            return Err(ErrorCode::CollateralFailure);
        },
    };
    decide(&values, &positions, &account.markets, dust)
}

} // verus!
