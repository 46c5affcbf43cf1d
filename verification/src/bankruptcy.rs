use crate::account::Collateral;
use crate::error::ErrorCode;
use vstd::prelude::*;

verus! {

/// One leg of a bankruptcy settlement.
#[derive(Clone, Copy, Debug, PartialEq, Eq, Structural)]
pub struct SettlementLeg {
    /// The collateral to settle.
    pub asset: usize,
    /// Whether to swap the collateral afterwards: a spot market is
    /// registered for it.
    pub rebalance: bool,
}

/// What became of one leg.
#[derive(Clone, Copy, Debug, PartialEq, Eq, Structural)]
pub struct LegOutcome {
    /// Whether the settlement was confirmed.
    pub settled: bool,
    /// The error of the swap, where one was made and failed.
    pub swap_error: Option<ErrorCode>,
}

/// The legs of a settlement: one for each collateral with a negative
/// balance, in ascending index order.
pub open spec fn settlement_legs(collaterals: Seq<Collateral>) -> Seq<SettlementLeg>
    decreases collaterals.len(),
{
    if collaterals.len() == 0 {
        Seq::empty()
    } else {
        let before = settlement_legs(collaterals.drop_last());
        let last = collaterals.last();
        if last.balance.bits < 0 {
            before.push(
                SettlementLeg {
                    asset: (collaterals.len() - 1) as usize,
                    rebalance: last.has_spot_market,
                },
            )
        } else {
            before
        }
    }
}

/// A settlement visits every collateral with a negative balance exactly
/// once, in ascending order, and nothing else: each leg is such a
/// collateral, the legs' indices strictly ascend, and each such collateral
/// has its leg. Without any negative balance there is no leg.
pub proof fn lemma_settlement_visits_each_once(collaterals: Seq<Collateral>)
    requires
        collaterals.len() <= usize::MAX,
    ensures
        forall|k: int|
            0 <= k < settlement_legs(collaterals).len() ==> {
                let leg = #[trigger] settlement_legs(collaterals)[k];
                &&& leg.asset < collaterals.len()
                &&& collaterals[leg.asset as int].balance.bits < 0
                &&& leg.rebalance == collaterals[leg.asset as int].has_spot_market
            },
        forall|k: int, l: int|
            0 <= k < l < settlement_legs(collaterals).len() ==> (#[trigger] settlement_legs(
                collaterals,
            )[k]).asset < (#[trigger] settlement_legs(collaterals)[l]).asset,
        forall|i: int|
            0 <= i < collaterals.len() && (#[trigger] collaterals[i]).balance.bits < 0
                ==> exists|k: int|
                0 <= k < settlement_legs(collaterals).len() && (#[trigger] settlement_legs(
                    collaterals,
                )[k]).asset == i,
        (forall|i: int| 0 <= i < collaterals.len() ==> (#[trigger] collaterals[i]).balance.bits >= 0)
            ==> settlement_legs(collaterals).len() == 0,
    decreases collaterals.len(),
{
    if collaterals.len() > 0 {
        let front = collaterals.drop_last();
        let before = settlement_legs(front);
        let legs = settlement_legs(collaterals);
        lemma_settlement_visits_each_once(front);
        assert forall|j: int| 0 <= j < front.len() implies front[j] == collaterals[j] by {}
        assert forall|k: int| 0 <= k < before.len() implies legs[k] == before[k] by {}
        assert forall|i: int|
            0 <= i < collaterals.len() && (#[trigger] collaterals[i]).balance.bits < 0 implies exists|
            k: int,
        |
            0 <= k < legs.len() && (#[trigger] legs[k]).asset == i by {
            if i < front.len() {
                assert(front[i].balance.bits < 0);
                let k = choose|k: int| 0 <= k < before.len() && (#[trigger] before[k]).asset == i;
                assert(legs[k].asset == i);
            } else {
                assert(legs[legs.len() - 1].asset == i);
            }
        }
        if forall|i: int| 0 <= i < collaterals.len() ==> (#[trigger] collaterals[i]).balance.bits >= 0 {
            assert forall|i: int| 0 <= i < front.len() implies (#[trigger] front[i]).balance.bits
                >= 0 by {
                assert(collaterals[i].balance.bits >= 0);
            }
            assert(collaterals[collaterals.len() - 1].balance.bits >= 0);
        }
    }
}

/// Plans the settlement of a bankrupt account: the legs to attempt, every
/// one of them whatever becomes of the others.
pub fn settle_bankruptcy(collaterals: &Vec<Collateral>) -> (r: Vec<SettlementLeg>)
    ensures
        r@ == settlement_legs(collaterals@),
{
    let mut legs: Vec<SettlementLeg> = Vec::new();
    let mut i: usize = 0;
    while i < collaterals.len()
        invariant
            i <= collaterals.len(),
            legs@ == settlement_legs(collaterals@.take(i as int)),
        decreases collaterals.len() - i,
    {
        proof {
            assert(collaterals@.take(i + 1).drop_last() =~= collaterals@.take(i as int));
        }
        if collaterals[i].balance.is_negative() {
            legs.push(SettlementLeg { asset: i, rebalance: collaterals[i].has_spot_market });
        }
        i = i + 1;
    }
    proof {
        assert(collaterals@.take(i as int) =~= collaterals@);
    }
    legs
}

/// The error of the first swap that failed, if any did.
pub open spec fn first_swap_error(outcomes: Seq<LegOutcome>) -> Option<ErrorCode>
    decreases outcomes.len(),
{
    if outcomes.len() == 0 {
        None
    } else {
        match first_swap_error(outcomes.drop_last()) {
            Some(error) => Some(error),
            None => outcomes.last().swap_error,
        }
    }
}

/// The result of a settlement whose legs ended as `outcomes`: a settlement
/// failure where any leg was not settled; otherwise the error of the first
/// swap that failed; otherwise success, also without any leg.
pub open spec fn settlement_result_for(outcomes: Seq<LegOutcome>) -> Result<(), ErrorCode> {
    if exists|i: int| 0 <= i < outcomes.len() && !(#[trigger] outcomes[i]).settled {
        Err(ErrorCode::SettlementFailure)
    } else {
        match first_swap_error(outcomes) {
            Some(error) => Err(error),
            None => Ok(()),
        }
    }
}

/// A settlement without any leg succeeds, and one whose legs were all
/// settled without a failed swap succeeds too; one with a leg that was not
/// settled fails as a settlement, whatever became of the other legs.
pub proof fn lemma_settlement_result(outcomes: Seq<LegOutcome>)
    ensures
        outcomes.len() == 0 ==> settlement_result_for(outcomes) == Ok::<(), ErrorCode>(()),
        (forall|i: int|
            0 <= i < outcomes.len() ==> (#[trigger] outcomes[i]).settled
                && outcomes[i].swap_error.is_none()) ==> settlement_result_for(outcomes) == Ok::<
            (),
            ErrorCode,
        >(()),
        (exists|i: int| 0 <= i < outcomes.len() && !(#[trigger] outcomes[i]).settled)
            ==> settlement_result_for(outcomes) == Err::<(), ErrorCode>(
            ErrorCode::SettlementFailure,
        ),
    decreases outcomes.len(),
{
    if outcomes.len() > 0 {
        let front = outcomes.drop_last();
        lemma_settlement_result(front);
        if forall|i: int|
            0 <= i < outcomes.len() ==> (#[trigger] outcomes[i]).settled
                && outcomes[i].swap_error.is_none() {
            assert forall|i: int| 0 <= i < front.len() implies (#[trigger] front[i]).settled
                && front[i].swap_error.is_none() by {
                assert(outcomes[i].settled);
            }
            assert(outcomes[outcomes.len() - 1].settled);
            assert(first_swap_error(front).is_none());
        }
    }
}

/// Reports the result of a settlement from the outcomes of its legs.
pub fn settlement_result(outcomes: &Vec<LegOutcome>) -> (r: Result<(), ErrorCode>)
    ensures
        r == settlement_result_for(outcomes@),
{
    let mut all_settled = true;
    let mut swap_error: Option<ErrorCode> = None;
    let mut i: usize = 0;
    while i < outcomes.len()
        invariant
            i <= outcomes.len(),
            all_settled == (forall|j: int| 0 <= j < i ==> (#[trigger] outcomes@[j]).settled),
            swap_error == first_swap_error(outcomes@.take(i as int)),
        decreases outcomes.len() - i,
    {
        proof {
            assert(outcomes@.take(i + 1).drop_last() =~= outcomes@.take(i as int));
        }
        if !outcomes[i].settled {
            all_settled = false;
        }
        if swap_error.is_none() {
            swap_error = outcomes[i].swap_error;
        }
        i = i + 1;
    }
    proof {
        assert(outcomes@.take(i as int) =~= outcomes@);
    }
    if !all_settled {
        Err(ErrorCode::SettlementFailure)
    } else {
        match swap_error {
            Some(error) => Err(error),
            None => Ok(()),
        }
    }
}

} // verus!
