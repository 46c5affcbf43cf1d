use vstd::prelude::*;

verus! {

/// Why a triage or one of its executors gave up.
#[derive(Clone, Copy, Debug, PartialEq, Eq, Structural)]
pub enum ErrorCode {
    /// The account could not be valued: a price is missing or a value does
    /// not fit the fixed-point range.
    CollateralFailure,
    /// The account lists no collateral at all.
    NoCollateral,
    /// The account lists no market at all.
    NoPositions,
    /// The force-cancel submission was not confirmed.
    CancelFailure,
    /// The exchange rejected a transfer as too large for the liquidator.
    LiquidationOverExposure,
    /// A liquidation was rejected for good, or shrinking it did not help.
    LiquidationFailure,
    /// At least one bankruptcy leg was not settled.
    SettlementFailure,
}

} // verus!
