use crate::fixed_point::Fixed;
use vstd::prelude::*;

verus! {

/// One collateral asset of an account, joined by its index with the
/// exchange's descriptor of the asset and the cached oracle price.
#[derive(Clone, Copy, Debug)]
pub struct Collateral {
    /// The account's signed raw balance of the asset.
    pub balance: Fixed,
    /// The cached oracle price, if there is one.
    pub price: Option<Fixed>,
    /// The asset's decimals.
    pub decimals: u8,
    /// Whether a spot market and its vault signer are registered for the
    /// asset, so that it can be rebalanced after a liquidation.
    pub has_spot_market: bool,
}

/// One perpetual market of an account, joined by its index with the cached
/// mark price.
#[derive(Clone, Copy, Debug)]
pub struct Market {
    /// The account's signed position size.
    pub position_size: i64,
    /// The cached mark price.
    pub mark_price: Fixed,
    /// The signed aggregate size of the account's resting orders.
    pub order_size: i64,
}

/// What the engine reads of a distressed account. The index of an entry is
/// the index of its asset or market everywhere.
#[derive(Debug)]
pub struct Account {
    pub collaterals: Vec<Collateral>,
    pub markets: Vec<Market>,
}

} // verus!
