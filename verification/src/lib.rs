//! Decision engine of a liquidation keeper for a leveraged margin exchange.
//!
//! The engine values a distressed account, picks the single corrective
//! action that reduces the most risk, sizes the transfer, and drives the
//! size-halving retry protocol. Everything here is pure: the caller reads the
//! chain, submits what the engine plans and reports back what happened.

pub mod account;
pub mod bankruptcy;
pub mod duration;
pub mod error;
pub mod fixed_point;
pub mod plan;
pub mod ranking;
pub mod retry;
pub mod scan;
pub mod selection;
pub mod sizing;
pub mod strategy;
pub mod valuation;
