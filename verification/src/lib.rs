//! Accounting and risk core of a lending market.
//!
//! The crate tracks collateral and debt per borrower per market, accrues
//! interest deterministically over discrete time ticks using a piecewise
//! interest-rate curve, computes borrowing capacity from oracle-priced
//! collateral, and decides when a position is undercollateralized.
//!
//! All amounts are plain integers (`u128` balances, `u64` timestamps);
//! pricing, custody transfers and vault settlement are performed by the
//! caller, which hands the results to the engine as plain values.

pub mod accrual;
pub mod currency;
pub mod engine;
pub mod errors;
pub mod math;
pub mod rate_model;
pub mod risk;

pub use errors::Error;
