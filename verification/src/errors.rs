//! Error kinds returned by the lending engine.
//!
//! Every error is value-returned; a rejected operation leaves all ledger
//! state unchanged.

use vstd::prelude::*;

verus! {

/// Why a lending operation was rejected.
#[derive(Clone, Copy, Debug, PartialEq, Eq, Structural)]
pub enum Error {
    /// An interest-rate model was configured with a decreasing curve or an
    /// optimal utilization outside the open interval (0%, 100%).
    InvalidInterestRateModel,
    /// The market index does not name a created market.
    MarketDoesNotExist,
    /// The account holds no position in the market.
    BorrowerDataNotFound,
    /// A withdrawal asked for more collateral than is free: either more than
    /// the deposited balance, or an amount whose removal would leave the
    /// outstanding debt uncovered.
    NotEnoughCollateral,
    /// A borrow asked for more than the account's borrow limit.
    NotEnoughCollateralToBorrowAmount,
    /// A borrow asked for more liquidity than the market currently holds.
    NotEnoughBorrowAsset,
    /// A second borrow was requested by the same account within one tick.
    InvalidTimestampOnBorrowRequest,
    /// A repay was requested in the very tick of the account's last borrow.
    BorrowAndRepayInSameBlockIsNotSupported,
    /// A repay asked to return more than the account owes.
    CannotRepayMoreThanTotalDebt,
    /// The position is still sufficiently collateralized.
    CannotLiquidateHealthyPosition,
    /// A market was configured with an impossible collateralization
    /// policy.
    InvalidMarketConfiguration,
    /// A checked arithmetic step would have exceeded the integer range.
    Overflow,
}

impl Error {
    /// A short stable name for the error, for callers that log or display.
    pub fn as_str(&self) -> (r: &'static str)
    {
        match self {
            Error::InvalidInterestRateModel => "invalid interest rate model",
            Error::MarketDoesNotExist => "market does not exist",
            Error::BorrowerDataNotFound => "borrower data not found",
            Error::NotEnoughCollateral => "not enough collateral",
            Error::NotEnoughCollateralToBorrowAmount => {
                "not enough collateral to borrow amount"
            },
            Error::NotEnoughBorrowAsset => "not enough borrow asset",
            Error::InvalidTimestampOnBorrowRequest => {
                "invalid timestamp on borrow request"
            },
            Error::BorrowAndRepayInSameBlockIsNotSupported => {
                "borrow and repay in same block is not supported"
            },
            Error::CannotRepayMoreThanTotalDebt => {
                "cannot repay more than total debt"
            },
            Error::CannotLiquidateHealthyPosition => {
                "cannot liquidate healthy position"
            },
            Error::InvalidMarketConfiguration => "invalid market configuration",
            Error::Overflow => "overflow",
        }
    }
}

} // verus!
