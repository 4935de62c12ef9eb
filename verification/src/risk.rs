//! Borrower risk: borrow capacity and collateralization warnings.
//!
//! All figures here are values in a common quote unit, already priced by
//! the caller: the collateral value, the debt value with interest, the
//! required over-collateralization factor (at least one), and a warning
//! margin on top of it.

use crate::errors::Error;
use crate::math::{
    div_nearest, fixed_div_spec, fixed_mul_spec, lemma_div_nearest_scale_le, FixedU128, Percent,
    ONE, PERCENT_ONE,
};
use vstd::prelude::*;

verus! {

/// A borrower's position, priced: collateral value, outstanding debt
/// value, and the market's collateralization policy.
#[derive(Clone, Copy, Debug, PartialEq, Eq, Structural)]
pub struct BorrowerData {
    /// Value of the deposited collateral, lifted to fixed point.
    pub collateral_balance: FixedU128,
    /// Value of the outstanding debt with accrued interest, lifted.
    pub borrower_balance_with_interest: FixedU128,
    /// Required over-collateralization: collateral value must exceed debt
    /// value by at least this factor; always at least one.
    pub collateral_factor: FixedU128,
    /// Margin over the factor below which a position is flagged as soon
    /// to be undercollateralized.
    pub under_collaterized_warn_percent: Percent,
}

impl BorrowerData {
    /// Well-formed data: the factor expresses over-collateralization.
    pub open spec fn is_valid(self) -> bool {
        &&& self.collateral_factor.inner >= ONE
        &&& self.under_collaterized_warn_percent.is_valid()
    }

    /// Lifts plain collateral and debt values into a priced position.
    pub fn new(
        collateral_balance: u128,
        borrower_balance_with_interest: u128,
        collateral_factor: FixedU128,
        under_collaterized_warn_percent: Percent,
    ) -> (r: BorrowerData)
        requires
            collateral_factor.inner >= ONE,
            under_collaterized_warn_percent.is_valid(),
        ensures
            r == (BorrowerData {
                collateral_balance: FixedU128 {
                    inner: if collateral_balance * ONE <= u128::MAX {
                        (collateral_balance * ONE) as u128
                    } else {
                        u128::MAX
                    },
                },
                borrower_balance_with_interest: FixedU128 {
                    inner: if borrower_balance_with_interest * ONE <= u128::MAX {
                        (borrower_balance_with_interest * ONE) as u128
                    } else {
                        u128::MAX
                    },
                },
                collateral_factor,
                under_collaterized_warn_percent,
            }),
            r.is_valid(),
    {
        BorrowerData {
            collateral_balance: FixedU128::saturating_from_integer(collateral_balance),
            borrower_balance_with_interest: FixedU128::saturating_from_integer(
                borrower_balance_with_interest,
            ),
            collateral_factor,
            under_collaterized_warn_percent,
        }
    }

    /// The borrow limit: collateral value divided by the factor, less the
    /// outstanding debt value, floored at zero.
    pub open spec fn borrow_limit_spec(self) -> int {
        let max_borrow = fixed_div_spec(
            self.collateral_balance.inner as int,
            self.collateral_factor.inner as int,
        );
        if max_borrow >= self.borrower_balance_with_interest.inner {
            max_borrow - self.borrower_balance_with_interest.inner
        } else {
            0
        }
    }

    /// How much more value the borrower may draw before exhausting the
    /// usable collateral.
    pub fn borrow_for_collateral(&self) -> (r: Result<FixedU128, Error>)
        requires
            self.is_valid(),
        ensures
            r == Ok::<FixedU128, Error>(FixedU128 { inner: self.borrow_limit_spec() as u128 }),
    {
        proof {
            lemma_div_nearest_scale_le(
                self.collateral_balance.inner as int,
                ONE as int,
                self.collateral_factor.inner as int,
            );
        }
        let max_borrow = match self.collateral_balance.checked_div(&self.collateral_factor) {
            Some(m) => m,
            None => {
                return Err(Error::Overflow);
            },
        };
        Ok(max_borrow.saturating_sub(&self.borrower_balance_with_interest))
    }

    /// The collateralization ratio below which the position is flagged:
    /// the factor grown by the warning margin.
    pub open spec fn warn_threshold_spec(self) -> int {
        fixed_mul_spec(
            self.collateral_factor.inner as int,
            ONE + self.under_collaterized_warn_percent.parts * PERCENT_ONE,
        )
    }

    /// The position's collateralization ratio, collateral over debt,
    /// meaningful only with outstanding debt.
    pub open spec fn current_ratio_spec(self) -> int {
        fixed_div_spec(
            self.collateral_balance.inner as int,
            self.borrower_balance_with_interest.inner as int,
        )
    }

    /// Whether the position is approaching liquidation: its ratio has
    /// fallen below the factor grown by the warning margin. A debt-free
    /// position is never flagged.
    pub fn soon_under_collaterized(&self) -> (r: Result<bool, Error>)
        requires
            self.is_valid(),
        ensures
            self.borrower_balance_with_interest.inner == 0 ==> r == Ok::<bool, Error>(false),
            self.borrower_balance_with_interest.inner > 0 && self.current_ratio_spec()
                > u128::MAX ==> r == Err::<bool, Error>(Error::Overflow),
            self.borrower_balance_with_interest.inner > 0 && self.current_ratio_spec()
                <= u128::MAX && self.warn_threshold_spec() > u128::MAX ==> r == Err::<
                bool,
                Error,
            >(Error::Overflow),
            self.borrower_balance_with_interest.inner > 0 && self.current_ratio_spec()
                <= u128::MAX && self.warn_threshold_spec() <= u128::MAX ==> r == Ok::<
                bool,
                Error,
            >(self.current_ratio_spec() < self.warn_threshold_spec()),
    {
        if self.borrower_balance_with_interest.inner == 0 {
            return Ok(false);
        }
        let ratio = match self.collateral_balance.checked_div(
            &self.borrower_balance_with_interest,
        ) {
            Some(q) => q,
            None => {
                return Err(Error::Overflow);
            },
        };
        let margin: u128 = (self.under_collaterized_warn_percent.parts as u128) * PERCENT_ONE;
        let scaled = FixedU128 { inner: ONE + margin };
        match self.collateral_factor.checked_mul(&scaled) {
            Some(threshold) => Ok(ratio.inner < threshold.inner),
            None => Err(Error::Overflow),
        }
    }

    /// Whether the position is outright insolvent under the market's
    /// policy: its ratio has fallen below the bare factor. This is the
    /// strict boundary inside the warning boundary above.
    pub fn should_liquidate(&self) -> (r: Result<bool, Error>)
        requires
            self.is_valid(),
        ensures
            self.borrower_balance_with_interest.inner == 0 ==> r == Ok::<bool, Error>(false),
            self.borrower_balance_with_interest.inner > 0 && self.current_ratio_spec()
                > u128::MAX ==> r == Err::<bool, Error>(Error::Overflow),
            self.borrower_balance_with_interest.inner > 0 && self.current_ratio_spec()
                <= u128::MAX ==> r == Ok::<bool, Error>(
                self.current_ratio_spec() < self.collateral_factor.inner,
            ),
    {
        if self.borrower_balance_with_interest.inner == 0 {
            return Ok(false);
        }
        match self.collateral_balance.checked_div(&self.borrower_balance_with_interest) {
            Some(ratio) => Ok(ratio.inner < self.collateral_factor.inner),
            None => Err(Error::Overflow),
        }
    }
}

} // verus!
