//! Currency identifiers.
//!
//! Assets are named by a plain 128-bit identifier; the zero identifier is
//! reserved as invalid. Every currency in this system carries twelve
//! decimal places, so one unit is `10^12` of its smallest denomination.

use vstd::prelude::*;

verus! {

/// Trait used to write generalized code over well-known currencies.
pub trait WellKnownCurrency: Sized {
    /// The chain's own token.
    fn native() -> Self;

    /// The relay token, or the native token where no relay is involved.
    fn relay_native() -> Self;
}

/// Identifier of an asset. Zero is reserved and never names an asset.
#[derive(Clone, Copy, Debug, PartialEq, Eq, PartialOrd, Ord, Hash, Structural)]
pub struct CurrencyId(pub u128);

impl CurrencyId {
    /// Decimal places every currency carries.
    pub fn decimals() -> (r: u32)
        ensures
            r == 12,
    {
        12
    }

    /// Smallest denominations in one unit: `10^decimals`.
    pub fn unit() -> (r: u128)
        ensures
            r == 1_000_000_000_000u128,
    {
        1_000_000_000_000
    }

    /// Smallest denominations in a thousandth of a unit.
    pub fn milli() -> (r: u128)
        ensures
            r == 1_000_000_000u128,
    {
        1_000_000_000
    }
}

impl WellKnownCurrency for CurrencyId {
    fn native() -> Self {
        CurrencyId(1)
    }

    fn relay_native() -> Self {
        CurrencyId(4)
    }
}

/// Validator for currency identifiers: accepts everything but the
/// reserved zero identifier.
#[derive(Clone, Copy, Debug, PartialEq, Eq, Structural)]
pub struct ValidateCurrencyId;

impl ValidateCurrencyId {
    /// Passes a currency identifier through, rejecting the reserved zero.
    pub fn validate(input: CurrencyId) -> (r: Result<CurrencyId, &'static str>)
        ensures
            input.0 != 0 ==> r == Ok::<CurrencyId, &'static str>(input),
            input.0 == 0 ==> r is Err,
    {
        if input.0 != 0 {
            Ok(input)
        } else {
            Err("Invalid Currency")
        }
    }
}

} // verus!
