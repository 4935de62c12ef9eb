use lending_core::currency::{CurrencyId, ValidateCurrencyId, WellKnownCurrency};
use lending_core::engine::{account_id, MarketIndex};
use lending_core::math::{calc_utilization_ratio, FixedU128, Percent, ONE};
use lending_core::Error;

#[test]
fn currency_units() {
    assert_eq!(CurrencyId::decimals(), 12);
    assert_eq!(CurrencyId::unit(), 1_000_000_000_000);
    assert_eq!(CurrencyId::milli(), 1_000_000_000);
    assert_eq!(CurrencyId::native(), CurrencyId(1));
    assert_eq!(CurrencyId::relay_native(), CurrencyId(4));
}

#[test]
fn currency_validation() {
    assert_eq!(ValidateCurrencyId::validate(CurrencyId(130)), Ok(CurrencyId(130)));
    assert!(ValidateCurrencyId::validate(CurrencyId(0)).is_err());
}

#[test]
fn fixed_point_construction() {
    assert_eq!(FixedU128::one().into_inner(), ONE);
    assert_eq!(FixedU128::zero().into_inner(), 0);
    assert_eq!(FixedU128::saturating_from_integer(7).into_inner(), 7 * ONE);
    // Lifting saturates rather than wrapping.
    assert_eq!(
        FixedU128::saturating_from_integer(u128::MAX).into_inner(),
        u128::MAX
    );
    assert_eq!(FixedU128::checked_from_integer(u128::MAX), None);
    // A rational is scaled, not handed back: 10/100 becomes 0.1.
    assert_eq!(
        FixedU128::saturating_from_rational(10, 100).into_inner(),
        ONE / 10
    );
    // One third rounds to the nearest 18-digit fixed-point value.
    assert_eq!(
        FixedU128::saturating_from_rational(1, 3).into_inner(),
        333_333_333_333_333_333
    );
    // Two thirds rounds up.
    assert_eq!(
        FixedU128::saturating_from_rational(2, 3).into_inner(),
        666_666_666_666_666_667
    );
}

#[test]
fn fixed_point_arithmetic() {
    let half = FixedU128::saturating_from_rational(1, 2);
    let three = FixedU128::saturating_from_integer(3);
    assert_eq!(
        three.checked_mul(&half),
        Some(FixedU128::saturating_from_rational(3, 2))
    );
    assert_eq!(
        three.checked_div(&half),
        Some(FixedU128::saturating_from_integer(6))
    );
    assert_eq!(three.checked_div(&FixedU128::zero()), None);
    let max = FixedU128 { inner: u128::MAX };
    assert_eq!(max.checked_mul(&three), None);
    assert_eq!(half.saturating_sub(&three), FixedU128::zero());
    assert_eq!(
        three.saturating_sub(&half),
        FixedU128::saturating_from_rational(5, 2)
    );
    assert_eq!(three.checked_add(&half), Some(FixedU128::saturating_from_rational(7, 2)));
    assert_eq!(max.checked_add(&three), None);
}

#[test]
fn utilization_overflow_is_reported() {
    assert_eq!(
        calc_utilization_ratio(u128::MAX, 1),
        Err(Error::Overflow)
    );
    assert_eq!(
        calc_utilization_ratio(u128::MAX - 1, 1).unwrap(),
        Percent::zero()
    );
}

#[test]
fn market_accounts_are_distinct() {
    let mut seen: Vec<u128> = Vec::new();
    for i in 0..32u32 {
        let account = account_id(MarketIndex(i));
        assert!(!seen.contains(&account));
        seen.push(account);
    }
}

#[test]
fn error_names_are_stable() {
    assert_eq!(Error::Overflow.as_str(), "overflow");
    assert_eq!(Error::MarketDoesNotExist.as_str(), "market does not exist");
    assert_eq!(
        Error::BorrowAndRepayInSameBlockIsNotSupported.as_str(),
        "borrow and repay in same block is not supported"
    );
    assert_eq!(
        Error::InvalidTimestampOnBorrowRequest.as_str(),
        "invalid timestamp on borrow request"
    );
    assert_eq!(
        Error::NotEnoughCollateralToBorrowAmount.as_str(),
        "not enough collateral to borrow amount"
    );
}
