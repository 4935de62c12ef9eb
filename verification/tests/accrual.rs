use lending_core::accrual::accrue_interest_internal;
use lending_core::math::{calc_utilization_ratio, FixedU128, Percent, ONE, SECONDS_PER_YEAR};
use lending_core::rate_model::{InterestRateModel, JumpModel};
use lending_core::risk::BorrowerData;

const MILLISECS_PER_BLOCK: u64 = 6000;

/// Some model with sane parameters.
fn new_jump_model() -> (Percent, InterestRateModel) {
    let base_rate = FixedU128::saturating_from_rational(2, 100);
    let jump_rate = FixedU128::saturating_from_rational(10, 100);
    let full_rate = FixedU128::saturating_from_rational(32, 100);
    let optimal = Percent::from_percent(80);
    let interest_rate_model = InterestRateModel::Jump(
        JumpModel::new(base_rate, jump_rate, full_rate, optimal).unwrap(),
    );
    (optimal, interest_rate_model)
}

#[test]
fn accrue_interest_base_cases() {
    let (optimal, interest_rate_model) = new_jump_model();
    let stable_rate = interest_rate_model.get_borrow_rate(optimal).unwrap();
    assert_eq!(stable_rate, FixedU128::saturating_from_rational(10, 100));
    let borrow_index = FixedU128::saturating_from_integer(1);
    let delta_time = SECONDS_PER_YEAR;
    let total_issued = 100_000_000_000_000_000_000u128;
    let accrued_debt = 0u128;
    let total_borrows = (total_issued - accrued_debt) / ONE;
    let (accrued_increase, _) = accrue_interest_internal(
        optimal,
        &interest_rate_model,
        borrow_index,
        delta_time,
        total_borrows,
    )
    .unwrap();
    assert_eq!(accrued_increase, 10_000_000_000_000_000_000);

    let delta_time = MILLISECS_PER_BLOCK;
    let (accrued_increase, _) = accrue_interest_internal(
        optimal,
        &interest_rate_model,
        borrow_index,
        delta_time,
        total_borrows,
    )
    .unwrap();
    // Small increments instead of one year lead to some loss by design
    // (rounding at the period-rate step).
    let error = 25;
    assert_eq!(
        accrued_increase,
        10_000_000_000_000_000_000 * MILLISECS_PER_BLOCK as u128 / SECONDS_PER_YEAR as u128
            + error
    );
}

#[test]
fn accrue_interest_edge_cases() {
    let (_, interest_rate_model) = new_jump_model();
    let utilization = Percent::from_percent(100);
    let borrow_index = FixedU128::saturating_from_integer(1);
    let delta_time = SECONDS_PER_YEAR;
    let total_issued = u128::MAX;
    let accrued_debt = 0u128;
    let total_borrows = (total_issued - accrued_debt) / ONE;
    let (accrued_increase, _) = accrue_interest_internal(
        utilization,
        &interest_rate_model,
        borrow_index,
        delta_time,
        total_borrows,
    )
    .unwrap();
    assert_eq!(accrued_increase, 108890357414700308308160000000000000000);

    let (accrued_increase, _) = accrue_interest_internal(
        utilization,
        &interest_rate_model,
        borrow_index,
        delta_time,
        0,
    )
    .unwrap();
    assert_eq!(accrued_increase, 0);
}

#[test]
fn accrue_interest_induction() {
    let borrow_index = FixedU128::saturating_from_integer(1);
    // Current precision and the minimal time delta do not allow accruing
    // on less than this power of ten.
    let minimal: u32 = 18;
    let accrued_debt = 0u128;
    let slots: [u64; 7] = [0, 1, 2, 100, 5_000, 2_628_000, 10_511_999];
    for &slot in slots.iter() {
        for power in minimal..=35 {
            let total_issued = 10u128.pow(power);
            let (optimal, interest_rate_model) = new_jump_model();
            let (accrued_increase_1, borrow_index_1) = accrue_interest_internal(
                optimal,
                &interest_rate_model,
                borrow_index,
                slot * MILLISECS_PER_BLOCK,
                (total_issued - accrued_debt) / ONE,
            )
            .unwrap();
            let (accrued_increase_2, borrow_index_2) = accrue_interest_internal(
                optimal,
                &interest_rate_model,
                borrow_index,
                (slot + 1) * MILLISECS_PER_BLOCK,
                (total_issued - accrued_debt) / ONE,
            )
            .unwrap();
            assert!(accrued_increase_1 < accrued_increase_2);
            assert!(borrow_index_1 < borrow_index_2);
        }
    }
}

#[test]
fn accrue_interest_plotter() {
    let (optimal, interest_rate_model) = new_jump_model();
    let borrow_index = FixedU128::checked_from_integer(1).unwrap();
    let total_issued = 10_000_000u128;
    let accrued_debt = 0u128;
    let total_borrows = (total_issued - accrued_debt) / ONE;
    let mut previous = 0u128;
    for _x in 0..=1000 {
        let (accrue_increment, _) = accrue_interest_internal(
            optimal,
            &interest_rate_model,
            borrow_index,
            MILLISECS_PER_BLOCK,
            total_borrows,
        )
        .unwrap();
        previous += accrue_increment;
    }
    let (total_accrued, _) = accrue_interest_internal(
        optimal,
        &interest_rate_model,
        FixedU128::checked_from_integer(1).unwrap(),
        1000 * MILLISECS_PER_BLOCK,
        total_borrows,
    )
    .unwrap();
    assert_eq!(previous, total_accrued);
}

#[test]
fn test_calc_utilization_ratio() {
    // 50% borrow
    assert_eq!(calc_utilization_ratio(1, 1).unwrap(), Percent::from_percent(50));
    assert_eq!(calc_utilization_ratio(100, 100).unwrap(), Percent::from_percent(50));
    // no borrow
    assert_eq!(calc_utilization_ratio(1, 0).unwrap(), Percent::zero());
    // full borrow
    assert_eq!(calc_utilization_ratio(0, 1).unwrap(), Percent::from_percent(100));
}

#[test]
fn test_borrow_math() {
    let borrower = BorrowerData::new(
        100,
        0,
        FixedU128::saturating_from_rational(100, 100),
        Percent::from_percent(10),
    );
    let borrow = borrower.borrow_for_collateral().unwrap();
    assert_eq!(borrow, FixedU128::saturating_from_integer(100));
}

#[test]
fn borrow_limit_is_total_and_floors_at_zero() {
    // Whatever the priced collateral and debt, the limit computation
    // succeeds; a debt beyond the usable collateral floors it at zero.
    let factor = FixedU128::saturating_from_integer(1);
    let warn = Percent::from_percent(10);
    let big = u32::MAX as u128 * u32::MAX as u128;
    for &collateral in &[0u128, 1, 1_000, u32::MAX as u128, big] {
        for &debt in &[0u128, 1, 999, u32::MAX as u128, big] {
            let borrower = BorrowerData::new(collateral, debt, factor, warn);
            let limit = borrower.borrow_for_collateral().unwrap();
            if debt >= collateral {
                assert_eq!(limit, FixedU128::zero());
            } else {
                assert!(limit.into_inner() > 0);
            }
        }
    }
}

#[test]
fn rate_interpolation_between_segments() {
    let (_, interest_rate_model) = new_jump_model();
    // Halfway to the optimal point: 2% + (10% - 2%) * 40 / 80 = 6%.
    let rate = interest_rate_model
        .get_borrow_rate(Percent::from_percent(40))
        .unwrap();
    assert_eq!(rate, FixedU128::saturating_from_rational(6, 100));
    // Halfway into the steep segment: 10% + (32% - 10%) * 10 / 20 = 21%.
    let rate = interest_rate_model
        .get_borrow_rate(Percent::from_percent(90))
        .unwrap();
    assert_eq!(rate, FixedU128::saturating_from_rational(21, 100));
    // Zero utilization earns the base rate alone.
    let rate = interest_rate_model.get_borrow_rate(Percent::zero()).unwrap();
    assert_eq!(rate, FixedU128::saturating_from_rational(2, 100));
}

#[test]
fn invalid_rate_models_are_rejected() {
    let two = FixedU128::saturating_from_rational(2, 100);
    let ten = FixedU128::saturating_from_rational(10, 100);
    let thirty_two = FixedU128::saturating_from_rational(32, 100);
    // Decreasing curves are refused.
    assert!(JumpModel::new(ten, two, thirty_two, Percent::from_percent(80)).is_none());
    assert!(JumpModel::new(two, thirty_two, ten, Percent::from_percent(80)).is_none());
    // The optimal utilization must lie strictly inside (0%, 100%).
    assert!(JumpModel::new(two, ten, thirty_two, Percent::from_percent(0)).is_none());
    assert!(JumpModel::new(two, ten, thirty_two, Percent::from_percent(100)).is_none());
    // A rate above one is no percentage.
    let two_hundred = FixedU128::saturating_from_rational(200, 100);
    assert!(JumpModel::new(two, ten, two_hundred, Percent::from_percent(80)).is_none());
    // The stock curve is fine.
    assert!(JumpModel::new(two, ten, thirty_two, Percent::from_percent(80)).is_some());
}

#[test]
fn zero_debt_accrues_nothing_at_any_rate() {
    let (_, interest_rate_model) = new_jump_model();
    let one = FixedU128::saturating_from_integer(1);
    for percent in [0u8, 1, 50, 80, 99, 100] {
        let (accrued, index) = accrue_interest_internal(
            Percent::from_percent(percent),
            &interest_rate_model,
            one,
            SECONDS_PER_YEAR,
            0,
        )
        .unwrap();
        assert_eq!(accrued, 0);
        assert!(index > one);
    }
    // No elapsed time: nothing accrues and the index stands still.
    let (accrued, index) = accrue_interest_internal(
        Percent::from_percent(80),
        &interest_rate_model,
        one,
        0,
        1_000_000,
    )
    .unwrap();
    assert_eq!(accrued, 0);
    assert_eq!(index, one);
}

#[test]
fn soon_under_collaterized_boundary() {
    // Factor 2 with a 10% warning margin flags below a ratio of 2.2.
    let factor = FixedU128::saturating_from_rational(2, 1);
    let warn = Percent::from_percent(10);
    // Ratio 2.25: safe.
    let borrower = BorrowerData::new(180, 80, factor, warn);
    assert_eq!(borrower.soon_under_collaterized(), Ok(false));
    // Ratio 2.175: flagged.
    let borrower = BorrowerData::new(174, 80, factor, warn);
    assert_eq!(borrower.soon_under_collaterized(), Ok(true));
    // Ratio exactly 2.2: not yet flagged (strictly below the boundary).
    let borrower = BorrowerData::new(176, 80, factor, warn);
    assert_eq!(borrower.soon_under_collaterized(), Ok(false));
    // Insolvency proper is the bare factor.
    let borrower = BorrowerData::new(159, 80, factor, warn);
    assert_eq!(borrower.should_liquidate(), Ok(true));
    let borrower = BorrowerData::new(160, 80, factor, warn);
    assert_eq!(borrower.should_liquidate(), Ok(false));
    // No debt, no flag.
    let borrower = BorrowerData::new(0, 0, factor, warn);
    assert_eq!(borrower.soon_under_collaterized(), Ok(false));
}
