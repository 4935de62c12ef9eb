//! Interest accrual over elapsed time.
//!
//! Once per tick a market's borrow rate (from current utilization) is
//! scaled to the elapsed period, the outstanding debt grows by
//! `total_borrows * rate_for_period`, and the cumulative borrow index is
//! multiplied by `1 + rate_for_period`. All products run through the
//! lifted fixed-point domain; overflow aborts the accrual with an error
//! instead of wrapping.

use crate::errors::Error;
use crate::math::{
    div_nearest, fixed_mul_spec, lemma_div_nearest_parts, lemma_div_nearest_strictly_ordered,
    FixedU128, Percent, ONE, SECONDS_PER_YEAR,
};
use crate::rate_model::InterestRateModel;
use vstd::arithmetic::div_mod::{
    lemma_div_is_ordered, lemma_div_multiples_vanish_fancy, lemma_div_nonincreasing,
    lemma_div_pos_is_pos,
};
use vstd::prelude::*;

verus! {

/// The annualized rate `rate` (scaled by [`ONE`]) prorated to an elapsed
/// period of `delta_time` seconds, rounded to nearest.
pub open spec fn rate_for_period_spec(rate: int, delta_time: int) -> int {
    div_nearest(rate * delta_time, SECONDS_PER_YEAR as int)
}

/// The interest added to a debt of `total_borrows` over the period.
pub open spec fn accrued_increase_spec(rate: int, delta_time: int, total_borrows: int) -> int {
    total_borrows * rate_for_period_spec(rate, delta_time)
}

/// The borrow index after the period: the old index times
/// `1 + rate_for_period`, in the fixed-point domain.
pub open spec fn new_borrow_index_spec(rate: int, delta_time: int, borrow_index: int) -> int {
    fixed_mul_spec(borrow_index, ONE + rate_for_period_spec(rate, delta_time))
}

/// Whether every step of the accrual fits in 128 bits, so that the
/// operation succeeds rather than reporting overflow.
pub open spec fn accrual_fits(rate: int, delta_time: int, total_borrows: int, borrow_index: int)
    -> bool {
    &&& total_borrows * ONE <= u128::MAX
    &&& accrued_increase_spec(rate, delta_time, total_borrows) <= u128::MAX
    &&& new_borrow_index_spec(rate, delta_time, borrow_index) <= u128::MAX
}

/// Advances a market's accounting over `delta_time` elapsed seconds,
/// with the debt given in whole units (the balance already divided by
/// the fixed-point scale): returns the accrued interest as a lifted,
/// scale-[`ONE`] amount, and the new cumulative borrow index.
pub fn accrue_interest_internal(
    utilization: Percent,
    interest_rate_model: &InterestRateModel,
    borrow_index: FixedU128,
    delta_time: u64,
    total_borrows: u128,
) -> (r: Result<(u128, FixedU128), Error>)
    requires
        interest_rate_model.is_valid(),
        utilization.is_valid(),
    ensures
        ({
            let rate = interest_rate_model.rate_spec(utilization.parts as int);
            let acc = accrued_increase_spec(rate, delta_time as int, total_borrows as int);
            let ix = new_borrow_index_spec(rate, delta_time as int, borrow_index.inner as int);
            if accrual_fits(rate, delta_time as int, total_borrows as int,
                borrow_index.inner as int) {
                r == Ok::<(u128, FixedU128), Error>((acc as u128, FixedU128 { inner: ix as u128 }))
            } else {
                r == Err::<(u128, FixedU128), Error>(Error::Overflow)
            }
        }),
{
    let ghost grate = interest_rate_model.rate_spec(utilization.parts as int);
    let rate = match interest_rate_model.get_borrow_rate(utilization) {
        Some(rate) => rate,
        None => {
            return Err(Error::Overflow);
        },
    };
    proof {
        crate::rate_model::lemma_rate_spec_bounds_model(
            *interest_rate_model,
            utilization.parts as int,
        );
        assert(rate.inner * delta_time <= ONE * u64::MAX) by (nonlinear_arith)
            requires
                0 <= rate.inner <= ONE,
                0 <= delta_time <= u64::MAX,
        ;
    }
    let year: u128 = SECONDS_PER_YEAR as u128;
    let num: u128 = rate.inner * (delta_time as u128);
    let period_rate: u128 = (num + year / 2) / year;
    proof {
        lemma_div_nonincreasing((num + year / 2) as int, year as int);
        lemma_div_pos_is_pos((num + year / 2) as int, year as int);
        assert(period_rate == rate_for_period_spec(grate, delta_time as int));
    }
    if total_borrows.checked_mul(crate::math::ONE).is_none() {
        return Err(Error::Overflow);
    }
    let accrued = match total_borrows.checked_mul(period_rate) {
        Some(acc) => acc,
        None => {
            return Err(Error::Overflow);
        },
    };
    let factor = FixedU128 { inner: ONE + period_rate };
    match borrow_index.checked_mul(&factor) {
        Some(ix) => Ok((accrued, ix)),
        None => Err(Error::Overflow),
    }
}

/// The interest a debt of `total_borrowed` (in its asset's smallest
/// denomination) earns over the period: `total_borrowed *
/// rate_for_period`, truncated toward zero. Truncation means successive
/// short accruals can under-report against one long accrual, a
/// documented loss bounded by the tick granularity.
pub open spec fn accrued_balance_spec(rate: int, delta_time: int, total_borrowed: int) -> int {
    total_borrowed * rate_for_period_spec(rate, delta_time) / (ONE as int)
}

/// Whether a balance-domain accrual fits in 128 bits.
pub open spec fn balance_accrual_fits(
    rate: int,
    delta_time: int,
    total_borrowed: int,
    borrow_index: int,
) -> bool {
    &&& accrued_balance_spec(rate, delta_time, total_borrowed) <= u128::MAX
    &&& new_borrow_index_spec(rate, delta_time, borrow_index) <= u128::MAX
}

/// Advances a market's accounting over `delta_time` elapsed seconds,
/// with the debt given in its asset's smallest denomination: returns
/// the truncated interest to add to it, and the new borrow index.
pub fn accrue_on_balance(
    utilization: Percent,
    interest_rate_model: &InterestRateModel,
    borrow_index: FixedU128,
    delta_time: u64,
    total_borrowed: u128,
) -> (r: Result<(u128, FixedU128), Error>)
    requires
        interest_rate_model.is_valid(),
        utilization.is_valid(),
    ensures
        ({
            let rate = interest_rate_model.rate_spec(utilization.parts as int);
            let acc = accrued_balance_spec(rate, delta_time as int, total_borrowed as int);
            let ix = new_borrow_index_spec(rate, delta_time as int, borrow_index.inner as int);
            if balance_accrual_fits(rate, delta_time as int, total_borrowed as int,
                borrow_index.inner as int) {
                r == Ok::<(u128, FixedU128), Error>((acc as u128, FixedU128 { inner: ix as u128 }))
            } else {
                r == Err::<(u128, FixedU128), Error>(Error::Overflow)
            }
        }),
{
    let ghost grate = interest_rate_model.rate_spec(utilization.parts as int);
    let rate = match interest_rate_model.get_borrow_rate(utilization) {
        Some(rate) => rate,
        None => {
            return Err(Error::Overflow);
        },
    };
    proof {
        crate::rate_model::lemma_rate_spec_bounds_model(
            *interest_rate_model,
            utilization.parts as int,
        );
        assert(rate.inner * delta_time <= ONE * u64::MAX) by (nonlinear_arith)
            requires
                0 <= rate.inner <= ONE,
                0 <= delta_time <= u64::MAX,
        ;
    }
    let year: u128 = SECONDS_PER_YEAR as u128;
    let num: u128 = rate.inner * (delta_time as u128);
    let period_rate: u128 = (num + year / 2) / year;
    proof {
        lemma_div_nonincreasing((num + year / 2) as int, year as int);
        lemma_div_pos_is_pos((num + year / 2) as int, year as int);
        assert(period_rate == rate_for_period_spec(grate, delta_time as int));
    }
    let accrued = match crate::math::mul_div_floor(total_borrowed, period_rate, ONE) {
        Some(acc) => acc,
        None => {
            return Err(Error::Overflow);
        },
    };
    let factor = FixedU128 { inner: ONE + period_rate };
    match borrow_index.checked_mul(&factor) {
        Some(ix) => Ok((accrued, ix)),
        None => Err(Error::Overflow),
    }
}

/// With no debt there is nothing to accrue, and with no elapsed time both
/// the accrued interest and the borrow index are unchanged, whatever the
/// rate.
pub proof fn lemma_accrue_zero_identities(rate: int, delta_time: int, borrow_index: int)
    requires
        0 <= rate,
        0 <= delta_time,
        0 <= borrow_index,
    ensures
        accrued_increase_spec(rate, delta_time, 0) == 0,
        accrued_balance_spec(rate, delta_time, 0) == 0,
        rate_for_period_spec(rate, 0) == 0,
        accrued_increase_spec(rate, 0, borrow_index) == 0,
        accrued_balance_spec(rate, 0, borrow_index) == 0,
        new_borrow_index_spec(rate, 0, borrow_index) == borrow_index,
{
    assert(0int * rate_for_period_spec(rate, delta_time) == 0) by (nonlinear_arith);
    assert(0int / (ONE as int) == 0);
    let year = SECONDS_PER_YEAR as int;
    assert(rate * 0 == 0) by (nonlinear_arith);
    assert((year / 2) / year == 0) by {
        vstd::arithmetic::div_mod::lemma_basic_div(year / 2, year);
    }
    assert(rate_for_period_spec(rate, 0) == 0);
    assert(0 * rate_for_period_spec(rate, delta_time) == 0) by (nonlinear_arith);
    assert(borrow_index * 0 == 0) by (nonlinear_arith);
    assert(new_borrow_index_spec(rate, 0, borrow_index) == div_nearest(
        borrow_index * ONE,
        ONE as int,
    ));
    assert(borrow_index * ONE == ONE * borrow_index) by (nonlinear_arith);
    lemma_div_multiples_vanish_fancy(borrow_index, (ONE / 2) as int, ONE as int);
}

/// Monotonic accrual: over a longer period, a positive debt accrues
/// strictly more interest and the borrow index lands strictly higher.
/// The rate granule hypothesis `rate * (dt2 - dt1) >= SECONDS_PER_YEAR`
/// keeps the two periods at least one representable rate step apart;
/// below it rounding can make the two periods indistinguishable.
pub proof fn lemma_accrual_strictly_monotonic(
    rate: int,
    dt1: int,
    dt2: int,
    total_borrows: int,
    borrow_index: int,
)
    requires
        0 < rate,
        0 <= dt1 < dt2,
        rate * (dt2 - dt1) >= SECONDS_PER_YEAR,
        0 < total_borrows,
        ONE <= borrow_index,
    ensures
        rate_for_period_spec(rate, dt1) < rate_for_period_spec(rate, dt2),
        accrued_increase_spec(rate, dt1, total_borrows) < accrued_increase_spec(
            rate,
            dt2,
            total_borrows,
        ),
        new_borrow_index_spec(rate, dt1, borrow_index) < new_borrow_index_spec(
            rate,
            dt2,
            borrow_index,
        ),
{
    let year = SECONDS_PER_YEAR as int;
    let d1 = rate_for_period_spec(rate, dt1);
    let d2 = rate_for_period_spec(rate, dt2);
    assert(rate * dt1 + rate * (dt2 - dt1) == rate * dt2) by (nonlinear_arith);
    assert(0 <= rate * dt1) by (nonlinear_arith)
        requires
            0 < rate,
            0 <= dt1,
    ;
    lemma_div_nearest_strictly_ordered(rate * dt1, rate * dt2, year);
    assert(d1 < d2);
    lemma_div_pos_is_pos(rate * dt1 + year / 2, year);
    assert(0 <= d1);
    assert(total_borrows * d1 < total_borrows * d2) by (nonlinear_arith)
        requires
            0 < total_borrows,
            d1 < d2,
    ;
    assert(borrow_index * (ONE + d1) + ONE <= borrow_index * (ONE + d2)) by (nonlinear_arith)
        requires
            ONE <= borrow_index,
            d1 < d2,
    ;
    assert(0 <= borrow_index * (ONE + d1)) by (nonlinear_arith)
        requires
            0 <= borrow_index,
            0 <= d1,
    ;
    lemma_div_nearest_strictly_ordered(
        borrow_index * (ONE + d1),
        borrow_index * (ONE + d2),
        ONE as int,
    );
}

/// Monotonic accrual in the balance domain: over a longer period a
/// positive debt accrues strictly more, provided the two periods are at
/// least one rate granule apart and the debt is large enough that the
/// extra interest survives the final truncation (below that, successive
/// short accruals under-report by design).
pub proof fn lemma_balance_accrual_strictly_monotonic(
    rate: int,
    dt1: int,
    dt2: int,
    total_borrowed: int,
    borrow_index: int,
)
    requires
        0 < rate,
        0 <= dt1 < dt2,
        rate * (dt2 - dt1) >= SECONDS_PER_YEAR,
        0 < total_borrowed,
        total_borrowed * (rate_for_period_spec(rate, dt2) - rate_for_period_spec(rate, dt1))
            >= ONE,
        ONE <= borrow_index,
    ensures
        accrued_balance_spec(rate, dt1, total_borrowed) < accrued_balance_spec(
            rate,
            dt2,
            total_borrowed,
        ),
        new_borrow_index_spec(rate, dt1, borrow_index) < new_borrow_index_spec(
            rate,
            dt2,
            borrow_index,
        ),
{
    lemma_accrual_strictly_monotonic(rate, dt1, dt2, total_borrowed, borrow_index);
    let year = SECONDS_PER_YEAR as int;
    let d1 = rate_for_period_spec(rate, dt1);
    let d2 = rate_for_period_spec(rate, dt2);
    assert(0 <= rate * dt1) by (nonlinear_arith)
        requires
            0 < rate,
            0 <= dt1,
    ;
    lemma_div_pos_is_pos(rate * dt1 + year / 2, year);
    assert(0 <= d1);
    let a1 = total_borrowed * d1;
    let a2 = total_borrowed * d2;
    assert(a2 - a1 == total_borrowed * (d2 - d1)) by (nonlinear_arith)
        requires
            a1 == total_borrowed * d1,
            a2 == total_borrowed * d2,
    ;
    assert(0 <= a1) by (nonlinear_arith)
        requires
            a1 == total_borrowed * d1,
            0 < total_borrowed,
            0 <= d1,
    ;
    lemma_div_is_ordered(a1 + ONE, a2, ONE as int);
    vstd::arithmetic::div_mod::lemma_div_plus_one(a1, ONE as int);
}

/// The borrow index never decreases under accrual.
pub proof fn lemma_new_index_at_least(rate: int, delta_time: int, borrow_index: int)
    requires
        0 <= rate,
        0 <= delta_time,
        ONE <= borrow_index,
    ensures
        new_borrow_index_spec(rate, delta_time, borrow_index) >= borrow_index,
{
    let year = SECONDS_PER_YEAR as int;
    let d = rate_for_period_spec(rate, delta_time);
    assert(0 <= rate * delta_time) by (nonlinear_arith)
        requires
            0 <= rate,
            0 <= delta_time,
    ;
    lemma_div_pos_is_pos(rate * delta_time + year / 2, year);
    assert(0 <= d);
    assert(borrow_index * ONE <= borrow_index * (ONE + d)) by (nonlinear_arith)
        requires
            0 <= borrow_index,
            0 <= d,
    ;
    crate::math::lemma_div_nearest_ordered(
        borrow_index * ONE,
        borrow_index * (ONE + d),
        ONE as int,
    );
    assert(div_nearest(borrow_index * ONE, ONE as int) == borrow_index) by {
        assert(borrow_index * ONE == ONE * borrow_index) by (nonlinear_arith);
        lemma_div_multiples_vanish_fancy(borrow_index, (ONE / 2) as int, ONE as int);
    }
}

/// Any positive debt and a period of at least one rate granule push the
/// borrow index strictly up.
pub proof fn lemma_index_strictly_increases(rate: int, delta_time: int, borrow_index: int)
    requires
        0 < rate,
        rate * delta_time >= SECONDS_PER_YEAR,
        ONE <= borrow_index,
    ensures
        new_borrow_index_spec(rate, delta_time, borrow_index) > borrow_index,
{
    let year = SECONDS_PER_YEAR as int;
    let d = rate_for_period_spec(rate, delta_time);
    assert(d >= 1) by {
        lemma_div_is_ordered(year + year / 2, rate * delta_time + year / 2, year);
        lemma_div_multiples_vanish_fancy(1, year / 2, year);
    }
    assert(borrow_index * ONE + ONE <= borrow_index * (ONE + d)) by (nonlinear_arith)
        requires
            ONE <= borrow_index,
            1 <= d,
    ;
    assert(0 <= borrow_index * ONE) by (nonlinear_arith)
        requires
            0 <= borrow_index,
    ;
    lemma_div_nearest_strictly_ordered(
        borrow_index * ONE,
        borrow_index * (ONE + d),
        ONE as int,
    );
    assert(div_nearest(borrow_index * ONE, ONE as int) == borrow_index) by {
        assert(borrow_index * ONE == ONE * borrow_index) by (nonlinear_arith);
        lemma_div_multiples_vanish_fancy(borrow_index, (ONE / 2) as int, ONE as int);
    }
}

} // verus!
