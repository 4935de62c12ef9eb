//! Interest-rate models: utilization in, annualized borrow rate out.
//!
//! The jump model interpolates linearly between a base rate at zero
//! utilization and a jump rate at the optimal utilization, then between
//! the jump rate and a full rate at one hundred percent. A valid curve is
//! non-decreasing, stays within `[0, 1]`, and puts its optimal point
//! strictly inside `(0%, 100%)`.

use crate::math::{FixedU128, Percent, ONE};
use vstd::arithmetic::div_mod::{lemma_div_is_ordered, lemma_div_multiples_vanish};
use vstd::prelude::*;

verus! {

/// The two-segment "jump" interest-rate curve.
#[derive(Clone, Copy, Debug, PartialEq, Eq, Structural)]
pub struct JumpModel {
    /// Annualized rate at zero utilization.
    pub base_rate: FixedU128,
    /// Annualized rate at the optimal utilization.
    pub jump_rate: FixedU128,
    /// Annualized rate at full utilization.
    pub full_rate: FixedU128,
    /// The utilization at which the second, steeper segment begins.
    pub target_utilization: Percent,
}

impl JumpModel {
    /// A well-formed curve: rates non-decreasing, each at most one, and
    /// the optimal utilization strictly between zero and one hundred.
    pub open spec fn is_valid(self) -> bool {
        &&& self.base_rate.inner <= self.jump_rate.inner
        &&& self.jump_rate.inner <= self.full_rate.inner
        &&& self.full_rate.inner <= ONE
        &&& 0 < self.target_utilization.parts < 100
    }

    /// Builds a model after validating the curve; `None` on an invalid one.
    pub fn new(
        base_rate: FixedU128,
        jump_rate: FixedU128,
        full_rate: FixedU128,
        target_utilization: Percent,
    ) -> (r: Option<JumpModel>)
        ensures
            r matches Some(m) ==> m == (JumpModel {
                base_rate,
                jump_rate,
                full_rate,
                target_utilization,
            }) && m.is_valid(),
            r is None ==> !(JumpModel {
                base_rate,
                jump_rate,
                full_rate,
                target_utilization,
            }).is_valid(),
    {
        let model = JumpModel { base_rate, jump_rate, full_rate, target_utilization };
        if base_rate.inner <= jump_rate.inner && jump_rate.inner <= full_rate.inner
            && full_rate.inner <= ONE && 0 < target_utilization.parts
            && target_utilization.parts < 100 {
            Some(model)
        } else {
            None
        }
    }

    /// The annualized borrow rate at utilization `u` (whole percentage
    /// points), as the scaled fixed-point integer: linear interpolation on
    /// the segment that `u` falls in, each division truncating.
    pub open spec fn rate_spec(self, u: int) -> int {
        let t = self.target_utilization.parts as int;
        if u <= t {
            self.base_rate.inner + (self.jump_rate.inner - self.base_rate.inner) * u / t
        } else {
            self.jump_rate.inner + (self.full_rate.inner - self.jump_rate.inner) * (u - t) / (
            100 - t)
        }
    }

    /// The borrow rate for a given utilization.
    pub fn get_borrow_rate(&self, utilization: Percent) -> (r: Option<FixedU128>)
        requires
            self.is_valid(),
            utilization.is_valid(),
        ensures
            r == Some(FixedU128 { inner: self.rate_spec(utilization.parts as int) as u128 }),
    {
        proof {
            lemma_rate_spec_bounds(*self, utilization.parts as int);
        }
        let u = utilization.parts;
        let t = self.target_utilization.parts;
        if u <= t {
            let slope: u128 = self.jump_rate.inner - self.base_rate.inner;
            assert(slope * u <= slope * t && slope * t <= ONE * 100) by (nonlinear_arith)
                requires
                    0 <= u <= t <= 100,
                    0 <= slope <= ONE,
            ;
            let delta: u128 = slope * (u as u128) / (t as u128);
            Some(FixedU128 { inner: self.base_rate.inner + delta })
        } else {
            let slope: u128 = self.full_rate.inner - self.jump_rate.inner;
            assert(slope * (u - t) <= slope * (100 - t) && slope * (100 - t) <= ONE * 100)
                by (nonlinear_arith)
                requires
                    0 <= u - t <= 100 - t <= 100,
                    0 <= slope <= ONE,
            ;
            let delta: u128 = slope * ((u - t) as u128) / ((100 - t) as u128);
            Some(FixedU128 { inner: self.jump_rate.inner + delta })
        }
    }
}

/// On a valid curve the rate is bracketed by the segment's end rates, so
/// it never leaves `[base_rate, full_rate]`, and in particular stays at
/// most one.
pub proof fn lemma_rate_spec_bounds(m: JumpModel, u: int)
    requires
        m.is_valid(),
        0 <= u <= 100,
    ensures
        m.base_rate.inner <= m.rate_spec(u) <= m.full_rate.inner,
{
    let t = m.target_utilization.parts as int;
    if u <= t {
        let slope = m.jump_rate.inner - m.base_rate.inner;
        assert(0 <= slope * u) by (nonlinear_arith)
            requires
                0 <= slope,
                0 <= u,
        ;
        assert(slope * u <= t * slope) by (nonlinear_arith)
            requires
                0 <= u <= t,
                0 <= slope,
        ;
        lemma_div_is_ordered(slope * u, t * slope, t);
        lemma_div_multiples_vanish(slope, t);
        vstd::arithmetic::div_mod::lemma_div_pos_is_pos(slope * u, t);
    } else {
        let span = 100 - t;
        let slope = m.full_rate.inner - m.jump_rate.inner;
        assert(0 <= slope * (u - t)) by (nonlinear_arith)
            requires
                0 <= slope,
                t < u,
        ;
        assert(slope * (u - t) <= span * slope) by (nonlinear_arith)
            requires
                0 <= u - t <= span,
                0 <= slope,
        ;
        lemma_div_is_ordered(slope * (u - t), span * slope, span);
        lemma_div_multiples_vanish(slope, span);
        vstd::arithmetic::div_mod::lemma_div_pos_is_pos(slope * (u - t), span);
    }
}

/// The bounds of [`lemma_rate_spec_bounds`], lifted to the tagged model:
/// a valid model's rate never leaves `[0, ONE]`.
pub proof fn lemma_rate_spec_bounds_model(m: InterestRateModel, u: int)
    requires
        m.is_valid(),
        0 <= u <= 100,
    ensures
        0 <= m.rate_spec(u) <= ONE,
{
    match m {
        InterestRateModel::Jump(j) => lemma_rate_spec_bounds(j, u),
    }
}

/// A tagged interest-rate model; the jump curve is the one concrete kind.
#[derive(Clone, Copy, Debug, PartialEq, Eq, Structural)]
pub enum InterestRateModel {
    /// The two-segment jump curve.
    Jump(JumpModel),
}

impl InterestRateModel {
    /// A well-formed model.
    pub open spec fn is_valid(self) -> bool {
        match self {
            InterestRateModel::Jump(m) => m.is_valid(),
        }
    }

    /// The annualized borrow rate at utilization `u`, as the scaled
    /// fixed-point integer.
    pub open spec fn rate_spec(self, u: int) -> int {
        match self {
            InterestRateModel::Jump(m) => m.rate_spec(u),
        }
    }

    /// The borrow rate for a given utilization.
    pub fn get_borrow_rate(&self, utilization: Percent) -> (r: Option<FixedU128>)
        requires
            self.is_valid(),
            utilization.is_valid(),
        ensures
            r == Some(FixedU128 { inner: self.rate_spec(utilization.parts as int) as u128 }),
    {
        match self {
            InterestRateModel::Jump(m) => m.get_borrow_rate(utilization),
        }
    }
}

impl Default for InterestRateModel {
    /// The stock curve: 2% at rest, 10% at the optimal 80% utilization,
    /// 32% when fully drawn.
    fn default() -> (r: InterestRateModel)
        ensures
            r == InterestRateModel::Jump(
                JumpModel {
                    base_rate: FixedU128 { inner: 20_000_000_000_000_000 },
                    jump_rate: FixedU128 { inner: 100_000_000_000_000_000 },
                    full_rate: FixedU128 { inner: 320_000_000_000_000_000 },
                    target_utilization: Percent { parts: 80 },
                },
            ),
            r.is_valid(),
    {
        InterestRateModel::Jump(
            JumpModel {
                base_rate: FixedU128 { inner: 20_000_000_000_000_000 },
                jump_rate: FixedU128 { inner: 100_000_000_000_000_000 },
                full_rate: FixedU128 { inner: 320_000_000_000_000_000 },
                target_utilization: Percent { parts: 80 },
            },
        )
    }
}

} // verus!
