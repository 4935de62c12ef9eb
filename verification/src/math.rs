//! Fixed-point arithmetic with 18 decimal digits of precision.
//!
//! Rates, indices and lifted balances are all carried as a [`FixedU128`]:
//! an unsigned 128-bit integer holding the value scaled by `10^18`.
//! Products and quotients are computed over a 256-bit intermediate so that
//! `rate * time * amount` chains lose no precision before the final
//! truncation, and every division rounds to the nearest representable
//! value (ties away from zero).

use crate::errors::Error;
use vstd::arithmetic::div_mod::{
    lemma_div_is_ordered, lemma_div_multiples_vanish, lemma_div_multiples_vanish_fancy,
    lemma_fundamental_div_mod, lemma_mod_bound,
};
use vstd::arithmetic::mul::lemma_mul_inequality;
use vstd::prelude::*;

verus! {

/// The fixed-point scale: one whole unit, `10^18`.
pub const ONE: u128 = 1_000_000_000_000_000_000;

/// Seconds in the year over which annualized rates are quoted.
pub const SECONDS_PER_YEAR: u64 = 31_536_000;

/// One percentage point in the fixed-point scale: `ONE / 100`.
pub const PERCENT_ONE: u128 = 10_000_000_000_000_000;

/// Quotient of `a / b` rounded to the nearest integer, ties rounded up,
/// meaningful for `a >= 0` and `b > 0`.
pub open spec fn div_nearest(a: int, b: int) -> int {
    (a + b / 2) / b
}

/// The value of `x * y` in the fixed-point domain: `x * y / ONE`,
/// rounded to nearest.
pub open spec fn fixed_mul_spec(x: int, y: int) -> int {
    div_nearest(x * y, ONE as int)
}

/// The value of `x / y` in the fixed-point domain: `x * ONE / y`,
/// rounded to nearest.
pub open spec fn fixed_div_spec(x: int, y: int) -> int {
    div_nearest(x * ONE, y)
}

/// Rounding to nearest adds at most one to the floored quotient, and adds
/// it exactly when twice the remainder reaches the divisor.
pub proof fn lemma_div_nearest_parts(x: int, c: int)
    requires
        0 <= x,
        0 < c,
    ensures
        div_nearest(x, c) == x / c + (if 2 * (x % c) >= c { 1int } else { 0int }),
        x / c <= div_nearest(x, c) <= x / c + 1,
{
    let q = x / c;
    let r = x % c;
    let h = c / 2;
    lemma_fundamental_div_mod(x, c);
    lemma_mod_bound(x, c);
    lemma_fundamental_div_mod(c, 2);
    lemma_mod_bound(c, 2);
    let t = r + h;
    assert(x + h == c * q + t);
    if t < c {
        lemma_div_multiples_vanish_fancy(q, t, c);
        assert((c * q + t) / c == q);
        assert(2 * r < c);
    } else {
        assert(c * (q + 1) + (t - c) == c * q + t) by (nonlinear_arith);
        assert(t - c < c);
        lemma_div_multiples_vanish_fancy(q + 1, t - c, c);
        assert((c * (q + 1) + (t - c)) / c == q + 1);
        assert(2 * r >= c);
    }
}

/// Rounding to nearest is monotone in the dividend.
pub proof fn lemma_div_nearest_ordered(a1: int, a2: int, c: int)
    requires
        0 <= a1 <= a2,
        0 < c,
    ensures
        div_nearest(a1, c) <= div_nearest(a2, c),
{
    lemma_div_is_ordered(a1 + c / 2, a2 + c / 2, c);
}

/// Growing the dividend by a full divisor grows the nearest-rounded
/// quotient strictly.
pub proof fn lemma_div_nearest_strictly_ordered(a1: int, a2: int, c: int)
    requires
        0 <= a1,
        a1 + c <= a2,
        0 < c,
    ensures
        div_nearest(a1, c) < div_nearest(a2, c),
{
    let h = c / 2;
    lemma_div_is_ordered(a1 + h + c, a2 + h, c);
    assert((a1 + h + c) / c == (a1 + h) / c + 1) by {
        lemma_fundamental_div_mod(a1 + h, c);
        lemma_mod_bound(a1 + h, c);
        let q = (a1 + h) / c;
        let r = (a1 + h) % c;
        assert(c * (q + 1) + r == a1 + h + c) by (nonlinear_arith)
            requires
                a1 + h == c * q + r,
        ;
        lemma_div_multiples_vanish_fancy(q + 1, r, c);
    }
}

/// Multiplying by a factor no larger than the divisor cannot grow the
/// value, even after rounding to nearest.
pub proof fn lemma_div_nearest_scale_le(x: int, y: int, c: int)
    requires
        0 <= x,
        0 <= y <= c,
        0 < c,
    ensures
        div_nearest(x * y, c) <= x,
{
    let h = c / 2;
    lemma_mul_inequality(y, c, x);
    assert(x * y <= x * c) by (nonlinear_arith)
        requires
            y <= c,
            0 <= x,
    ;
    lemma_div_is_ordered(x * y + h, x * c + h, c);
    lemma_fundamental_div_mod(c, 2);
    lemma_mod_bound(c, 2);
    lemma_div_multiples_vanish_fancy(x, h, c);
    assert((c * x + h) / c == x);
    assert(x * c == c * x) by (nonlinear_arith);
}

/// Relies on `primitive_types::U256::full_mul`, the exact 256-bit product
/// of two 128-bit values, and `primitive_types::U512::div_mod`, their
/// Euclidean quotient and remainder by a nonzero divisor: together they
/// compute `a * b / c` and `a * b % c` without intermediate overflow, and
/// a quotient beyond `u128::MAX` is reported as `None`.
#[verifier::external_body]
fn wide_mul_div_rem(a: u128, b: u128, c: u128) -> (r: Option<(u128, u128)>)
    requires
        c > 0,
    ensures
        a * b / (c as int) <= u128::MAX ==> r == Some(
            (((a * b) / (c as int)) as u128, ((a * b) % (c as int)) as u128),
        ),
        a * b / (c as int) > u128::MAX ==> r is None,
{
    let prod = primitive_types::U256::from(a).full_mul(primitive_types::U256::from(b));
    let (q, rem) = prod.div_mod(primitive_types::U512::from(c));
    match (u128::try_from(q), u128::try_from(rem)) {
        (Ok(q128), Ok(r128)) => Some((q128, r128)),
        _ => None,
    }
}

/// `a * b / c` rounded toward zero, or `None` when the quotient does not
/// fit in 128 bits.
pub fn mul_div_floor(a: u128, b: u128, c: u128) -> (r: Option<u128>)
    requires
        c > 0,
    ensures
        a * b / (c as int) <= u128::MAX ==> r == Some((a * b / (c as int)) as u128),
        a * b / (c as int) > u128::MAX ==> r is None,
{
    match wide_mul_div_rem(a, b, c) {
        Some((q, _)) => Some(q),
        None => None,
    }
}

/// `a * b / c` rounded to nearest (ties up), or `None` when the rounded
/// quotient does not fit in 128 bits.
pub fn mul_div_nearest(a: u128, b: u128, c: u128) -> (r: Option<u128>)
    requires
        c > 0,
    ensures
        div_nearest(a * b, c as int) <= u128::MAX ==> r == Some(
            div_nearest(a * b, c as int) as u128,
        ),
        div_nearest(a * b, c as int) > u128::MAX ==> r is None,
{
    proof {
        lemma_div_nearest_parts(a * b, c as int);
        lemma_mod_bound(a * b, c as int);
    }
    match wide_mul_div_rem(a, b, c) {
        None => None,
        Some((q, rem)) => {
            if rem >= c - rem {
                if q == u128::MAX {
                    None
                } else {
                    Some(q + 1)
                }
            } else {
                Some(q)
            }
        },
    }
}

/// An unsigned fixed-point number with 18 decimal places: the carried
/// integer is the value scaled by [`ONE`].
#[derive(Clone, Copy, Debug, PartialEq, Eq, PartialOrd, Ord, Hash, Structural)]
pub struct FixedU128 {
    /// The scaled representation: `inner == value * ONE`.
    pub inner: u128,
}

impl FixedU128 {
    /// The number one.
    pub fn one() -> (r: FixedU128)
        ensures
            r.inner == ONE,
    {
        FixedU128 { inner: ONE }
    }

    /// The number zero.
    pub fn zero() -> (r: FixedU128)
        ensures
            r.inner == 0,
    {
        FixedU128 { inner: 0 }
    }

    /// The scaled representation, as stored.
    pub fn into_inner(&self) -> (r: u128)
        ensures
            r == self.inner,
    {
        self.inner
    }

    /// Lifts an integer, or `None` when `n * ONE` does not fit.
    pub fn checked_from_integer(n: u128) -> (r: Option<FixedU128>)
        ensures
            n * ONE <= u128::MAX ==> r == Some(FixedU128 { inner: (n * ONE) as u128 }),
            n * ONE > u128::MAX ==> r is None,
    {
        match n.checked_mul(ONE) {
            Some(inner) => Some(FixedU128 { inner }),
            None => None,
        }
    }

    /// Lifts an integer, saturating at the largest representable value.
    pub fn saturating_from_integer(n: u128) -> (r: FixedU128)
        ensures
            r.inner == if n * ONE <= u128::MAX {
                n * ONE
            } else {
                u128::MAX as int
            },
    {
        match n.checked_mul(ONE) {
            Some(inner) => FixedU128 { inner },
            None => FixedU128 { inner: u128::MAX },
        }
    }

    /// The value `n / d`, rounded to nearest and saturating at the largest
    /// representable value.
    pub fn saturating_from_rational(n: u128, d: u128) -> (r: FixedU128)
        requires
            d > 0,
        ensures
            r.inner == if fixed_div_spec(n as int, d as int) <= u128::MAX {
                fixed_div_spec(n as int, d as int)
            } else {
                u128::MAX as int
            },
    {
        match mul_div_nearest(n, ONE, d) {
            Some(inner) => FixedU128 { inner },
            None => FixedU128 { inner: u128::MAX },
        }
    }

    /// Checked fixed-point addition.
    pub fn checked_add(&self, rhs: &FixedU128) -> (r: Option<FixedU128>)
        ensures
            self.inner + rhs.inner <= u128::MAX ==> r == Some(
                FixedU128 { inner: (self.inner + rhs.inner) as u128 },
            ),
            self.inner + rhs.inner > u128::MAX ==> r is None,
    {
        match self.inner.checked_add(rhs.inner) {
            Some(inner) => Some(FixedU128 { inner }),
            None => None,
        }
    }

    /// Fixed-point subtraction floored at zero.
    pub fn saturating_sub(&self, rhs: &FixedU128) -> (r: FixedU128)
        ensures
            r.inner == if self.inner >= rhs.inner {
                self.inner - rhs.inner
            } else {
                0int
            },
    {
        if self.inner >= rhs.inner {
            FixedU128 { inner: self.inner - rhs.inner }
        } else {
            FixedU128 { inner: 0 }
        }
    }

    /// Checked fixed-point multiplication, rounded to nearest.
    pub fn checked_mul(&self, rhs: &FixedU128) -> (r: Option<FixedU128>)
        ensures
            fixed_mul_spec(self.inner as int, rhs.inner as int) <= u128::MAX ==> r == Some(
                FixedU128 { inner: fixed_mul_spec(self.inner as int, rhs.inner as int) as u128 },
            ),
            fixed_mul_spec(self.inner as int, rhs.inner as int) > u128::MAX ==> r is None,
    {
        match mul_div_nearest(self.inner, rhs.inner, ONE) {
            Some(inner) => Some(FixedU128 { inner }),
            None => None,
        }
    }

    /// Checked fixed-point division, rounded to nearest; `None` on a zero
    /// divisor or an unrepresentable quotient.
    pub fn checked_div(&self, rhs: &FixedU128) -> (r: Option<FixedU128>)
        ensures
            rhs.inner == 0 ==> r is None,
            rhs.inner > 0 && fixed_div_spec(self.inner as int, rhs.inner as int) <= u128::MAX
                ==> r == Some(
                FixedU128 { inner: fixed_div_spec(self.inner as int, rhs.inner as int) as u128 },
            ),
            rhs.inner > 0 && fixed_div_spec(self.inner as int, rhs.inner as int) > u128::MAX
                ==> r is None,
    {
        if rhs.inner == 0 {
            None
        } else {
            match mul_div_nearest(self.inner, ONE, rhs.inner) {
                Some(inner) => Some(FixedU128 { inner }),
                None => None,
            }
        }
    }
}

/// A percentage quantized to whole points, `0..=100`.
#[derive(Clone, Copy, Debug, PartialEq, Eq, PartialOrd, Ord, Hash, Structural)]
pub struct Percent {
    /// Whole percentage points.
    pub parts: u8,
}

impl Percent {
    /// Whether the carried points stay within one hundred.
    pub open spec fn is_valid(self) -> bool {
        self.parts <= 100
    }

    /// A percentage from whole points, capped at one hundred.
    pub fn from_percent(p: u8) -> (r: Percent)
        ensures
            r.parts == if p <= 100 {
                p as int
            } else {
                100int
            },
            r.is_valid(),
    {
        if p <= 100 {
            Percent { parts: p }
        } else {
            Percent { parts: 100 }
        }
    }

    /// Zero percent.
    pub fn zero() -> (r: Percent)
        ensures
            r.parts == 0,
            r.is_valid(),
    {
        Percent { parts: 0 }
    }
}

/// Utilization of a market: `borrows / (cash + borrows)` in whole
/// percentage points, rounded down; zero when nothing is borrowed and one
/// hundred when borrows exist but no cash is left.
pub fn calc_utilization_ratio(cash: u128, borrows: u128) -> (r: Result<Percent, Error>)
    ensures
        borrows == 0 ==> r == Ok::<Percent, Error>(Percent { parts: 0 }),
        borrows > 0 && cash + borrows <= u128::MAX ==> r == Ok::<Percent, Error>(
            Percent { parts: (borrows * 100 / (cash + borrows)) as u8 },
        ),
        borrows > 0 && cash + borrows <= u128::MAX ==> 0 <= borrows * 100 / (cash + borrows)
            <= 100,
        borrows > 0 && cash + borrows > u128::MAX ==> r == Err::<Percent, Error>(Error::Overflow),
        cash == 0 && borrows > 0 ==> r == Ok::<Percent, Error>(Percent { parts: 100 }),
        r matches Ok(p) ==> p.is_valid(),
{
    if borrows == 0 {
        return Ok(Percent { parts: 0 });
    }
    let total = match cash.checked_add(borrows) {
        Some(t) => t,
        None => {
            return Err(Error::Overflow);
        },
    };
    proof {
        lemma_mul_inequality(borrows as int, total as int, 100);
        lemma_div_is_ordered(borrows * 100, total * 100, total as int);
        lemma_div_multiples_vanish(100, total as int);
        assert(total * 100 == (total as int) * 100) by (nonlinear_arith);
        assert((total as int) * 100 == 100 * (total as int)) by (nonlinear_arith);
    }
    match mul_div_floor(borrows, 100, total) {
        Some(q) => {
            assert(q <= 100);
            Ok(Percent { parts: q as u8 })
        },
        None => {
            // Unreachable: the quotient is at most one hundred.
            Err(Error::Overflow)
        },
    }
}

} // verus!
