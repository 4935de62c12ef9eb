//! The lending engine: per-market ledgers and their operations.
//!
//! The engine owns every market's ledger and each borrower's position,
//! keyed by `(market, account)`. It is a deterministic state machine
//! advanced by totally-ordered time ticks: [`LendingEngine::on_tick`]
//! accrues interest once per tick, and the remaining operations either
//! commit atomically or fail leaving all state unchanged. Prices and
//! vault settlements come in as plain values from the caller; custody
//! moves are instructed, never performed, by the engine.

use crate::accrual::{
    accrue_on_balance, accrued_balance_spec, balance_accrual_fits, new_borrow_index_spec,
};
use crate::currency::CurrencyId;
use crate::errors::Error;
use crate::math::{
    calc_utilization_ratio, div_nearest, fixed_div_spec, mul_div_floor, mul_div_nearest,
    FixedU128, Percent, ONE,
};
use crate::rate_model::InterestRateModel;
use crate::risk::BorrowerData;
use vstd::prelude::*;

verus! {

/// An amount of an asset, in its smallest denomination.
pub type Balance = u128;

/// A point in time; ticks carry strictly increasing timestamps.
pub type Timestamp = u64;

/// An account, named by a plain 128-bit identifier.
pub type AccountId = u128;

/// The denominations of one pricing unit: prices are quoted as the value
/// of `PRICE_SCALE` smallest denominations of an asset.
pub const PRICE_SCALE: u128 = 1_000_000_000_000;

/// The base from which every market's own account is derived.
pub const MARKET_ACCOUNT_SEED: u128 = 0x6d61726b65740000_00000000;

/// Identifier of a created market: its slot in the engine's ledger list.
#[derive(Clone, Copy, Debug, PartialEq, Eq, PartialOrd, Ord, Hash, Structural)]
pub struct MarketIndex(pub u32);

/// The account a market holds its funds under, derived from its index
/// alone; distinct markets always get distinct accounts.
pub open spec fn account_id_spec(market: MarketIndex) -> AccountId {
    (MARKET_ACCOUNT_SEED + market.0) as AccountId
}

/// The derived account of a market. See [`lemma_account_id_injective`].
pub fn account_id(market: MarketIndex) -> (r: AccountId)
    ensures
        r == account_id_spec(market),
{
    MARKET_ACCOUNT_SEED + (market.0 as u128)
}

/// Market isolation at the account level: two distinct markets never
/// share a derived account.
pub proof fn lemma_account_id_injective(m1: MarketIndex, m2: MarketIndex)
    requires
        m1.0 != m2.0,
    ensures
        account_id_spec(m1) != account_id_spec(m2),
{
}

/// Value of `amount` denominations at `price` (quote units per
/// [`PRICE_SCALE`] denominations), truncated.
pub open spec fn value_of_spec(amount: int, price: int) -> int {
    amount * price / (PRICE_SCALE as int)
}

/// Prices an amount; `None` when the value exceeds the 128-bit range.
pub fn value_of(amount: Balance, price: Balance) -> (r: Option<Balance>)
    ensures
        value_of_spec(amount as int, price as int) <= u128::MAX ==> r == Some(
            value_of_spec(amount as int, price as int) as u128,
        ),
        value_of_spec(amount as int, price as int) > u128::MAX ==> r is None,
{
    mul_div_floor(amount, price, PRICE_SCALE)
}

/// Immutable configuration of a market, fixed at creation.
#[derive(Clone, Copy, Debug, PartialEq, Eq, Structural)]
pub struct MarketConfig {
    /// The account that created and manages the market.
    pub manager: AccountId,
    /// The asset lent out.
    pub borrow_asset: CurrencyId,
    /// The asset accepted as collateral.
    pub collateral_asset: CurrencyId,
    /// The fraction of vault liquidity kept in reserve rather than made
    /// borrowable; applied by the vault, recorded here.
    pub reserved_factor: Percent,
    /// Required over-collateralization factor, at least one.
    pub collateral_factor: FixedU128,
    /// Warning margin for the undercollateralization flag.
    pub under_collaterized_warn_percent: Percent,
    /// The interest-rate curve of the market.
    pub interest_rate_model: InterestRateModel,
}

impl MarketConfig {
    /// A well-formed configuration.
    pub open spec fn is_valid(self) -> bool {
        &&& self.collateral_factor.inner >= ONE
        &&& self.under_collaterized_warn_percent.is_valid()
        &&& self.reserved_factor.is_valid()
        &&& self.interest_rate_model.is_valid()
    }
}

/// One borrower's standing in one market.
#[derive(Clone, Copy, Debug, PartialEq, Eq, Structural)]
pub struct BorrowerPosition {
    /// Deposited collateral, in collateral-asset denominations.
    pub collateral_balance: Balance,
    /// Debt principal recorded at the index snapshot below.
    pub debt_principal: Balance,
    /// The market's borrow index at the borrower's last borrow or repay;
    /// the live debt is `debt_principal * index_now / this`.
    pub borrow_principal_index: FixedU128,
    /// The tick of the last borrow, used to refuse a second borrow or a
    /// repay within that same tick; `None` before the first borrow.
    pub last_borrow_timestamp: Option<Timestamp>,
}

impl BorrowerPosition {
    /// A fresh position holding only collateral.
    pub open spec fn new_spec(collateral: Balance, index: FixedU128) -> BorrowerPosition {
        BorrowerPosition {
            collateral_balance: collateral,
            debt_principal: 0,
            borrow_principal_index: index,
            last_borrow_timestamp: None,
        }
    }

    /// The index snapshot is meaningful: at least one.
    pub open spec fn is_valid(self) -> bool {
        self.borrow_principal_index.inner >= ONE
    }
}

/// The live debt of a position under the market's current borrow index:
/// the principal scaled by the index growth since its snapshot.
pub open spec fn debt_with_interest_spec(pos: BorrowerPosition, index_now: int) -> int {
    if pos.debt_principal == 0 {
        0
    } else {
        div_nearest(pos.debt_principal * index_now, pos.borrow_principal_index.inner as int)
    }
}

/// The ghost image of a market: its counters and the borrower list.
pub struct MarketView {
    /// The immutable configuration.
    pub config: MarketConfig,
    /// Sum of deposited collateral, in collateral-asset denominations.
    pub total_collateral: Balance,
    /// Borrow-asset liquidity held by the market.
    pub total_cash: Balance,
    /// Outstanding principal plus accrued interest.
    pub total_borrowed: Balance,
    /// Cumulative interest multiplier, scaled by `10^18`.
    pub borrow_index: Balance,
    /// When interest was last accrued.
    pub last_accrual_timestamp: Timestamp,
    /// The borrower positions, keyed by account.
    pub borrowers: Seq<(AccountId, BorrowerPosition)>,
}

/// Mutable per-market state: the ledger counters and borrower positions.
#[derive(Debug)]
pub struct MarketState {
    /// The immutable configuration.
    pub config: MarketConfig,
    /// Sum of deposited collateral, in collateral-asset denominations.
    pub total_collateral: Balance,
    /// Borrow-asset liquidity currently held by the market.
    pub total_cash: Balance,
    /// Outstanding principal plus accrued interest.
    pub total_borrowed: Balance,
    /// Cumulative interest multiplier, starting at one, never decreasing.
    pub borrow_index: FixedU128,
    /// When interest was last accrued for this market.
    pub last_accrual_timestamp: Timestamp,
    /// The borrower positions, keyed by account, each key at most once.
    pub borrowers: Vec<(AccountId, BorrowerPosition)>,
}

impl View for MarketState {
    type V = MarketView;

    open spec fn view(&self) -> MarketView {
        MarketView {
            config: self.config,
            total_collateral: self.total_collateral,
            total_cash: self.total_cash,
            total_borrowed: self.total_borrowed,
            borrow_index: self.borrow_index.inner,
            last_accrual_timestamp: self.last_accrual_timestamp,
            borrowers: self.borrowers@,
        }
    }
}

/// The collateral deposited across all positions of a borrower list.
pub open spec fn sum_collateral(s: Seq<(AccountId, BorrowerPosition)>) -> int
    decreases s.len(),
{
    if s.len() == 0 {
        0
    } else {
        s[0].1.collateral_balance + sum_collateral(s.drop_first())
    }
}

/// Appending a position grows the collateral sum by its collateral.
pub proof fn lemma_sum_push(s: Seq<(AccountId, BorrowerPosition)>, x: (AccountId, BorrowerPosition))
    ensures
        sum_collateral(s.push(x)) == sum_collateral(s) + x.1.collateral_balance,
    decreases s.len(),
{
    if s.len() == 0 {
        assert(s.push(x).drop_first() =~= s);
    } else {
        lemma_sum_push(s.drop_first(), x);
        assert(s.push(x).drop_first() =~= s.drop_first().push(x));
    }
}

/// Replacing a position shifts the collateral sum by the difference of
/// the two positions' collateral.
pub proof fn lemma_sum_update(
    s: Seq<(AccountId, BorrowerPosition)>,
    i: int,
    x: (AccountId, BorrowerPosition),
)
    requires
        0 <= i < s.len(),
    ensures
        sum_collateral(s.update(i, x)) == sum_collateral(s) - s[i].1.collateral_balance
            + x.1.collateral_balance,
    decreases s.len(),
{
    if i == 0 {
        assert(s.update(0, x).drop_first() =~= s.drop_first());
    } else {
        lemma_sum_update(s.drop_first(), i - 1, x);
        assert(s.update(i, x).drop_first() =~= s.drop_first().update(i - 1, x));
    }
}

/// Removing a position takes exactly its collateral out of the sum.
pub proof fn lemma_sum_remove(s: Seq<(AccountId, BorrowerPosition)>, i: int)
    requires
        0 <= i < s.len(),
    ensures
        sum_collateral(s.remove(i)) == sum_collateral(s) - s[i].1.collateral_balance,
    decreases s.len(),
{
    if i == 0 {
        assert(s.remove(0) =~= s.drop_first());
    } else {
        lemma_sum_remove(s.drop_first(), i - 1);
        assert(s.remove(i).drop_first() =~= s.drop_first().remove(i - 1));
    }
}

/// Each position's collateral is bounded by the sum, and the sum is
/// never negative.
pub proof fn lemma_sum_element_le(s: Seq<(AccountId, BorrowerPosition)>, i: int)
    requires
        0 <= i < s.len(),
    ensures
        sum_collateral(s) >= 0,
        s[i].1.collateral_balance <= sum_collateral(s),
    decreases s.len(),
{
    lemma_sum_nonnegative(s.drop_first());
    if i > 0 {
        lemma_sum_element_le(s.drop_first(), i - 1);
    }
}

/// The collateral sum of any borrower list is nonnegative.
pub proof fn lemma_sum_nonnegative(s: Seq<(AccountId, BorrowerPosition)>)
    ensures
        sum_collateral(s) >= 0,
    decreases s.len(),
{
    if s.len() > 0 {
        lemma_sum_nonnegative(s.drop_first());
    }
}

/// No account appears twice in a borrower list.
pub open spec fn unique_accounts(s: Seq<(AccountId, BorrowerPosition)>) -> bool {
    forall|i: int, j: int| 0 <= i < j < s.len() ==> s[i].0 != s[j].0
}

/// Whether some position in `s` belongs to `account`.
pub open spec fn has_account(s: Seq<(AccountId, BorrowerPosition)>, account: AccountId) -> bool {
    exists|i: int| 0 <= i < s.len() && s[i].0 == account
}

impl MarketState {
    /// Well-formedness: valid configuration, an index that never fell
    /// below one, and one position per account with meaningful snapshots.
    pub open spec fn wf(self) -> bool {
        &&& self.config.is_valid()
        &&& self.borrow_index.inner >= ONE
        &&& unique_accounts(self.borrowers@)
        &&& self.total_collateral == sum_collateral(self.borrowers@)
        &&& forall|i: int| 0 <= i < self.borrowers@.len() ==> (#[trigger] self.borrowers@[i]).1.is_valid()
    }

    /// The ledger a market starts with: empty, index at one.
    pub open spec fn initial_spec(config: MarketConfig) -> MarketView {
        MarketView {
            config,
            total_collateral: 0,
            total_cash: 0,
            total_borrowed: 0,
            borrow_index: ONE,
            last_accrual_timestamp: 0,
            borrowers: Seq::empty(),
        }
    }
}

/// The slot of `account` in a borrower list; meaningful only when
/// [`has_account`] holds, and then unique under [`unique_accounts`].
pub open spec fn find_index(s: Seq<(AccountId, BorrowerPosition)>, account: AccountId) -> int {
    choose|i: int| 0 <= i < s.len() && s[i].0 == account
}

/// Under unique accounts, any slot holding `account` is the found slot.
pub proof fn lemma_find_index_unique(
    s: Seq<(AccountId, BorrowerPosition)>,
    account: AccountId,
    i: int,
)
    requires
        unique_accounts(s),
        0 <= i < s.len(),
        s[i].0 == account,
    ensures
        find_index(s, account) == i,
        has_account(s, account),
{
    assert(has_account(s, account));
    let j = find_index(s, account);
    assert(0 <= j < s.len() && s[j].0 == account);
    if i < j {
        assert(s[i].0 != s[j].0);
    } else if j < i {
        assert(s[j].0 != s[i].0);
    }
}

/// Finds the slot of `account` in a borrower list.
fn find_borrower(borrowers: &Vec<(AccountId, BorrowerPosition)>, account: AccountId) -> (r: Option<
    usize,
>)
    ensures
        r matches Some(i) ==> i < borrowers@.len() && borrowers@[i as int].0 == account,
        r is None ==> !has_account(borrowers@, account),
{
    let n = borrowers.len();
    let mut i: usize = 0;
    while i < n
        invariant
            n == borrowers@.len(),
            i <= n,
            forall|k: int| 0 <= k < i ==> borrowers@[k].0 != account,
        decreases n - i,
    {
        if borrowers[i].0 == account {
            return Some(i);
        }
        i = i + 1;
    }
    None
}

/// Replaces the position held in slot `i`.
fn set_position(
    borrowers: &mut Vec<(AccountId, BorrowerPosition)>,
    i: usize,
    entry: (AccountId, BorrowerPosition),
)
    requires
        i < old(borrowers)@.len(),
    ensures
        final(borrowers)@ == old(borrowers)@.update(i as int, entry),
{
    let slot = &mut borrowers[i];
    *slot = entry;
}

/// Whether a deposit fits the ledger's counters, and how it lands:
/// which error a deposit reports, or that it commits.
pub open spec fn deposit_outcome(pre: MarketView, account: AccountId, amount: Balance) -> Result<
    (),
    Error,
> {
    if pre.total_collateral + amount > u128::MAX {
        Err(Error::Overflow)
    } else {
        Ok(())
    }
}

/// The ledger after a successful deposit: the position's and the
/// market's collateral grow by the amount, everything else stands.
pub open spec fn deposit_ok_post(
    pre: MarketView,
    post: MarketView,
    account: AccountId,
    amount: Balance,
) -> bool {
    &&& post.config == pre.config
    &&& post.total_cash == pre.total_cash
    &&& post.total_borrowed == pre.total_borrowed
    &&& post.borrow_index == pre.borrow_index
    &&& post.last_accrual_timestamp == pre.last_accrual_timestamp
    &&& post.total_collateral == pre.total_collateral + amount
    &&& if has_account(pre.borrowers, account) {
        let i = find_index(pre.borrowers, account);
        let pos = pre.borrowers[i].1;
        post.borrowers =~= pre.borrowers.update(
            i,
            (
                account,
                BorrowerPosition {
                    collateral_balance: (pos.collateral_balance + amount) as Balance,
                    debt_principal: pos.debt_principal,
                    borrow_principal_index: pos.borrow_principal_index,
                    last_borrow_timestamp: pos.last_borrow_timestamp,
                },
            ),
        )
    } else {
        post.borrowers =~= pre.borrowers.push(
            (account, BorrowerPosition::new_spec(amount, FixedU128 { inner: pre.borrow_index })),
        )
    }
}

/// The live debt of a position, or `None` beyond the 128-bit range.
fn debt_with_interest(pos: &BorrowerPosition, index_now: FixedU128) -> (r: Option<Balance>)
    requires
        pos.is_valid(),
    ensures
        debt_with_interest_spec(*pos, index_now.inner as int) <= u128::MAX ==> r == Some(
            debt_with_interest_spec(*pos, index_now.inner as int) as u128,
        ),
        debt_with_interest_spec(*pos, index_now.inner as int) > u128::MAX ==> r is None,
{
    if pos.debt_principal == 0 {
        Some(0)
    } else {
        mul_div_nearest(pos.debt_principal, index_now.inner, pos.borrow_principal_index.inner)
    }
}

/// An integer value lifted to fixed point, saturating at the top of the
/// 128-bit range.
pub open spec fn sat_lift(v: int) -> int {
    if v * ONE <= u128::MAX {
        v * ONE
    } else {
        u128::MAX as int
    }
}

/// Whether, after taking `amount` of collateral away, the remaining
/// usable collateral (its value over the factor) still covers the
/// position's live debt value.
pub open spec fn remaining_collateral_covers(
    pre: MarketView,
    pos: BorrowerPosition,
    amount: Balance,
    collateral_price: Balance,
    borrow_price: Balance,
) -> bool {
    let debt = debt_with_interest_spec(pos, pre.borrow_index as int);
    let cval = value_of_spec(pos.collateral_balance - amount, collateral_price as int);
    let dval = value_of_spec(debt, borrow_price as int);
    fixed_div_spec(sat_lift(cval), pre.config.collateral_factor.inner as int) >= sat_lift(dval)
}

/// Which error a withdrawal reports, or that it commits: the amount must
/// not exceed the deposited collateral, and with outstanding debt the
/// remainder must keep the debt covered.
pub open spec fn withdraw_outcome(
    pre: MarketView,
    account: AccountId,
    amount: Balance,
    collateral_price: Balance,
    borrow_price: Balance,
) -> Result<(), Error> {
    if !has_account(pre.borrowers, account) {
        Err(Error::NotEnoughCollateral)
    } else {
        let pos = pre.borrowers[find_index(pre.borrowers, account)].1;
        let debt = debt_with_interest_spec(pos, pre.borrow_index as int);
        if amount > pos.collateral_balance {
            Err(Error::NotEnoughCollateral)
        } else if pos.debt_principal > 0 && debt > u128::MAX {
            Err(Error::Overflow)
        } else if pos.debt_principal > 0 && value_of_spec(
            pos.collateral_balance - amount,
            collateral_price as int,
        ) > u128::MAX {
            Err(Error::Overflow)
        } else if pos.debt_principal > 0 && value_of_spec(debt, borrow_price as int)
            > u128::MAX {
            Err(Error::Overflow)
        } else if pos.debt_principal > 0 && !remaining_collateral_covers(
            pre,
            pos,
            amount,
            collateral_price,
            borrow_price,
        ) {
            Err(Error::NotEnoughCollateral)
        } else {
            Ok(())
        }
    }
}

/// The ledger after a successful withdrawal: the position's and the
/// market's collateral shrink by the amount, and a position left with
/// neither collateral nor debt is removed.
pub open spec fn withdraw_ok_post(
    pre: MarketView,
    post: MarketView,
    account: AccountId,
    amount: Balance,
) -> bool {
    let i = find_index(pre.borrowers, account);
    let pos = pre.borrowers[i].1;
    &&& post.config == pre.config
    &&& post.total_cash == pre.total_cash
    &&& post.total_borrowed == pre.total_borrowed
    &&& post.borrow_index == pre.borrow_index
    &&& post.last_accrual_timestamp == pre.last_accrual_timestamp
    &&& post.total_collateral == pre.total_collateral - amount
    &&& if pos.collateral_balance == amount && pos.debt_principal == 0 {
        post.borrowers =~= pre.borrowers.remove(i)
    } else {
        post.borrowers =~= pre.borrowers.update(
            i,
            (
                account,
                BorrowerPosition {
                    collateral_balance: (pos.collateral_balance - amount) as Balance,
                    debt_principal: pos.debt_principal,
                    borrow_principal_index: pos.borrow_principal_index,
                    last_borrow_timestamp: pos.last_borrow_timestamp,
                },
            ),
        )
    }
}

/// The position `account` holds in `pre`, or the empty position a first
/// interaction starts from.
pub open spec fn position_of(pre: MarketView, account: AccountId) -> BorrowerPosition {
    if has_account(pre.borrowers, account) {
        pre.borrowers[find_index(pre.borrowers, account)].1
    } else {
        BorrowerPosition::new_spec(0, FixedU128 { inner: pre.borrow_index })
    }
}

/// The borrow limit of a position at the given prices, as a lifted
/// fixed-point value: usable collateral (collateral value over the
/// factor) less the live debt value, floored at zero.
pub open spec fn borrow_limit_value_spec(
    pre: MarketView,
    pos: BorrowerPosition,
    collateral_price: Balance,
    borrow_price: Balance,
) -> int {
    let debt = debt_with_interest_spec(pos, pre.borrow_index as int);
    let cval = value_of_spec(pos.collateral_balance as int, collateral_price as int);
    let dval = value_of_spec(debt, borrow_price as int);
    let max_borrow = fixed_div_spec(sat_lift(cval), pre.config.collateral_factor.inner as int);
    if max_borrow >= sat_lift(dval) {
        max_borrow - sat_lift(dval)
    } else {
        0
    }
}

/// Which error a borrow reports, or that it commits: at most one borrow
/// per account per tick, the requested value within the borrow limit,
/// and the market's cash sufficient.
pub open spec fn borrow_outcome(
    pre: MarketView,
    account: AccountId,
    amount: Balance,
    collateral_price: Balance,
    borrow_price: Balance,
    now: Timestamp,
) -> Result<(), Error> {
    let pos = position_of(pre, account);
    let debt = debt_with_interest_spec(pos, pre.borrow_index as int);
    let aval = value_of_spec(amount as int, borrow_price as int);
    if pos.last_borrow_timestamp == Some(now) {
        Err(Error::InvalidTimestampOnBorrowRequest)
    } else if debt > u128::MAX {
        Err(Error::Overflow)
    } else if value_of_spec(pos.collateral_balance as int, collateral_price as int)
        > u128::MAX {
        Err(Error::Overflow)
    } else if value_of_spec(debt, borrow_price as int) > u128::MAX {
        Err(Error::Overflow)
    } else if aval > u128::MAX {
        Err(Error::Overflow)
    } else if aval * ONE > u128::MAX {
        Err(Error::Overflow)
    } else if aval * ONE > borrow_limit_value_spec(pre, pos, collateral_price, borrow_price) {
        Err(Error::NotEnoughCollateralToBorrowAmount)
    } else if amount > pre.total_cash {
        Err(Error::NotEnoughBorrowAsset)
    } else if debt + amount > u128::MAX {
        Err(Error::Overflow)
    } else if pre.total_borrowed + amount > u128::MAX {
        Err(Error::Overflow)
    } else {
        Ok(())
    }
}

/// The ledger after a successful borrow: cash down and debt up by the
/// amount, the borrower's principal rebased to the current index, and
/// the borrow tick recorded.
pub open spec fn borrow_ok_post(
    pre: MarketView,
    post: MarketView,
    account: AccountId,
    amount: Balance,
    now: Timestamp,
) -> bool {
    let pos = position_of(pre, account);
    let debt = debt_with_interest_spec(pos, pre.borrow_index as int);
    let newpos = BorrowerPosition {
        collateral_balance: pos.collateral_balance,
        debt_principal: (debt + amount) as Balance,
        borrow_principal_index: FixedU128 { inner: pre.borrow_index },
        last_borrow_timestamp: Some(now),
    };
    &&& post.config == pre.config
    &&& post.total_collateral == pre.total_collateral
    &&& post.borrow_index == pre.borrow_index
    &&& post.last_accrual_timestamp == pre.last_accrual_timestamp
    &&& post.total_cash == pre.total_cash - amount
    &&& post.total_borrowed == pre.total_borrowed + amount
    &&& if has_account(pre.borrowers, account) {
        post.borrowers =~= pre.borrowers.update(
            find_index(pre.borrowers, account),
            (account, newpos),
        )
    } else {
        post.borrowers =~= pre.borrowers.push((account, newpos))
    }
}

/// Which error a repay reports, or that it commits: never in the tick of
/// the account's last borrow, and never more than is owed.
pub open spec fn repay_outcome(
    pre: MarketView,
    account: AccountId,
    amount: Balance,
    now: Timestamp,
) -> Result<(), Error> {
    if !has_account(pre.borrowers, account) {
        Err(Error::BorrowerDataNotFound)
    } else {
        let pos = pre.borrowers[find_index(pre.borrowers, account)].1;
        let debt = debt_with_interest_spec(pos, pre.borrow_index as int);
        if pos.last_borrow_timestamp == Some(now) {
            Err(Error::BorrowAndRepayInSameBlockIsNotSupported)
        } else if debt > u128::MAX {
            Err(Error::Overflow)
        } else if amount > debt {
            Err(Error::CannotRepayMoreThanTotalDebt)
        } else if pre.total_cash + amount > u128::MAX {
            Err(Error::Overflow)
        } else {
            Ok(())
        }
    }
}

/// The ledger after a successful repay: cash up by the amount, the
/// outstanding total down by it (saturating, as a display aggregate),
/// and the borrower's remaining debt rebased to the current index.
pub open spec fn repay_ok_post(
    pre: MarketView,
    post: MarketView,
    account: AccountId,
    amount: Balance,
) -> bool {
    let i = find_index(pre.borrowers, account);
    let pos = pre.borrowers[i].1;
    let debt = debt_with_interest_spec(pos, pre.borrow_index as int);
    let newpos = BorrowerPosition {
        collateral_balance: pos.collateral_balance,
        debt_principal: (debt - amount) as Balance,
        borrow_principal_index: FixedU128 { inner: pre.borrow_index },
        last_borrow_timestamp: pos.last_borrow_timestamp,
    };
    &&& post.config == pre.config
    &&& post.total_collateral == pre.total_collateral
    &&& post.borrow_index == pre.borrow_index
    &&& post.last_accrual_timestamp == pre.last_accrual_timestamp
    &&& post.total_cash == pre.total_cash + amount
    &&& post.total_borrowed == if amount <= pre.total_borrowed {
        pre.total_borrowed - amount
    } else {
        0int
    }
    &&& if debt == amount && pos.collateral_balance == 0 {
        post.borrowers =~= pre.borrowers.remove(i)
    } else {
        post.borrowers =~= pre.borrowers.update(i, (account, newpos))
    }
}

/// A market's utilization in whole percentage points: debt over cash
/// plus debt, rounded down; zero when nothing is borrowed.
pub open spec fn utilization_spec(pre: MarketView) -> int {
    if pre.total_borrowed == 0 {
        0
    } else {
        pre.total_borrowed * 100 / (pre.total_cash + pre.total_borrowed)
    }
}

/// Which error a tick reports, or that it commits: the clock must not
/// run backwards and every accrual step must fit in 128 bits.
pub open spec fn on_tick_outcome(pre: MarketView, now: Timestamp, vault_deposit: Balance)
    -> Result<(), Error> {
    let rate = pre.config.interest_rate_model.rate_spec(utilization_spec(pre));
    let dt = now - pre.last_accrual_timestamp;
    if now < pre.last_accrual_timestamp {
        Err(Error::Overflow)
    } else if pre.total_borrowed > 0 && pre.total_cash + pre.total_borrowed > u128::MAX {
        Err(Error::Overflow)
    } else if !balance_accrual_fits(rate, dt, pre.total_borrowed as int, pre.borrow_index as int) {
        Err(Error::Overflow)
    } else if pre.total_borrowed + accrued_balance_spec(rate, dt, pre.total_borrowed as int)
        > u128::MAX {
        Err(Error::Overflow)
    } else if pre.total_cash + vault_deposit > u128::MAX {
        Err(Error::Overflow)
    } else {
        Ok(())
    }
}

/// The ledger after a successful tick: interest accrued over the elapsed
/// time onto the outstanding total and the borrow index, settled vault
/// funds added to the cash, and the accrual clock advanced.
pub open spec fn on_tick_ok_post(
    pre: MarketView,
    post: MarketView,
    now: Timestamp,
    vault_deposit: Balance,
) -> bool {
    let rate = pre.config.interest_rate_model.rate_spec(utilization_spec(pre));
    let dt = now - pre.last_accrual_timestamp;
    &&& post.config == pre.config
    &&& post.total_collateral == pre.total_collateral
    &&& post.borrowers =~= pre.borrowers
    &&& post.total_cash == pre.total_cash + vault_deposit
    &&& post.total_borrowed == pre.total_borrowed + accrued_balance_spec(
        rate,
        dt,
        pre.total_borrowed as int,
    )
    &&& post.borrow_index == new_borrow_index_spec(rate, dt, pre.borrow_index as int)
    &&& post.last_accrual_timestamp == now
}

/// The priced risk data of a position: collateral and live debt valued
/// at the given prices and lifted (saturating) into fixed point, under
/// the market's collateralization policy.
pub open spec fn borrower_data_of(
    pre: MarketView,
    pos: BorrowerPosition,
    collateral_price: Balance,
    borrow_price: Balance,
) -> BorrowerData {
    let debt = debt_with_interest_spec(pos, pre.borrow_index as int);
    let cval = value_of_spec(pos.collateral_balance as int, collateral_price as int);
    let dval = value_of_spec(debt, borrow_price as int);
    BorrowerData {
        collateral_balance: FixedU128 { inner: sat_lift(cval) as u128 },
        borrower_balance_with_interest: FixedU128 { inner: sat_lift(dval) as u128 },
        collateral_factor: pre.config.collateral_factor,
        under_collaterized_warn_percent: pre.config.under_collaterized_warn_percent,
    }
}

/// Whether a position is flagged as soon to be undercollateralized at
/// the given prices, or which arithmetic step failed.
pub open spec fn flag_outcome(
    pre: MarketView,
    pos: BorrowerPosition,
    collateral_price: Balance,
    borrow_price: Balance,
) -> Result<bool, Error> {
    let debt = debt_with_interest_spec(pos, pre.borrow_index as int);
    let cval = value_of_spec(pos.collateral_balance as int, collateral_price as int);
    let dval = value_of_spec(debt, borrow_price as int);
    if debt > u128::MAX {
        Err(Error::Overflow)
    } else if cval > u128::MAX {
        Err(Error::Overflow)
    } else if dval > u128::MAX {
        Err(Error::Overflow)
    } else {
        let bd = borrower_data_of(pre, pos, collateral_price, borrow_price);
        if bd.borrower_balance_with_interest.inner == 0 {
            Ok(false)
        } else if bd.current_ratio_spec() > u128::MAX {
            Err(Error::Overflow)
        } else if bd.warn_threshold_spec() > u128::MAX {
            Err(Error::Overflow)
        } else {
            Ok(bd.current_ratio_spec() < bd.warn_threshold_spec())
        }
    }
}

/// Which error a liquidation reports, or the collateral it seizes: only
/// a position flagged by [`flag_outcome`] may be liquidated.
pub open spec fn liquidate_outcome(
    pre: MarketView,
    account: AccountId,
    collateral_price: Balance,
    borrow_price: Balance,
) -> Result<Balance, Error> {
    if !has_account(pre.borrowers, account) {
        Err(Error::BorrowerDataNotFound)
    } else {
        let pos = pre.borrowers[find_index(pre.borrowers, account)].1;
        match flag_outcome(pre, pos, collateral_price, borrow_price) {
            Err(e) => Err(e),
            Ok(false) => Err(Error::CannotLiquidateHealthyPosition),
            Ok(true) => Ok(pos.collateral_balance),
        }
    }
}

/// The ledger after a liquidation: the position is removed, its
/// collateral leaves the market toward the liquidation strategy, and
/// its live debt is written off the outstanding total (saturating).
pub open spec fn liquidate_ok_post(
    pre: MarketView,
    post: MarketView,
    account: AccountId,
) -> bool {
    let i = find_index(pre.borrowers, account);
    let pos = pre.borrowers[i].1;
    let debt = debt_with_interest_spec(pos, pre.borrow_index as int);
    &&& post.config == pre.config
    &&& post.total_cash == pre.total_cash
    &&& post.borrow_index == pre.borrow_index
    &&& post.last_accrual_timestamp == pre.last_accrual_timestamp
    &&& post.total_collateral == pre.total_collateral - pos.collateral_balance
    &&& post.total_borrowed == if debt <= pre.total_borrowed {
        pre.total_borrowed - debt
    } else {
        0int
    }
    &&& post.borrowers =~= pre.borrowers.remove(i)
}

/// The lending engine: every market it has created, in creation order.
#[derive(Debug)]
pub struct LendingEngine {
    /// The markets, in creation order; a [`MarketIndex`] is a slot here.
    pub markets: Vec<MarketState>,
}

impl LendingEngine {
    /// Every market's ledger is well-formed.
    pub open spec fn wf(self) -> bool {
        forall|i: int| 0 <= i < self.markets@.len() ==> (#[trigger] self.markets@[i]).wf()
    }

    /// An engine with no markets.
    pub fn new() -> (r: LendingEngine)
        ensures
            r.markets@.len() == 0,
            r.wf(),
    {
        LendingEngine { markets: Vec::new() }
    }

    /// How many markets have been created.
    pub fn market_count(&self) -> (r: usize)
        ensures
            r == self.markets@.len(),
    {
        self.markets.len()
    }

    /// Creates a market with the given configuration and an empty ledger.
    /// Rejects an invalid interest-rate curve or collateralization policy;
    /// accepted markets are permanent and never share state.
    pub fn create_market(&mut self, config: MarketConfig) -> (r: Result<MarketIndex, Error>)
        requires
            old(self).wf(),
        ensures
            final(self).wf(),
            !config.interest_rate_model.is_valid() ==> r == Err::<MarketIndex, Error>(
                Error::InvalidInterestRateModel,
            ) && final(self).markets@ == old(self).markets@,
            config.interest_rate_model.is_valid() && !config.is_valid() ==> r == Err::<
                MarketIndex,
                Error,
            >(Error::InvalidMarketConfiguration) && final(self).markets@ == old(self).markets@,
            config.is_valid() && old(self).markets@.len() >= u32::MAX ==> r == Err::<
                MarketIndex,
                Error,
            >(Error::Overflow) && final(self).markets@ == old(self).markets@,
            config.is_valid() && old(self).markets@.len() < u32::MAX ==> {
                &&& r == Ok::<MarketIndex, Error>(MarketIndex(old(self).markets@.len() as u32))
                &&& final(self).markets@.len() == old(self).markets@.len() + 1
                &&& forall|j: int|
                    0 <= j < old(self).markets@.len() ==> final(self).markets@[j] == old(
                        self,
                    ).markets@[j]
                &&& final(self).markets@[old(self).markets@.len() as int]@
                    == MarketState::initial_spec(config)
            },
    {
        if !match config.interest_rate_model {
            InterestRateModel::Jump(m) => m.base_rate.inner <= m.jump_rate.inner
                && m.jump_rate.inner <= m.full_rate.inner && m.full_rate.inner <= ONE
                && 0 < m.target_utilization.parts && m.target_utilization.parts < 100,
        } {
            return Err(Error::InvalidInterestRateModel);
        }
        if config.collateral_factor.inner < ONE || config.under_collaterized_warn_percent.parts
            > 100 || config.reserved_factor.parts > 100 {
            return Err(Error::InvalidMarketConfiguration);
        }
        if self.markets.len() >= u32::MAX as usize {
            return Err(Error::Overflow);
        }
        let index = MarketIndex(self.markets.len() as u32);
        let market = MarketState {
            config,
            total_collateral: 0,
            total_cash: 0,
            total_borrowed: 0,
            borrow_index: FixedU128 { inner: ONE },
            last_accrual_timestamp: 0,
            borrowers: Vec::new(),
        };
        self.markets.push(market);
        Ok(index)
    }

    /// Borrow-asset liquidity a market currently holds.
    pub fn total_cash(&self, market: MarketIndex) -> (r: Result<Balance, Error>)
        ensures
            market.0 < self.markets@.len() ==> r == Ok::<Balance, Error>(
                self.markets@[market.0 as int].total_cash,
            ),
            market.0 >= self.markets@.len() ==> r == Err::<Balance, Error>(
                Error::MarketDoesNotExist,
            ),
    {
        let m = market.0 as usize;
        if m >= self.markets.len() {
            return Err(Error::MarketDoesNotExist);
        }
        Ok(self.markets[m].total_cash)
    }

    /// Deposits `amount` of collateral for `account`: the position (one
    /// is opened on first deposit) and the market's collateral total both
    /// grow by exactly `amount`. The matching custody transfer is the
    /// caller's to perform. On any error the ledger is unchanged.
    pub fn deposit_collateral(
        &mut self,
        market: MarketIndex,
        account: AccountId,
        amount: Balance,
    ) -> (r: Result<(), Error>)
        requires
            old(self).wf(),
        ensures
            final(self).wf(),
            final(self).markets@.len() == old(self).markets@.len(),
            market.0 >= old(self).markets@.len() ==> r == Err::<(), Error>(
                Error::MarketDoesNotExist,
            ) && final(self).markets@ == old(self).markets@,
            market.0 < old(self).markets@.len() ==> {
                let pre = old(self).markets@[market.0 as int]@;
                &&& r == deposit_outcome(pre, account, amount)
                &&& (r is Err ==> final(self).markets@ == old(self).markets@)
                &&& (r is Ok ==> deposit_ok_post(
                    pre,
                    final(self).markets@[market.0 as int]@,
                    account,
                    amount,
                ) && forall|j: int|
                    0 <= j < old(self).markets@.len() && j != market.0 ==> final(self).markets@[j]
                        == old(self).markets@[j])
            },
    {
        let m = market.0 as usize;
        if m >= self.markets.len() {
            return Err(Error::MarketDoesNotExist);
        }
        let ghost pre = self.markets@[m as int]@;
        let new_total = match self.markets[m].total_collateral.checked_add(amount) {
            Some(t) => t,
            None => {
                return Err(Error::Overflow);
            },
        };
        match find_borrower(&self.markets[m].borrowers, account) {
            Some(i) => {
                proof {
                    lemma_find_index_unique(pre.borrowers, account, i as int);
                    lemma_sum_element_le(pre.borrowers, i as int);
                }
                let pos = self.markets[m].borrowers[i].1;
                let new_coll = match pos.collateral_balance.checked_add(amount) {
                    Some(c) => c,
                    None => {
                        return Err(Error::Overflow);
                    },
                };
                let mkt = &mut self.markets[m];
                mkt.total_collateral = new_total;
                set_position(
                    &mut mkt.borrowers,
                    i,
                    (
                        account,
                        BorrowerPosition {
                            collateral_balance: new_coll,
                            debt_principal: pos.debt_principal,
                            borrow_principal_index: pos.borrow_principal_index,
                            last_borrow_timestamp: pos.last_borrow_timestamp,
                        },
                    ),
                );
                proof {
                    let post = final(self).markets@[m as int]@;
                    assert(post.borrowers =~= pre.borrowers.update(
                        i as int,
                        post.borrowers[i as int],
                    ));
                    lemma_sum_update(pre.borrowers, i as int, post.borrowers[i as int]);
                    assert(final(self).markets@[m as int].wf());
                    assert(final(self).wf());
                }
                Ok(())
            },
            None => {
                let mkt = &mut self.markets[m];
                let snapshot = mkt.borrow_index;
                mkt.total_collateral = new_total;
                mkt.borrowers.push(
                    (
                        account,
                        BorrowerPosition {
                            collateral_balance: amount,
                            debt_principal: 0,
                            borrow_principal_index: snapshot,
                            last_borrow_timestamp: None,
                        },
                    ),
                );
                proof {
                    let post = final(self).markets@[m as int]@;
                    assert(post.borrowers =~= pre.borrowers.push(
                        (account, BorrowerPosition::new_spec(amount, snapshot)),
                    ));
                    lemma_sum_push(
                        pre.borrowers,
                        (account, BorrowerPosition::new_spec(amount, snapshot)),
                    );
                    assert(final(self).markets@[m as int].wf());
                    assert(final(self).wf());
                }
                Ok(())
            },
        }
    }

    /// Withdraws `amount` of collateral for `account`. The request is
    /// refused when it exceeds the deposited balance, or when the
    /// remaining collateral would no longer cover the outstanding debt at
    /// the given prices. A position emptied of both collateral and debt
    /// is removed. On any error the ledger is unchanged.
    pub fn withdraw_collateral(
        &mut self,
        market: MarketIndex,
        account: AccountId,
        amount: Balance,
        collateral_price: Balance,
        borrow_price: Balance,
    ) -> (r: Result<(), Error>)
        requires
            old(self).wf(),
        ensures
            final(self).wf(),
            final(self).markets@.len() == old(self).markets@.len(),
            market.0 >= old(self).markets@.len() ==> r == Err::<(), Error>(
                Error::MarketDoesNotExist,
            ) && final(self).markets@ == old(self).markets@,
            market.0 < old(self).markets@.len() ==> {
                let pre = old(self).markets@[market.0 as int]@;
                &&& r == withdraw_outcome(pre, account, amount, collateral_price, borrow_price)
                &&& (r is Err ==> final(self).markets@ == old(self).markets@)
                &&& (r is Ok ==> withdraw_ok_post(
                    pre,
                    final(self).markets@[market.0 as int]@,
                    account,
                    amount,
                ) && forall|j: int|
                    0 <= j < old(self).markets@.len() && j != market.0 ==> final(self).markets@[j]
                        == old(self).markets@[j])
            },
    {
        let m = market.0 as usize;
        if m >= self.markets.len() {
            return Err(Error::MarketDoesNotExist);
        }
        let ghost pre = self.markets@[m as int]@;
        let i = match find_borrower(&self.markets[m].borrowers, account) {
            Some(i) => i,
            None => {
                return Err(Error::NotEnoughCollateral);
            },
        };
        proof {
            lemma_find_index_unique(pre.borrowers, account, i as int);
        }
        let pos = self.markets[m].borrowers[i].1;
        if amount > pos.collateral_balance {
            return Err(Error::NotEnoughCollateral);
        }
        if pos.debt_principal > 0 {
            let index_now = self.markets[m].borrow_index;
            let debt = match debt_with_interest(&pos, index_now) {
                Some(d) => d,
                None => {
                    return Err(Error::Overflow);
                },
            };
            let cval = match value_of(pos.collateral_balance - amount, collateral_price) {
                Some(v) => v,
                None => {
                    return Err(Error::Overflow);
                },
            };
            let dval = match value_of(debt, borrow_price) {
                Some(v) => v,
                None => {
                    return Err(Error::Overflow);
                },
            };
            let cb = FixedU128::saturating_from_integer(cval);
            let db = FixedU128::saturating_from_integer(dval);
            proof {
                crate::math::lemma_div_nearest_scale_le(
                    cb.inner as int,
                    ONE as int,
                    self.markets@[m as int].config.collateral_factor.inner as int,
                );
            }
            let max_borrow = match cb.checked_div(&self.markets[m].config.collateral_factor) {
                Some(q) => q,
                None => {
                    return Err(Error::Overflow);
                },
            };
            if max_borrow.inner < db.inner {
                return Err(Error::NotEnoughCollateral);
            }
        }
        proof {
            lemma_sum_element_le(pre.borrowers, i as int);
        }
        let new_total = match self.markets[m].total_collateral.checked_sub(amount) {
            Some(t) => t,
            None => {
                return Err(Error::Overflow);
            },
        };
        let mkt = &mut self.markets[m];
        mkt.total_collateral = new_total;
        if pos.collateral_balance == amount && pos.debt_principal == 0 {
            mkt.borrowers.remove(i);
        } else {
            set_position(
                &mut mkt.borrowers,
                i,
                (
                    account,
                    BorrowerPosition {
                        collateral_balance: pos.collateral_balance - amount,
                        debt_principal: pos.debt_principal,
                        borrow_principal_index: pos.borrow_principal_index,
                        last_borrow_timestamp: pos.last_borrow_timestamp,
                    },
                ),
            );
        }
        proof {
            let post = final(self).markets@[m as int]@;
            if pre.borrowers[i as int].1.collateral_balance == amount
                && pre.borrowers[i as int].1.debt_principal == 0 {
                assert(post.borrowers =~= pre.borrowers.remove(i as int));
                lemma_sum_remove(pre.borrowers, i as int);
                assert(unique_accounts(post.borrowers)) by {
                    assert(forall|p: int, q: int|
                        0 <= p < q < post.borrowers.len() ==> post.borrowers[p].0
                            != post.borrowers[q].0);
                }
            } else {
                assert(post.borrowers =~= pre.borrowers.update(
                    i as int,
                    post.borrowers[i as int],
                ));
                lemma_sum_update(pre.borrowers, i as int, post.borrowers[i as int]);
            }
            assert(final(self).markets@[m as int].wf());
            assert(final(self).wf());
        }
        Ok(())
    }

    /// Borrows `amount` of the borrow asset for `account` at the given
    /// prices. At most one borrow per account per tick; the requested
    /// value must stay within the borrow limit, and the market must hold
    /// the cash. On success the cash leaves the ledger toward the
    /// borrower (the transfer is the caller's), the outstanding total
    /// grows by the amount, and the borrower's principal is rebased.
    pub fn borrow(
        &mut self,
        market: MarketIndex,
        account: AccountId,
        amount: Balance,
        collateral_price: Balance,
        borrow_price: Balance,
        now: Timestamp,
    ) -> (r: Result<(), Error>)
        requires
            old(self).wf(),
        ensures
            final(self).wf(),
            final(self).markets@.len() == old(self).markets@.len(),
            market.0 >= old(self).markets@.len() ==> r == Err::<(), Error>(
                Error::MarketDoesNotExist,
            ) && final(self).markets@ == old(self).markets@,
            market.0 < old(self).markets@.len() ==> {
                let pre = old(self).markets@[market.0 as int]@;
                &&& r == borrow_outcome(pre, account, amount, collateral_price, borrow_price, now)
                &&& (r is Err ==> final(self).markets@ == old(self).markets@)
                &&& (r is Ok ==> borrow_ok_post(
                    pre,
                    final(self).markets@[market.0 as int]@,
                    account,
                    amount,
                    now,
                ) && forall|j: int|
                    0 <= j < old(self).markets@.len() && j != market.0 ==> final(self).markets@[j]
                        == old(self).markets@[j])
            },
    {
        let m = market.0 as usize;
        if m >= self.markets.len() {
            return Err(Error::MarketDoesNotExist);
        }
        let ghost pre = self.markets@[m as int]@;
        let found = find_borrower(&self.markets[m].borrowers, account);
        let has_pos = found.is_some();
        let i = match found {
            Some(i) => i,
            None => 0,
        };
        let pos = if has_pos {
            proof {
                lemma_find_index_unique(pre.borrowers, account, i as int);
            }
            self.markets[m].borrowers[i].1
        } else {
            BorrowerPosition {
                collateral_balance: 0,
                debt_principal: 0,
                borrow_principal_index: self.markets[m].borrow_index,
                last_borrow_timestamp: None,
            }
        };
        assert(pos == position_of(pre, account));
        let same_tick = match pos.last_borrow_timestamp {
            Some(ts) => ts == now,
            None => false,
        };
        if same_tick {
            return Err(Error::InvalidTimestampOnBorrowRequest);
        }
        let index_now = self.markets[m].borrow_index;
        let debt = match debt_with_interest(&pos, index_now) {
            Some(d) => d,
            None => {
                return Err(Error::Overflow);
            },
        };
        let cval = match value_of(pos.collateral_balance, collateral_price) {
            Some(v) => v,
            None => {
                return Err(Error::Overflow);
            },
        };
        let dval = match value_of(debt, borrow_price) {
            Some(v) => v,
            None => {
                return Err(Error::Overflow);
            },
        };
        let aval = match value_of(amount, borrow_price) {
            Some(v) => v,
            None => {
                return Err(Error::Overflow);
            },
        };
        let borrower = BorrowerData::new(
            cval,
            dval,
            self.markets[m].config.collateral_factor,
            self.markets[m].config.under_collaterized_warn_percent,
        );
        proof {
            crate::math::lemma_div_nearest_scale_le(
                borrower.collateral_balance.inner as int,
                ONE as int,
                self.markets@[m as int].config.collateral_factor.inner as int,
            );
        }
        let limit = match borrower.borrow_for_collateral() {
            Ok(l) => l,
            Err(e) => {
                return Err(e);
            },
        };
        let alift = match FixedU128::checked_from_integer(aval) {
            Some(l) => l,
            None => {
                return Err(Error::Overflow);
            },
        };
        if alift.inner > limit.inner {
            return Err(Error::NotEnoughCollateralToBorrowAmount);
        }
        if amount > self.markets[m].total_cash {
            return Err(Error::NotEnoughBorrowAsset);
        }
        let new_principal = match debt.checked_add(amount) {
            Some(p) => p,
            None => {
                return Err(Error::Overflow);
            },
        };
        let new_borrowed = match self.markets[m].total_borrowed.checked_add(amount) {
            Some(t) => t,
            None => {
                return Err(Error::Overflow);
            },
        };
        let mkt = &mut self.markets[m];
        mkt.total_cash = mkt.total_cash - amount;
        mkt.total_borrowed = new_borrowed;
        let newpos = BorrowerPosition {
            collateral_balance: pos.collateral_balance,
            debt_principal: new_principal,
            borrow_principal_index: index_now,
            last_borrow_timestamp: Some(now),
        };
        if has_pos {
            set_position(&mut mkt.borrowers, i, (account, newpos));
        } else {
            mkt.borrowers.push((account, newpos));
        }
        proof {
            let post = final(self).markets@[m as int]@;
            if has_account(pre.borrowers, account) {
                assert(post.borrowers =~= pre.borrowers.update(
                    find_index(pre.borrowers, account),
                    (account, newpos),
                ));
                lemma_sum_update(pre.borrowers, find_index(pre.borrowers, account),
                    (account, newpos));
            } else {
                assert(post.borrowers =~= pre.borrowers.push((account, newpos)));
                lemma_sum_push(pre.borrowers, (account, newpos));
            }
            assert(final(self).markets@[m as int].wf());
            assert(final(self).wf());
        }
        Ok(())
    }

    /// Repays `amount` of `account`'s debt. Refused within the tick of
    /// the account's last borrow (no same-tick interest-free round
    /// trips) and beyond what is owed. On success the cash returns to
    /// the ledger and the borrower's remaining debt is rebased; a
    /// position left with neither collateral nor debt is removed.
    pub fn repay(
        &mut self,
        market: MarketIndex,
        account: AccountId,
        amount: Balance,
        now: Timestamp,
    ) -> (r: Result<(), Error>)
        requires
            old(self).wf(),
        ensures
            final(self).wf(),
            final(self).markets@.len() == old(self).markets@.len(),
            market.0 >= old(self).markets@.len() ==> r == Err::<(), Error>(
                Error::MarketDoesNotExist,
            ) && final(self).markets@ == old(self).markets@,
            market.0 < old(self).markets@.len() ==> {
                let pre = old(self).markets@[market.0 as int]@;
                &&& r == repay_outcome(pre, account, amount, now)
                &&& (r is Err ==> final(self).markets@ == old(self).markets@)
                &&& (r is Ok ==> repay_ok_post(
                    pre,
                    final(self).markets@[market.0 as int]@,
                    account,
                    amount,
                ) && forall|j: int|
                    0 <= j < old(self).markets@.len() && j != market.0 ==> final(self).markets@[j]
                        == old(self).markets@[j])
            },
    {
        let m = market.0 as usize;
        if m >= self.markets.len() {
            return Err(Error::MarketDoesNotExist);
        }
        let ghost pre = self.markets@[m as int]@;
        let i = match find_borrower(&self.markets[m].borrowers, account) {
            Some(i) => i,
            None => {
                return Err(Error::BorrowerDataNotFound);
            },
        };
        proof {
            lemma_find_index_unique(pre.borrowers, account, i as int);
        }
        let pos = self.markets[m].borrowers[i].1;
        let same_tick = match pos.last_borrow_timestamp {
            Some(ts) => ts == now,
            None => false,
        };
        if same_tick {
            return Err(Error::BorrowAndRepayInSameBlockIsNotSupported);
        }
        let index_now = self.markets[m].borrow_index;
        let debt = match debt_with_interest(&pos, index_now) {
            Some(d) => d,
            None => {
                return Err(Error::Overflow);
            },
        };
        if amount > debt {
            return Err(Error::CannotRepayMoreThanTotalDebt);
        }
        let new_cash = match self.markets[m].total_cash.checked_add(amount) {
            Some(c) => c,
            None => {
                return Err(Error::Overflow);
            },
        };
        let mkt = &mut self.markets[m];
        mkt.total_cash = new_cash;
        mkt.total_borrowed = if amount <= mkt.total_borrowed {
            mkt.total_borrowed - amount
        } else {
            0
        };
        let remaining = debt - amount;
        let newpos = BorrowerPosition {
            collateral_balance: pos.collateral_balance,
            debt_principal: remaining,
            borrow_principal_index: index_now,
            last_borrow_timestamp: pos.last_borrow_timestamp,
        };
        if remaining == 0 && pos.collateral_balance == 0 {
            mkt.borrowers.remove(i);
        } else {
            set_position(&mut mkt.borrowers, i, (account, newpos));
        }
        proof {
            let post = final(self).markets@[m as int]@;
            if debt == amount && pre.borrowers[i as int].1.collateral_balance == 0 {
                assert(post.borrowers =~= pre.borrowers.remove(i as int));
                lemma_sum_remove(pre.borrowers, i as int);
                assert(unique_accounts(post.borrowers)) by {
                    assert(forall|p: int, q: int|
                        0 <= p < q < post.borrowers.len() ==> post.borrowers[p].0
                            != post.borrowers[q].0);
                }
            } else {
                assert(post.borrowers =~= pre.borrowers.update(i as int, (account, newpos)));
                lemma_sum_update(pre.borrowers, i as int, (account, newpos));
            }
            assert(final(self).markets@[m as int].wf());
            assert(final(self).wf());
        }
        Ok(())
    }

    /// Advances a market's clock to `now`, once per tick: accrues
    /// interest over the elapsed time at the rate the current
    /// utilization commands, and adds `vault_deposit` — the borrowable
    /// funds whose withdrawal from the market's vault settled at this
    /// tick boundary — to the cash. Runs before any other operation of
    /// the tick observes the market.
    pub fn on_tick(
        &mut self,
        market: MarketIndex,
        now: Timestamp,
        vault_deposit: Balance,
    ) -> (r: Result<(), Error>)
        requires
            old(self).wf(),
        ensures
            final(self).wf(),
            final(self).markets@.len() == old(self).markets@.len(),
            market.0 >= old(self).markets@.len() ==> r == Err::<(), Error>(
                Error::MarketDoesNotExist,
            ) && final(self).markets@ == old(self).markets@,
            market.0 < old(self).markets@.len() ==> {
                let pre = old(self).markets@[market.0 as int]@;
                &&& r == on_tick_outcome(pre, now, vault_deposit)
                &&& (r is Err ==> final(self).markets@ == old(self).markets@)
                &&& (r is Ok ==> final(self).markets@[market.0 as int]@.borrow_index
                    >= pre.borrow_index)
                &&& (r is Ok ==> on_tick_ok_post(
                    pre,
                    final(self).markets@[market.0 as int]@,
                    now,
                    vault_deposit,
                ) && forall|j: int|
                    0 <= j < old(self).markets@.len() && j != market.0 ==> final(self).markets@[j]
                        == old(self).markets@[j])
            },
    {
        let m = market.0 as usize;
        if m >= self.markets.len() {
            return Err(Error::MarketDoesNotExist);
        }
        let ghost pre = self.markets@[m as int]@;
        if now < self.markets[m].last_accrual_timestamp {
            return Err(Error::Overflow);
        }
        let utilization = match calc_utilization_ratio(
            self.markets[m].total_cash,
            self.markets[m].total_borrowed,
        ) {
            Ok(u) => u,
            Err(e) => {
                return Err(e);
            },
        };
        assert(utilization.parts == utilization_spec(pre));
        let dt = now - self.markets[m].last_accrual_timestamp;
        let (accrued, new_index) = match accrue_on_balance(
            utilization,
            &self.markets[m].config.interest_rate_model,
            self.markets[m].borrow_index,
            dt,
            self.markets[m].total_borrowed,
        ) {
            Ok(t) => t,
            Err(e) => {
                return Err(e);
            },
        };
        let new_borrowed = match self.markets[m].total_borrowed.checked_add(accrued) {
            Some(t) => t,
            None => {
                return Err(Error::Overflow);
            },
        };
        let new_cash = match self.markets[m].total_cash.checked_add(vault_deposit) {
            Some(c) => c,
            None => {
                return Err(Error::Overflow);
            },
        };
        proof {
            crate::rate_model::lemma_rate_spec_bounds_model(
                pre.config.interest_rate_model,
                utilization_spec(pre),
            );
            crate::accrual::lemma_new_index_at_least(
                pre.config.interest_rate_model.rate_spec(utilization_spec(pre)),
                dt as int,
                pre.borrow_index as int,
            );
        }
        let mkt = &mut self.markets[m];
        mkt.total_cash = new_cash;
        mkt.total_borrowed = new_borrowed;
        mkt.borrow_index = new_index;
        mkt.last_accrual_timestamp = now;
        proof {
            assert(final(self).markets@[m as int]@.borrowers =~= pre.borrowers);
            assert(final(self).markets@[m as int].wf());
            assert(final(self).wf());
        }
        Ok(())
    }

    /// The live debt of `account` in a market, with interest accrued so
    /// far: `None` when the account holds no position there.
    pub fn borrow_balance_current(&self, market: MarketIndex, account: AccountId) -> (r: Result<
        Option<Balance>,
        Error,
    >)
        requires
            self.wf(),
        ensures
            market.0 >= self.markets@.len() ==> r == Err::<Option<Balance>, Error>(
                Error::MarketDoesNotExist,
            ),
            market.0 < self.markets@.len() ==> {
                let pre = self.markets@[market.0 as int]@;
                let debt = debt_with_interest_spec(
                    position_of(pre, account),
                    pre.borrow_index as int,
                );
                if !has_account(pre.borrowers, account) {
                    r == Ok::<Option<Balance>, Error>(None)
                } else if debt > u128::MAX {
                    r == Err::<Option<Balance>, Error>(Error::Overflow)
                } else {
                    r == Ok::<Option<Balance>, Error>(Some(debt as Balance))
                }
            },
    {
        let m = market.0 as usize;
        if m >= self.markets.len() {
            return Err(Error::MarketDoesNotExist);
        }
        let ghost pre = self.markets@[m as int]@;
        let i = match find_borrower(&self.markets[m].borrowers, account) {
            Some(i) => i,
            None => {
                return Ok(None);
            },
        };
        proof {
            lemma_find_index_unique(pre.borrowers, account, i as int);
        }
        let pos = self.markets[m].borrowers[i].1;
        match debt_with_interest(&pos, self.markets[m].borrow_index) {
            Some(d) => Ok(Some(d)),
            None => Err(Error::Overflow),
        }
    }

    /// The borrow limit of `account` in a market at the given prices, as
    /// a plain value in the quote unit: usable collateral value less the
    /// live debt value, floored at zero and truncated.
    pub fn get_borrow_limit(
        &self,
        market: MarketIndex,
        account: AccountId,
        collateral_price: Balance,
        borrow_price: Balance,
    ) -> (r: Result<Balance, Error>)
        requires
            self.wf(),
        ensures
            market.0 >= self.markets@.len() ==> r == Err::<Balance, Error>(
                Error::MarketDoesNotExist,
            ),
            market.0 < self.markets@.len() ==> {
                let pre = self.markets@[market.0 as int]@;
                let pos = position_of(pre, account);
                let debt = debt_with_interest_spec(pos, pre.borrow_index as int);
                if debt > u128::MAX {
                    r == Err::<Balance, Error>(Error::Overflow)
                } else if value_of_spec(pos.collateral_balance as int, collateral_price as int)
                    > u128::MAX {
                    r == Err::<Balance, Error>(Error::Overflow)
                } else if value_of_spec(debt, borrow_price as int) > u128::MAX {
                    r == Err::<Balance, Error>(Error::Overflow)
                } else {
                    r == Ok::<Balance, Error>(
                        (borrow_limit_value_spec(pre, pos, collateral_price, borrow_price) / (
                        ONE as int)) as Balance,
                    )
                }
            },
    {
        let m = market.0 as usize;
        if m >= self.markets.len() {
            return Err(Error::MarketDoesNotExist);
        }
        let ghost pre = self.markets@[m as int]@;
        let found = find_borrower(&self.markets[m].borrowers, account);
        let has_pos = found.is_some();
        let i = match found {
            Some(i) => i,
            None => 0,
        };
        let pos = if has_pos {
            proof {
                lemma_find_index_unique(pre.borrowers, account, i as int);
            }
            self.markets[m].borrowers[i].1
        } else {
            BorrowerPosition {
                collateral_balance: 0,
                debt_principal: 0,
                borrow_principal_index: self.markets[m].borrow_index,
                last_borrow_timestamp: None,
            }
        };
        assert(pos == position_of(pre, account));
        let debt = match debt_with_interest(&pos, self.markets[m].borrow_index) {
            Some(d) => d,
            None => {
                return Err(Error::Overflow);
            },
        };
        let cval = match value_of(pos.collateral_balance, collateral_price) {
            Some(v) => v,
            None => {
                return Err(Error::Overflow);
            },
        };
        let dval = match value_of(debt, borrow_price) {
            Some(v) => v,
            None => {
                return Err(Error::Overflow);
            },
        };
        let borrower = BorrowerData::new(
            cval,
            dval,
            self.markets[m].config.collateral_factor,
            self.markets[m].config.under_collaterized_warn_percent,
        );
        proof {
            crate::math::lemma_div_nearest_scale_le(
                borrower.collateral_balance.inner as int,
                ONE as int,
                self.markets@[m as int].config.collateral_factor.inner as int,
            );
        }
        match borrower.borrow_for_collateral() {
            Ok(limit) => Ok(limit.into_inner() / ONE),
            Err(e) => Err(e),
        }
    }

    /// Whether `account`'s position is approaching liquidation at the
    /// given prices: its collateralization ratio has fallen below the
    /// factor grown by the market's warning margin. An account without
    /// a position, or without debt, is never flagged.
    pub fn soon_under_collaterized(
        &self,
        market: MarketIndex,
        account: AccountId,
        collateral_price: Balance,
        borrow_price: Balance,
    ) -> (r: Result<bool, Error>)
        requires
            self.wf(),
        ensures
            market.0 >= self.markets@.len() ==> r == Err::<bool, Error>(Error::MarketDoesNotExist),
            market.0 < self.markets@.len() ==> {
                let pre = self.markets@[market.0 as int]@;
                if !has_account(pre.borrowers, account) {
                    r == Ok::<bool, Error>(false)
                } else {
                    r == flag_outcome(
                        pre,
                        pre.borrowers[find_index(pre.borrowers, account)].1,
                        collateral_price,
                        borrow_price,
                    )
                }
            },
    {
        let m = market.0 as usize;
        if m >= self.markets.len() {
            return Err(Error::MarketDoesNotExist);
        }
        let ghost pre = self.markets@[m as int]@;
        let i = match find_borrower(&self.markets[m].borrowers, account) {
            Some(i) => i,
            None => {
                return Ok(false);
            },
        };
        proof {
            lemma_find_index_unique(pre.borrowers, account, i as int);
        }
        let pos = self.markets[m].borrowers[i].1;
        let debt = match debt_with_interest(&pos, self.markets[m].borrow_index) {
            Some(d) => d,
            None => {
                return Err(Error::Overflow);
            },
        };
        let cval = match value_of(pos.collateral_balance, collateral_price) {
            Some(v) => v,
            None => {
                return Err(Error::Overflow);
            },
        };
        let dval = match value_of(debt, borrow_price) {
            Some(v) => v,
            None => {
                return Err(Error::Overflow);
            },
        };
        let borrower = BorrowerData::new(
            cval,
            dval,
            self.markets[m].config.collateral_factor,
            self.markets[m].config.under_collaterized_warn_percent,
        );
        borrower.soon_under_collaterized()
    }

    /// Liquidates `account`'s position: allowed exactly when the
    /// position is flagged by the warning boundary. The position is
    /// zeroed, its collateral is handed to the caller's liquidation
    /// strategy (the returned amount), and its live debt is written off
    /// the outstanding total.
    pub fn liquidate(
        &mut self,
        market: MarketIndex,
        account: AccountId,
        collateral_price: Balance,
        borrow_price: Balance,
    ) -> (r: Result<Balance, Error>)
        requires
            old(self).wf(),
        ensures
            final(self).wf(),
            final(self).markets@.len() == old(self).markets@.len(),
            market.0 >= old(self).markets@.len() ==> r == Err::<Balance, Error>(
                Error::MarketDoesNotExist,
            ) && final(self).markets@ == old(self).markets@,
            market.0 < old(self).markets@.len() ==> {
                let pre = old(self).markets@[market.0 as int]@;
                &&& r == liquidate_outcome(pre, account, collateral_price, borrow_price)
                &&& (r is Err ==> final(self).markets@ == old(self).markets@)
                &&& (r is Ok ==> liquidate_ok_post(
                    pre,
                    final(self).markets@[market.0 as int]@,
                    account,
                ) && forall|j: int|
                    0 <= j < old(self).markets@.len() && j != market.0 ==> final(self).markets@[j]
                        == old(self).markets@[j])
            },
    {
        let m = market.0 as usize;
        if m >= self.markets.len() {
            return Err(Error::MarketDoesNotExist);
        }
        let ghost pre = self.markets@[m as int]@;
        let i = match find_borrower(&self.markets[m].borrowers, account) {
            Some(i) => i,
            None => {
                return Err(Error::BorrowerDataNotFound);
            },
        };
        proof {
            lemma_find_index_unique(pre.borrowers, account, i as int);
        }
        let pos = self.markets[m].borrowers[i].1;
        let debt = match debt_with_interest(&pos, self.markets[m].borrow_index) {
            Some(d) => d,
            None => {
                return Err(Error::Overflow);
            },
        };
        let cval = match value_of(pos.collateral_balance, collateral_price) {
            Some(v) => v,
            None => {
                return Err(Error::Overflow);
            },
        };
        let dval = match value_of(debt, borrow_price) {
            Some(v) => v,
            None => {
                return Err(Error::Overflow);
            },
        };
        let borrower = BorrowerData::new(
            cval,
            dval,
            self.markets[m].config.collateral_factor,
            self.markets[m].config.under_collaterized_warn_percent,
        );
        let flagged = match borrower.soon_under_collaterized() {
            Ok(f) => f,
            Err(e) => {
                return Err(e);
            },
        };
        if !flagged {
            return Err(Error::CannotLiquidateHealthyPosition);
        }
        proof {
            lemma_sum_element_le(pre.borrowers, i as int);
        }
        let new_total = match self.markets[m].total_collateral.checked_sub(
            pos.collateral_balance,
        ) {
            Some(t) => t,
            None => {
                return Err(Error::Overflow);
            },
        };
        let mkt = &mut self.markets[m];
        mkt.total_collateral = new_total;
        mkt.total_borrowed = if debt <= mkt.total_borrowed {
            mkt.total_borrowed - debt
        } else {
            0
        };
        mkt.borrowers.remove(i);
        proof {
            let post = final(self).markets@[m as int]@;
            assert(post.borrowers =~= pre.borrowers.remove(i as int));
            lemma_sum_remove(pre.borrowers, i as int);
            assert(unique_accounts(post.borrowers)) by {
                assert(forall|p: int, q: int|
                    0 <= p < q < post.borrowers.len() ==> post.borrowers[p].0
                        != post.borrowers[q].0);
            }
            assert(final(self).markets@[m as int].wf());
            assert(final(self).wf());
        }
        Ok(pos.collateral_balance)
    }

    /// Outstanding debt (principal plus accrued interest) of a market.
    pub fn total_borrowed(&self, market: MarketIndex) -> (r: Result<Balance, Error>)
        ensures
            market.0 < self.markets@.len() ==> r == Ok::<Balance, Error>(
                self.markets@[market.0 as int].total_borrowed,
            ),
            market.0 >= self.markets@.len() ==> r == Err::<Balance, Error>(
                Error::MarketDoesNotExist,
            ),
    {
        let m = market.0 as usize;
        if m >= self.markets.len() {
            return Err(Error::MarketDoesNotExist);
        }
        Ok(self.markets[m].total_borrowed)
    }
}

/// Deposit/withdraw round trip: a deposit that commits can always be
/// withdrawn in full while the account owes nothing, and doing so
/// returns the market's ledger — counters and positions alike — exactly
/// to its prior state, so the account's custody balance is restored to
/// the unit.
///
/// The ledger must hold no empty position for the account beforehand
/// (the engine's own operations never leave one behind).
pub proof fn lemma_deposit_withdraw_round_trip(
    s0: MarketView,
    s1: MarketView,
    s2: MarketView,
    account: AccountId,
    amount: Balance,
    collateral_price: Balance,
    borrow_price: Balance,
)
    requires
        unique_accounts(s0.borrowers),
        s0.total_collateral == sum_collateral(s0.borrowers),
        position_of(s0, account).debt_principal == 0,
        has_account(s0.borrowers, account) ==> position_of(s0, account).collateral_balance > 0,
        deposit_outcome(s0, account, amount) == Ok::<(), Error>(()),
        deposit_ok_post(s0, s1, account, amount),
        withdraw_ok_post(s1, s2, account, amount),
    ensures
        withdraw_outcome(s1, account, amount, collateral_price, borrow_price) == Ok::<(), Error>(
            (),
        ),
        s2.config == s0.config,
        s2.total_collateral == s0.total_collateral,
        s2.total_cash == s0.total_cash,
        s2.total_borrowed == s0.total_borrowed,
        s2.borrow_index == s0.borrow_index,
        s2.last_accrual_timestamp == s0.last_accrual_timestamp,
        s2.borrowers =~= s0.borrowers,
{
    if has_account(s0.borrowers, account) {
        let i = find_index(s0.borrowers, account);
        assert(0 <= i < s0.borrowers.len() && s0.borrowers[i].0 == account);
        let pos0 = s0.borrowers[i].1;
        assert(pos0 == position_of(s0, account));
        lemma_sum_element_le(s0.borrowers, i);
        assert(unique_accounts(s1.borrowers));
        lemma_find_index_unique(s1.borrowers, account, i);
        let pos1 = s1.borrowers[i].1;
        assert(pos1.collateral_balance == pos0.collateral_balance + amount);
        assert(pos1.debt_principal == 0);
        assert(!(pos1.collateral_balance == amount && pos1.debt_principal == 0));
        assert(s2.borrowers =~= s1.borrowers.update(i, (account, pos0)));
        assert(s2.borrowers =~= s0.borrowers);
    } else {
        let n = s0.borrowers.len() as int;
        assert(s1.borrowers =~= s0.borrowers.push(
            (account, BorrowerPosition::new_spec(amount, FixedU128 { inner: s0.borrow_index })),
        ));
        assert(unique_accounts(s1.borrowers)) by {
            assert(forall|p: int, q: int|
                0 <= p < q < s1.borrowers.len() ==> s1.borrowers[p].0 != s1.borrowers[q].0);
        }
        lemma_find_index_unique(s1.borrowers, account, n);
        let pos1 = s1.borrowers[n].1;
        assert(pos1.collateral_balance == amount && pos1.debt_principal == 0);
        assert(s2.borrowers =~= s1.borrowers.remove(n));
        assert(s2.borrowers =~= s0.borrowers);
    }
}

/// Borrow-limit boundary: with a fresh timestamp, sufficient cash and
/// room in the counters, a request whose value is exactly the account's
/// borrow limit commits, and one worth a single quote unit more is
/// refused for want of collateral.
pub proof fn lemma_borrow_limit_boundary(
    pre: MarketView,
    account: AccountId,
    amount_at_limit: Balance,
    amount_over_limit: Balance,
    collateral_price: Balance,
    borrow_price: Balance,
    now: Timestamp,
)
    requires
        ({
            let pos = position_of(pre, account);
            let debt = debt_with_interest_spec(pos, pre.borrow_index as int);
            let limit = borrow_limit_value_spec(pre, pos, collateral_price, borrow_price);
            &&& pos.last_borrow_timestamp != Some(now)
            &&& debt <= u128::MAX
            &&& value_of_spec(pos.collateral_balance as int, collateral_price as int)
                <= u128::MAX
            &&& value_of_spec(debt, borrow_price as int) <= u128::MAX
            &&& value_of_spec(amount_at_limit as int, borrow_price as int) == limit / (
            ONE as int)
            &&& value_of_spec(amount_over_limit as int, borrow_price as int) == limit / (
            ONE as int) + 1
            &&& (limit / (ONE as int) + 1) * ONE <= u128::MAX
            &&& amount_at_limit <= pre.total_cash
            &&& debt + amount_at_limit <= u128::MAX
            &&& pre.total_borrowed + amount_at_limit <= u128::MAX
        }),
    ensures
        borrow_outcome(pre, account, amount_at_limit, collateral_price, borrow_price, now)
            == Ok::<(), Error>(()),
        borrow_outcome(pre, account, amount_over_limit, collateral_price, borrow_price, now)
            == Err::<(), Error>(Error::NotEnoughCollateralToBorrowAmount),
{
    let pos = position_of(pre, account);
    let limit = borrow_limit_value_spec(pre, pos, collateral_price, borrow_price);
    let floor_limit = limit / (ONE as int);
    vstd::arithmetic::div_mod::lemma_fundamental_div_mod(limit, ONE as int);
    vstd::arithmetic::div_mod::lemma_mod_bound(limit, ONE as int);
    assert(floor_limit * ONE <= limit) by (nonlinear_arith)
        requires
            limit == (ONE as int) * floor_limit + limit % (ONE as int),
            limit % (ONE as int) >= 0,
    ;
    assert((floor_limit + 1) * ONE > limit) by (nonlinear_arith)
        requires
            limit == (ONE as int) * floor_limit + limit % (ONE as int),
            limit % (ONE as int) < ONE,
    ;
}

/// Same-tick repay rejection: the very tick a borrow committed in, any
/// repay by that account is refused with the timing-policy error.
pub proof fn lemma_same_tick_repay_rejected(
    pre: MarketView,
    post: MarketView,
    account: AccountId,
    amount: Balance,
    repay_amount: Balance,
    collateral_price: Balance,
    borrow_price: Balance,
    now: Timestamp,
)
    requires
        unique_accounts(pre.borrowers),
        borrow_outcome(pre, account, amount, collateral_price, borrow_price, now) == Ok::<
            (),
            Error,
        >(()),
        borrow_ok_post(pre, post, account, amount, now),
    ensures
        repay_outcome(post, account, repay_amount, now) == Err::<(), Error>(
            Error::BorrowAndRepayInSameBlockIsNotSupported,
        ),
{
    let pos = position_of(pre, account);
    let debt = debt_with_interest_spec(pos, pre.borrow_index as int);
    let newpos = BorrowerPosition {
        collateral_balance: pos.collateral_balance,
        debt_principal: (debt + amount) as Balance,
        borrow_principal_index: FixedU128 { inner: pre.borrow_index },
        last_borrow_timestamp: Some(now),
    };
    if has_account(pre.borrowers, account) {
        let i = find_index(pre.borrowers, account);
        assert(0 <= i < pre.borrowers.len() && pre.borrowers[i].0 == account);
        assert(post.borrowers =~= pre.borrowers.update(i, (account, newpos)));
        assert(unique_accounts(post.borrowers));
        lemma_find_index_unique(post.borrowers, account, i);
    } else {
        let n = pre.borrowers.len() as int;
        assert(post.borrowers =~= pre.borrowers.push((account, newpos)));
        assert(unique_accounts(post.borrowers)) by {
            assert(forall|p: int, q: int|
                0 <= p < q < post.borrowers.len() ==> post.borrowers[p].0 != post.borrowers[q].0);
        }
        lemma_find_index_unique(post.borrowers, account, n);
    }
}

/// The counterpart of [`lemma_same_tick_repay_rejected`]: one tick
/// later the same repay commits, provided it stays within the debt and
/// the cash counter has room.
pub proof fn lemma_next_tick_repay_accepted(
    pre: MarketView,
    post: MarketView,
    account: AccountId,
    amount: Balance,
    repay_amount: Balance,
    collateral_price: Balance,
    borrow_price: Balance,
    now: Timestamp,
    later: Timestamp,
)
    requires
        unique_accounts(pre.borrowers),
        borrow_outcome(pre, account, amount, collateral_price, borrow_price, now) == Ok::<
            (),
            Error,
        >(()),
        borrow_ok_post(pre, post, account, amount, now),
        later != now,
        repay_amount <= debt_with_interest_spec(
            position_of(post, account),
            post.borrow_index as int,
        ),
        debt_with_interest_spec(position_of(post, account), post.borrow_index as int)
            <= u128::MAX,
        post.total_cash + repay_amount <= u128::MAX,
    ensures
        repay_outcome(post, account, repay_amount, later) == Ok::<(), Error>(()),
{
    let pos = position_of(pre, account);
    let debt = debt_with_interest_spec(pos, pre.borrow_index as int);
    let newpos = BorrowerPosition {
        collateral_balance: pos.collateral_balance,
        debt_principal: (debt + amount) as Balance,
        borrow_principal_index: FixedU128 { inner: pre.borrow_index },
        last_borrow_timestamp: Some(now),
    };
    if has_account(pre.borrowers, account) {
        let i = find_index(pre.borrowers, account);
        assert(0 <= i < pre.borrowers.len() && pre.borrowers[i].0 == account);
        assert(post.borrowers =~= pre.borrowers.update(i, (account, newpos)));
        assert(unique_accounts(post.borrowers));
        lemma_find_index_unique(post.borrowers, account, i);
    } else {
        let n = pre.borrowers.len() as int;
        assert(post.borrowers =~= pre.borrowers.push((account, newpos)));
        assert(unique_accounts(post.borrowers)) by {
            assert(forall|p: int, q: int|
                0 <= p < q < post.borrowers.len() ==> post.borrowers[p].0 != post.borrowers[q].0);
        }
        lemma_find_index_unique(post.borrowers, account, n);
    }
}

} // verus!
