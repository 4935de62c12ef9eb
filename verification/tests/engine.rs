use lending_core::currency::CurrencyId;
use lending_core::engine::{
    account_id, LendingEngine, MarketConfig, MarketIndex, PRICE_SCALE,
};
use lending_core::math::{FixedU128, Percent};
use lending_core::rate_model::InterestRateModel;
use lending_core::Error;

const MILLISECS_PER_BLOCK: u64 = 6000;
const ALICE: u128 = 1;
const BOB: u128 = 2;

fn unit() -> u128 {
    CurrencyId::unit()
}

fn create_market(
    engine: &mut LendingEngine,
    borrow_asset: CurrencyId,
    collateral_asset: CurrencyId,
    manager: u128,
    reserved: Percent,
    collateral_factor: FixedU128,
) -> MarketIndex {
    let market_config = MarketConfig {
        manager,
        borrow_asset,
        collateral_asset,
        reserved_factor: reserved,
        collateral_factor,
        under_collaterized_warn_percent: Percent::from_percent(10),
        interest_rate_model: InterestRateModel::default(),
    };
    engine.create_market(market_config).unwrap()
}

/// A market lending BTC against straight USDT collateral, with the
/// stock 10% reserve and 200% collateralization.
fn create_simple_market(engine: &mut LendingEngine) -> MarketIndex {
    create_market(
        engine,
        CurrencyId(2000),
        CurrencyId(130),
        ALICE,
        Percent::from_percent(10),
        FixedU128::saturating_from_rational(200, 100),
    )
}

#[test]
fn test_borrow_repay_in_same_block() {
    let mut engine = LendingEngine::new();
    let collateral_amount = 900000u128;
    let market = create_simple_market(&mut engine);
    // Both assets priced at par, as the stock oracle quotes them.
    let usdt_price = PRICE_SCALE;
    let btc_price = PRICE_SCALE;

    engine
        .deposit_collateral(market, ALICE, collateral_amount)
        .unwrap();

    // The only lender's deposit reaches the market at the next tick, less
    // the vault's 10% reserve.
    let borrow_asset_deposit = collateral_amount;
    let mut total_cash = borrow_asset_deposit * 9 / 10;
    engine
        .on_tick(market, MILLISECS_PER_BLOCK, total_cash)
        .unwrap();

    assert_eq!(engine.borrow_balance_current(market, ALICE), Ok(Some(0)));
    let alice_limit = engine
        .get_borrow_limit(market, ALICE, usdt_price, btc_price)
        .unwrap();
    assert_eq!(engine.total_cash(market), Ok(total_cash));
    engine.on_tick(market, MILLISECS_PER_BLOCK, 0).unwrap();
    engine
        .borrow(
            market,
            ALICE,
            alice_limit / 4,
            usdt_price,
            btc_price,
            MILLISECS_PER_BLOCK,
        )
        .unwrap();
    total_cash -= alice_limit / 4;
    let total_borrows = alice_limit / 4;
    assert_eq!(engine.total_cash(market), Ok(total_cash));
    assert_eq!(engine.total_borrowed(market), Ok(total_borrows));
    let alice_repay_amount = engine
        .borrow_balance_current(market, ALICE)
        .unwrap()
        .unwrap();
    assert_eq!(
        engine.repay(market, ALICE, alice_repay_amount, MILLISECS_PER_BLOCK),
        Err(Error::BorrowAndRepayInSameBlockIsNotSupported)
    );
}

#[test]
fn test_borrow() {
    let mut engine = LendingEngine::new();
    let market = create_simple_market(&mut engine);

    // 1 BTC = 50_000 USDT; USDT at par.
    let usdt_price = PRICE_SCALE;
    let btc_price_per_unit = 50_000 * unit();
    let btc_value = |x: u128| x * 50_000 * unit();

    let collateral_amount = 1_000_000 * unit();
    engine
        .deposit_collateral(market, ALICE, collateral_amount)
        .unwrap();

    // The lender puts up 100 BTC; 90% becomes borrowable at the tick.
    let borrow_asset_deposit = 100 * unit();
    let alice_limit = engine
        .get_borrow_limit(market, ALICE, usdt_price, btc_price_per_unit)
        .unwrap();
    // Can only borrow $500_000 worth of BTC.
    assert_eq!(alice_limit, btc_value(10));

    engine
        .on_tick(market, MILLISECS_PER_BLOCK, borrow_asset_deposit * 9 / 10)
        .unwrap();
    let expected_cash = borrow_asset_deposit * 9 / 10;
    assert_eq!(engine.total_cash(market), Ok(expected_cash));

    // Borrow a single BTC.
    let alice_borrow = unit();
    engine
        .borrow(
            market,
            ALICE,
            alice_borrow,
            usdt_price,
            btc_price_per_unit,
            MILLISECS_PER_BLOCK,
        )
        .unwrap();
    assert_eq!(engine.total_cash(market), Ok(expected_cash - alice_borrow));
    assert_eq!(engine.total_borrowed(market), Ok(alice_borrow));

    // Let interest accrue over many ticks, replaying the documented
    // accrual independently: utilization percent, the interpolated rate,
    // the period rate (rounded to nearest), and the truncated increase.
    let mut expected_borrowed = alice_borrow;
    let cash = expected_cash - alice_borrow;
    for i in 2..10000u64 {
        engine.on_tick(market, i * MILLISECS_PER_BLOCK, 0).unwrap();
        let util = expected_borrowed * 100 / (cash + expected_borrowed);
        let rate = 20_000_000_000_000_000u128 + 80_000_000_000_000_000u128 * util / 80;
        let period_rate =
            (rate * MILLISECS_PER_BLOCK as u128 + 31_536_000 / 2) / 31_536_000;
        expected_borrowed += expected_borrowed * period_rate / 1_000_000_000_000_000_000;
    }
    assert_eq!(engine.total_borrowed(market), Ok(expected_borrowed));
    assert!(expected_borrowed > alice_borrow);

    let now = 9999 * MILLISECS_PER_BLOCK;
    // Interest means we cannot borrow the remaining 9 BTC.
    assert_eq!(
        engine.borrow(market, ALICE, 9 * unit(), usdt_price, btc_price_per_unit, now),
        Err(Error::NotEnoughCollateralToBorrowAmount)
    );
    // Borrow less because of interest.
    engine
        .borrow(market, ALICE, 8 * unit(), usdt_price, btc_price_per_unit, now)
        .unwrap();
    // More than one borrow request in the same tick is invalid.
    assert_eq!(
        engine.borrow(market, ALICE, 1, usdt_price, btc_price_per_unit, now),
        Err(Error::InvalidTimestampOnBorrowRequest)
    );

    engine
        .on_tick(market, 10001 * MILLISECS_PER_BLOCK, 0)
        .unwrap();
    engine
        .deposit_collateral(market, ALICE, collateral_amount)
        .unwrap();
    let alice_limit = engine
        .get_borrow_limit(market, ALICE, usdt_price, btc_price_per_unit)
        .unwrap();
    // We did not borrow 9 because of interest, and added collateral worth
    // 10 BTC: the limit must fall strictly between 10 and 11 BTC.
    assert!(btc_value(11) > alice_limit && alice_limit > btc_value(10));

    let now = 10001 * MILLISECS_PER_BLOCK;
    // Try to borrow more than the limit.
    assert_eq!(
        engine.borrow(market, ALICE, 11 * unit(), usdt_price, btc_price_per_unit, now),
        Err(Error::NotEnoughCollateralToBorrowAmount)
    );
    engine
        .borrow(market, ALICE, 10 * unit(), usdt_price, btc_price_per_unit, now)
        .unwrap();
}

#[test]
fn test_vault_market_cannot_withdraw() {
    let mut engine = LendingEngine::new();
    let market = create_simple_market(&mut engine);
    let usdt_price = PRICE_SCALE;
    let btc_price_per_unit = 50_000 * unit();

    let deposit_usdt = 1_000_000 * unit();
    engine
        .deposit_collateral(market, ALICE, deposit_usdt)
        .unwrap();

    // Not even one tick has passed, so the market could not withdraw any
    // funds from its vault yet.
    assert_eq!(
        engine.borrow(market, ALICE, unit(), usdt_price, btc_price_per_unit, 0),
        Err(Error::NotEnoughBorrowAsset)
    );
}

#[test]
fn test_vault_market_can_withdraw() {
    let mut engine = LendingEngine::new();
    let market = create_simple_market(&mut engine);
    let usdt_price = PRICE_SCALE;
    let btc_price_per_unit = 50_000 * unit();

    let deposit_usdt = 1_000_000 * unit();
    let deposit_btc = 10 * unit();
    engine
        .deposit_collateral(market, ALICE, deposit_usdt)
        .unwrap();

    engine
        .on_tick(market, MILLISECS_PER_BLOCK, deposit_btc * 9 / 10)
        .unwrap();

    // One tick has passed and the vault funds have settled.
    engine
        .borrow(
            market,
            ALICE,
            unit(),
            usdt_price,
            btc_price_per_unit,
            MILLISECS_PER_BLOCK,
        )
        .unwrap();
}

#[test]
fn borrow_repay() {
    let mut engine = LendingEngine::new();
    let alice_balance = 1_000_000 * unit();
    let bob_balance = 1_000_000 * unit();

    let market = create_simple_market(&mut engine);
    // Both assets at par, so values and amounts coincide.
    let usdt_price = PRICE_SCALE;
    let btc_price = PRICE_SCALE;

    engine
        .deposit_collateral(market, ALICE, alice_balance)
        .unwrap();
    engine.deposit_collateral(market, BOB, bob_balance).unwrap();

    // The lender's funds settle at the first tick.
    let borrow_asset_deposit = 2_000_000 * unit();
    engine
        .on_tick(market, MILLISECS_PER_BLOCK, borrow_asset_deposit * 9 / 10)
        .unwrap();

    // ALICE borrows her full limit.
    assert_eq!(engine.borrow_balance_current(market, ALICE), Ok(Some(0)));
    let alice_limit = engine
        .get_borrow_limit(market, ALICE, usdt_price, btc_price)
        .unwrap();
    engine
        .borrow(market, ALICE, alice_limit, usdt_price, btc_price, MILLISECS_PER_BLOCK)
        .unwrap();

    for i in 2..10000u64 {
        engine.on_tick(market, i * MILLISECS_PER_BLOCK, 0).unwrap();
    }

    // BOB borrows his full limit.
    assert_eq!(engine.borrow_balance_current(market, BOB), Ok(Some(0)));
    let bob_limit = engine
        .get_borrow_limit(market, BOB, usdt_price, btc_price)
        .unwrap();
    engine
        .borrow(
            market,
            BOB,
            bob_limit,
            usdt_price,
            btc_price,
            9999 * MILLISECS_PER_BLOCK,
        )
        .unwrap();

    for i in 10000..20000u64 {
        engine.on_tick(market, i * MILLISECS_PER_BLOCK, 0).unwrap();
    }

    let alice_repay_amount = engine
        .borrow_balance_current(market, ALICE)
        .unwrap()
        .unwrap();
    let bob_repay_amount = engine
        .borrow_balance_current(market, BOB)
        .unwrap()
        .unwrap();
    // Interest accrued on both loans.
    assert!(alice_repay_amount > alice_limit);
    assert!(bob_repay_amount > bob_limit);

    // Both repay their full debt; the extra over the borrowed amount is
    // the interest they pay on top of what they received.
    let now = 19999 * MILLISECS_PER_BLOCK;
    engine.repay(market, BOB, bob_repay_amount, now).unwrap();
    engine.repay(market, ALICE, alice_repay_amount, now).unwrap();
    assert_eq!(engine.borrow_balance_current(market, ALICE), Ok(Some(0)));
    assert_eq!(engine.borrow_balance_current(market, BOB), Ok(Some(0)));
}

#[test]
fn test_liquidation() {
    let mut engine = LendingEngine::new();
    let market = create_market(
        &mut engine,
        CurrencyId(130),
        CurrencyId(2000),
        ALICE,
        Percent::from_percent(10),
        FixedU128::saturating_from_rational(2, 1),
    );
    let usdt_price = PRICE_SCALE;

    // 1 BTC = 100 USDT; deposit 2 BTC.
    let mut btc_price = 100 * unit();
    let two_btc_amount = 2 * unit();
    engine
        .deposit_collateral(market, ALICE, two_btc_amount)
        .unwrap();

    let usdt_amt = u32::MAX as u128 * unit();
    engine
        .on_tick(market, MILLISECS_PER_BLOCK, usdt_amt * 9 / 10)
        .unwrap();

    let borrow_limit = engine
        .get_borrow_limit(market, ALICE, btc_price, usdt_price)
        .unwrap();
    assert!(borrow_limit > 0);
    // Borrow the maximum.
    engine
        .borrow(
            market,
            ALICE,
            borrow_limit,
            btc_price,
            usdt_price,
            MILLISECS_PER_BLOCK,
        )
        .unwrap();

    for i in 2..10000u64 {
        engine.on_tick(market, i * MILLISECS_PER_BLOCK, 0).unwrap();
    }

    // A healthy position cannot be liquidated.
    assert_eq!(
        engine.liquidate(market, BOB, btc_price, usdt_price),
        Err(Error::BorrowerDataNotFound)
    );

    // Collateral going down implies liquidation.
    btc_price = 99 * unit();
    let seized = engine
        .liquidate(market, ALICE, btc_price, usdt_price)
        .unwrap();
    assert_eq!(seized, two_btc_amount);
    assert_eq!(engine.borrow_balance_current(market, ALICE), Ok(None));
}

#[test]
fn test_warn_soon_under_collaterized() {
    let mut engine = LendingEngine::new();
    let market = create_market(
        &mut engine,
        CurrencyId(130),
        CurrencyId(2000),
        ALICE,
        Percent::from_percent(10),
        FixedU128::saturating_from_rational(2, 1),
    );
    let usdt_price = PRICE_SCALE;

    // 1 BTC = 100 USDT; deposit 2 BTC.
    let btc_price = 100 * unit();
    let two_btc_amount = 2 * unit();
    engine
        .deposit_collateral(market, ALICE, two_btc_amount)
        .unwrap();

    let usdt_amt = u32::MAX as u128 * unit();
    engine
        .on_tick(market, MILLISECS_PER_BLOCK, usdt_amt * 9 / 10)
        .unwrap();

    assert_eq!(engine.borrow_balance_current(market, ALICE), Ok(Some(0)));
    // Can borrow 1/collateral_factor of the deposit's value:
    // half of 200 USDT.
    assert_eq!(
        engine.get_borrow_limit(market, ALICE, btc_price, usdt_price),
        Ok(100 * unit())
    );

    // Borrow 80 USDT.
    let borrow_amount = 80 * unit();
    engine
        .borrow(
            market,
            ALICE,
            borrow_amount,
            btc_price,
            usdt_price,
            MILLISECS_PER_BLOCK,
        )
        .unwrap();

    // A few ticks of interest keep the debt just above 80 USDT.
    for i in 2..10u64 {
        engine.on_tick(market, i * MILLISECS_PER_BLOCK, 0).unwrap();
    }

    // Collateral = 2 * 90 = 180, borrow ~= 80, ratio ~= 2.25: safe.
    assert_eq!(
        engine.soon_under_collaterized(market, ALICE, 90 * unit(), usdt_price),
        Ok(false)
    );
    // Collateral = 2 * 87 = 174, borrow ~= 80, ratio ~= 2.18: flagged.
    assert_eq!(
        engine.soon_under_collaterized(market, ALICE, 87 * unit(), usdt_price),
        Ok(true)
    );
}

#[test]
fn market_are_isolated() {
    let mut engine = LendingEngine::new();
    let market_id1 = create_simple_market(&mut engine);
    let market_id2 = create_simple_market(&mut engine);

    // Identically configured markets stay distinct.
    assert_ne!(market_id1, market_id2);
    assert_ne!(account_id(market_id1), account_id(market_id2));

    let amount1 = 123_456 * unit();
    let amount2 = 654_321 * unit();

    // Funds settled into one market's ledger never appear in the other.
    engine
        .on_tick(market_id1, MILLISECS_PER_BLOCK, amount1 * 9 / 10)
        .unwrap();
    engine
        .on_tick(market_id2, MILLISECS_PER_BLOCK, amount2 * 9 / 10)
        .unwrap();
    assert_eq!(engine.total_cash(market_id1), Ok(amount1 * 9 / 10));
    assert_eq!(engine.total_cash(market_id2), Ok(amount2 * 9 / 10));

    // Collateral deposited into one market stays there too.
    engine
        .deposit_collateral(market_id1, ALICE, amount1)
        .unwrap();
    assert_eq!(engine.borrow_balance_current(market_id2, ALICE), Ok(None));
    assert_eq!(engine.total_cash(market_id2), Ok(amount2 * 9 / 10));
    assert_eq!(engine.total_borrowed(market_id2), Ok(0));
}

#[test]
fn market_collateral_deposit_withdraw_identity() {
    let mut engine = LendingEngine::new();
    let market = create_simple_market(&mut engine);
    let amount = 999_999_999_999u128;

    engine.deposit_collateral(market, ALICE, amount).unwrap();
    engine
        .withdraw_collateral(market, ALICE, amount, PRICE_SCALE, PRICE_SCALE)
        .unwrap();
    // The ledger is back to its creation state.
    assert_eq!(engine.total_cash(market), Ok(0));
    assert_eq!(engine.total_borrowed(market), Ok(0));
    assert_eq!(engine.borrow_balance_current(market, ALICE), Ok(None));
    assert_eq!(
        engine.get_borrow_limit(market, ALICE, PRICE_SCALE, PRICE_SCALE),
        Ok(0)
    );
}

#[test]
fn market_collateral_deposit_withdraw_higher_amount_fails() {
    let mut engine = LendingEngine::new();
    let market = create_simple_market(&mut engine);
    let amount = 999_999_999_999u128;

    engine.deposit_collateral(market, ALICE, amount).unwrap();
    assert_eq!(
        engine.withdraw_collateral(market, ALICE, amount + 1, PRICE_SCALE, PRICE_SCALE),
        Err(Error::NotEnoughCollateral)
    );
}

#[test]
fn borrow_at_exact_limit_boundary() {
    let mut engine = LendingEngine::new();
    let market = create_simple_market(&mut engine);
    // Par prices: the limit value equals the borrowable amount.
    engine
        .deposit_collateral(market, ALICE, 900_000)
        .unwrap();
    engine.on_tick(market, MILLISECS_PER_BLOCK, 900_000).unwrap();
    let limit = engine
        .get_borrow_limit(market, ALICE, PRICE_SCALE, PRICE_SCALE)
        .unwrap();
    assert_eq!(limit, 450_000);
    // One smallest unit over the limit is refused...
    assert_eq!(
        engine.borrow(
            market,
            ALICE,
            limit + 1,
            PRICE_SCALE,
            PRICE_SCALE,
            MILLISECS_PER_BLOCK,
        ),
        Err(Error::NotEnoughCollateralToBorrowAmount)
    );
    // ... and exactly the limit is granted.
    engine
        .borrow(market, ALICE, limit, PRICE_SCALE, PRICE_SCALE, MILLISECS_PER_BLOCK)
        .unwrap();
}

#[test]
fn same_tick_repay_succeeds_next_tick() {
    let mut engine = LendingEngine::new();
    let market = create_simple_market(&mut engine);
    engine
        .deposit_collateral(market, ALICE, 900_000)
        .unwrap();
    engine.on_tick(market, MILLISECS_PER_BLOCK, 810_000).unwrap();
    engine
        .borrow(market, ALICE, 100_000, PRICE_SCALE, PRICE_SCALE, MILLISECS_PER_BLOCK)
        .unwrap();
    // Same tick: refused.
    assert_eq!(
        engine.repay(market, ALICE, 100_000, MILLISECS_PER_BLOCK),
        Err(Error::BorrowAndRepayInSameBlockIsNotSupported)
    );
    // One tick later: accepted.
    engine
        .on_tick(market, 2 * MILLISECS_PER_BLOCK, 0)
        .unwrap();
    let owed = engine
        .borrow_balance_current(market, ALICE)
        .unwrap()
        .unwrap();
    engine.repay(market, ALICE, owed, 2 * MILLISECS_PER_BLOCK).unwrap();
    assert_eq!(engine.borrow_balance_current(market, ALICE), Ok(Some(0)));
}

#[test]
fn engine_error_paths() {
    let mut engine = LendingEngine::new();
    let bogus = MarketIndex(7);
    assert_eq!(engine.total_cash(bogus), Err(Error::MarketDoesNotExist));
    assert_eq!(
        engine.deposit_collateral(bogus, ALICE, 1),
        Err(Error::MarketDoesNotExist)
    );

    // An invalid curve is rejected at the boundary.
    let mut config = MarketConfig {
        manager: ALICE,
        borrow_asset: CurrencyId(2000),
        collateral_asset: CurrencyId(130),
        reserved_factor: Percent::from_percent(10),
        collateral_factor: FixedU128::saturating_from_rational(200, 100),
        under_collaterized_warn_percent: Percent::from_percent(10),
        interest_rate_model: InterestRateModel::default(),
    };
    let broken_model = match config.interest_rate_model {
        InterestRateModel::Jump(mut m) => {
            m.base_rate = FixedU128::saturating_from_rational(50, 100);
            InterestRateModel::Jump(m)
        },
    };
    let bad_config = MarketConfig { interest_rate_model: broken_model, ..config };
    assert_eq!(
        engine.create_market(bad_config),
        Err(Error::InvalidInterestRateModel)
    );
    // A collateral factor below one would under-collateralize loans.
    config.collateral_factor = FixedU128::saturating_from_rational(50, 100);
    assert_eq!(
        engine.create_market(config),
        Err(Error::InvalidMarketConfiguration)
    );

    let market = create_simple_market(&mut engine);
    // No position yet.
    assert_eq!(
        engine.repay(market, ALICE, 1, 0),
        Err(Error::BorrowerDataNotFound)
    );
    assert_eq!(
        engine.withdraw_collateral(market, ALICE, 1, PRICE_SCALE, PRICE_SCALE),
        Err(Error::NotEnoughCollateral)
    );
    assert_eq!(
        engine.liquidate(market, ALICE, PRICE_SCALE, PRICE_SCALE),
        Err(Error::BorrowerDataNotFound)
    );

    engine.deposit_collateral(market, ALICE, 1_000).unwrap();
    engine.on_tick(market, MILLISECS_PER_BLOCK, 1_000).unwrap();
    engine
        .borrow(market, ALICE, 100, PRICE_SCALE, PRICE_SCALE, MILLISECS_PER_BLOCK)
        .unwrap();
    engine.on_tick(market, 2 * MILLISECS_PER_BLOCK, 0).unwrap();
    // Repaying more than is owed is refused.
    assert_eq!(
        engine.repay(market, ALICE, 101, 2 * MILLISECS_PER_BLOCK),
        Err(Error::CannotRepayMoreThanTotalDebt)
    );
    // A healthy position cannot be liquidated.
    assert_eq!(
        engine.liquidate(market, ALICE, PRICE_SCALE, PRICE_SCALE),
        Err(Error::CannotLiquidateHealthyPosition)
    );
    // The collateral counter cannot overflow.
    engine
        .deposit_collateral(market, BOB, u128::MAX - 1_000)
        .unwrap();
    assert_eq!(
        engine.deposit_collateral(market, BOB, 1_001),
        Err(Error::Overflow)
    );
}
