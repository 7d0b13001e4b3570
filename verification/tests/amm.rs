//! Automated-market-maker behaviour: pair creation, liquidity, swaps.

use aswap::engine::Pallet;
use aswap::types::{Error, Event};

const ACCOUNT_A: u64 = 1;
const ACCOUNT_B: u64 = 2;
const ACCOUNT_D_LOW_BALANCES: u64 = 4;
const PALLET_ACCOUNT: u64 = 1000;

const ASSET_A: u32 = 1;
const ASSET_B: u32 = 2;
const ASSET_C: u32 = 3;
const ASSET_NOT_EXIST: u32 = 99;
const ASSET_LP: u32 = 100;

const ACCOUNTS_START_BALANCE: u128 = 1_000_000;
const ACCOUNTS_START_LOW_BALANCE: u128 = 10;
const PALLET_START_BALANCE: u128 = 1_000_000;

fn new_test_ext() -> Pallet {
    let mut p = Pallet::new(PALLET_ACCOUNT);
    for asset in [ASSET_A, ASSET_B, ASSET_C] {
        assert!(p.create_asset(asset));
        p.mint(asset, PALLET_ACCOUNT, PALLET_START_BALANCE).unwrap();
        p.mint(asset, ACCOUNT_A, ACCOUNTS_START_BALANCE).unwrap();
        p.mint(asset, ACCOUNT_B, ACCOUNTS_START_BALANCE).unwrap();
    }
    p.mint(ASSET_A, ACCOUNT_D_LOW_BALANCES, ACCOUNTS_START_LOW_BALANCE).unwrap();
    p.mint(ASSET_B, ACCOUNT_D_LOW_BALANCES, ACCOUNTS_START_LOW_BALANCE).unwrap();
    p.set_block_number(1);
    p
}

#[test]
fn new_exchange_creates_zeroed_pair() {
    let mut p = new_test_ext();
    assert_eq!(
        p.new_exchange(ACCOUNT_A, ASSET_A, ASSET_B, ASSET_LP),
        Ok(Event::ExchangeCreated {
            asset_a_id: ASSET_A,
            asset_b_id: ASSET_B,
            asset_lp_id: ASSET_LP,
        })
    );
    // both directed reserves start at zero and share the LP asset
    let res_ab = p.liquidity_pools_reserves(ASSET_A, ASSET_B).unwrap();
    let res_ba = p.liquidity_pools_reserves(ASSET_B, ASSET_A).unwrap();
    assert_eq!(res_ab.reserve, 0);
    assert_eq!(res_ba.reserve, 0);
    assert_eq!(res_ab.asset_lp_id, ASSET_LP);
    assert_eq!(res_ba.asset_lp_id, ASSET_LP);
    let pool = p.liquidity_pools(ASSET_LP).unwrap();
    assert_eq!(pool.supply, 0);
    assert_eq!(pool.asset_a_id, ASSET_A);
    assert_eq!(pool.asset_b_id, ASSET_B);
    assert!(p.asset_exists(ASSET_LP));
    assert_eq!(p.get_liquidity_pool_asset_id(ASSET_B, ASSET_A), Ok(ASSET_LP));
    assert_eq!(p.get_pool_reserves(ASSET_A, ASSET_B), Ok((0, 0)));
}

#[test]
fn new_exchange_rejects_duplicates() {
    let mut p = new_test_ext();
    assert!(p.new_exchange(ACCOUNT_A, ASSET_A, ASSET_B, ASSET_LP).is_ok());
    // same pair, either orientation, with a fresh LP id
    assert_eq!(
        p.new_exchange(ACCOUNT_A, ASSET_A, ASSET_B, 101),
        Err(Error::LpTokenOrExchangeAlreadyExists)
    );
    assert_eq!(
        p.new_exchange(ACCOUNT_B, ASSET_B, ASSET_A, 101),
        Err(Error::LpTokenOrExchangeAlreadyExists)
    );
    // a different pair under the existing LP id
    assert_eq!(
        p.new_exchange(ACCOUNT_A, ASSET_A, ASSET_C, ASSET_LP),
        Err(Error::LpTokenOrExchangeAlreadyExists)
    );
    // unknown underlying assets
    assert_eq!(
        p.new_exchange(ACCOUNT_A, ASSET_NOT_EXIST, ASSET_B, 101),
        Err(Error::TokenNotExists)
    );
    assert_eq!(
        p.new_exchange(ACCOUNT_A, ASSET_A, ASSET_NOT_EXIST, 101),
        Err(Error::TokenNotExists)
    );
}

#[test]
fn add_liquidity_mints_bootstrap_and_proportional() {
    let mut p = new_test_ext();
    assert!(p.new_exchange(ACCOUNT_A, ASSET_A, ASSET_B, ASSET_LP).is_ok());
    // initial add of (500, 1500) mints floor(sqrt(500 * 1500)) = 866
    assert_eq!(
        p.add_liquidity(ACCOUNT_A, ASSET_A, 500, ASSET_B, 1500),
        Ok(Event::LiquidityAdded {
            asset_a_id: ASSET_A,
            asset_a_amount: 500,
            asset_b_id: ASSET_B,
            asset_b_amount: 1500,
        })
    );
    assert_eq!(p.balance_of(ASSET_LP, ACCOUNT_A), 866);
    assert_eq!(p.liquidity_pools(ASSET_LP).unwrap().supply, 866);
    assert_eq!(p.liquidity_pools_reserves(ASSET_A, ASSET_B).unwrap().reserve, 500);
    assert_eq!(p.liquidity_pools_reserves(ASSET_B, ASSET_A).unwrap().reserve, 1500);
    assert_eq!(p.balance_of(ASSET_A, ACCOUNT_A), ACCOUNTS_START_BALANCE - 500);
    assert_eq!(p.balance_of(ASSET_B, ACCOUNT_A), ACCOUNTS_START_BALANCE - 1500);

    // a second add of (1000, 3000) mints min(1000*866/500, 3000*866/1500) = 1732
    assert!(p.add_liquidity(ACCOUNT_B, ASSET_A, 1000, ASSET_B, 3000).is_ok());
    assert_eq!(p.balance_of(ASSET_LP, ACCOUNT_B), 1732);
    assert_eq!(p.liquidity_pools(ASSET_LP).unwrap().supply, 866 + 1732);
    assert_eq!(p.liquidity_pools_reserves(ASSET_A, ASSET_B).unwrap().reserve, 1500);
    assert_eq!(p.liquidity_pools_reserves(ASSET_B, ASSET_A).unwrap().reserve, 4500);
}

#[test]
fn add_liquidity_validations() {
    let mut p = new_test_ext();
    // no pool yet
    assert_eq!(
        p.add_liquidity(ACCOUNT_A, ASSET_A, 500, ASSET_B, 1500),
        Err(Error::PairNotExists)
    );
    assert!(p.new_exchange(ACCOUNT_A, ASSET_A, ASSET_B, ASSET_LP).is_ok());
    // zero amounts are rejected
    assert_eq!(p.add_liquidity(ACCOUNT_A, ASSET_A, 0, ASSET_B, 1500), Err(Error::InvalidAmount));
    assert_eq!(p.add_liquidity(ACCOUNT_A, ASSET_A, 500, ASSET_B, 0), Err(Error::InvalidAmount));
    // unknown assets are rejected
    assert_eq!(
        p.add_liquidity(ACCOUNT_A, ASSET_NOT_EXIST, 500, ASSET_B, 1500),
        Err(Error::TokenNotExists)
    );
    // insufficient funds are rejected
    assert_eq!(
        p.add_liquidity(ACCOUNT_D_LOW_BALANCES, ASSET_A, 500, ASSET_B, 1500),
        Err(Error::LowBalance)
    );
}

#[test]
fn add_liquidity_overflow_aborts() {
    let mut p = new_test_ext();
    assert!(p.new_exchange(ACCOUNT_A, ASSET_A, ASSET_B, ASSET_LP).is_ok());
    let big: u128 = 1 << 64;
    p.mint(ASSET_A, ACCOUNT_A, big).unwrap();
    p.mint(ASSET_B, ACCOUNT_A, big).unwrap();
    // sqrt bootstrap over amounts whose product exceeds the balance type
    assert_eq!(
        p.add_liquidity(ACCOUNT_A, ASSET_A, big, ASSET_B, big),
        Err(Error::OverflowOrUnderflow)
    );
    // nothing changed
    assert_eq!(p.liquidity_pools(ASSET_LP).unwrap().supply, 0);
    assert_eq!(p.balance_of(ASSET_A, ACCOUNT_A), ACCOUNTS_START_BALANCE + big);
}

#[test]
fn swap_follows_constant_product() {
    let mut p = new_test_ext();
    assert!(p.new_exchange(ACCOUNT_A, ASSET_A, ASSET_B, ASSET_LP).is_ok());
    assert!(p.add_liquidity(ACCOUNT_A, ASSET_A, 500, ASSET_B, 1500).is_ok());
    // quoting 16 of B for A: floor(500 * 16 / (1500 + 16)) = 5
    assert_eq!(p.get_amount_out(ASSET_B, 16, ASSET_A), Ok(5));
    assert_eq!(
        p.swap(ACCOUNT_B, ASSET_B, 16, ASSET_A, 0, None, None),
        Ok(Event::SwapeExecuted {
            asset_a_id: ASSET_B,
            asset_a_amount: 16,
            asset_b_id: ASSET_A,
            asset_b_amount: 5,
        })
    );
    // reserves update to (495, 1516)
    let r_a = p.liquidity_pools_reserves(ASSET_A, ASSET_B).unwrap().reserve;
    let r_b = p.liquidity_pools_reserves(ASSET_B, ASSET_A).unwrap().reserve;
    assert_eq!(r_a, 495);
    assert_eq!(r_b, 1516);
    // the reserve product never decreases
    assert!(r_a * r_b >= 500 * 1500);
    // the trader paid 16 of B and received 5 of A
    assert_eq!(p.balance_of(ASSET_B, ACCOUNT_B), ACCOUNTS_START_BALANCE - 16);
    assert_eq!(p.balance_of(ASSET_A, ACCOUNT_B), ACCOUNTS_START_BALANCE + 5);
}

#[test]
fn swap_slippage_and_deadline() {
    let mut p = new_test_ext();
    assert!(p.new_exchange(ACCOUNT_A, ASSET_A, ASSET_B, ASSET_LP).is_ok());
    assert!(p.add_liquidity(ACCOUNT_A, ASSET_A, 500, ASSET_B, 1500).is_ok());
    // the quote is 5; a minimum of 6 aborts with the slippage error
    assert_eq!(
        p.swap(ACCOUNT_B, ASSET_B, 16, ASSET_A, 6, None, None),
        Err(Error::SwapOutBelowMin)
    );
    // a deadline below the current height aborts
    p.set_block_number(10);
    assert_eq!(
        p.swap(ACCOUNT_B, ASSET_B, 16, ASSET_A, 0, Some(9), None),
        Err(Error::Expired)
    );
    // a deadline at the current height still executes
    assert!(p.swap(ACCOUNT_B, ASSET_B, 16, ASSET_A, 0, Some(10), None).is_ok());
}

#[test]
fn swap_to_other_account_and_missing_pair() {
    let mut p = new_test_ext();
    assert_eq!(p.get_amount_out(ASSET_B, 16, ASSET_A), Err(Error::PairNotExists));
    assert_eq!(
        p.swap(ACCOUNT_B, ASSET_B, 16, ASSET_A, 0, None, None),
        Err(Error::PairNotExists)
    );
    assert!(p.new_exchange(ACCOUNT_A, ASSET_A, ASSET_B, ASSET_LP).is_ok());
    assert!(p.add_liquidity(ACCOUNT_A, ASSET_A, 500, ASSET_B, 1500).is_ok());
    // the output can be directed to a third account
    assert!(p.swap(ACCOUNT_B, ASSET_B, 16, ASSET_A, 0, None, Some(ACCOUNT_D_LOW_BALANCES)).is_ok());
    assert_eq!(
        p.balance_of(ASSET_A, ACCOUNT_D_LOW_BALANCES),
        ACCOUNTS_START_LOW_BALANCE + 5
    );
}

#[test]
fn remove_liquidity_returns_proportional_share() {
    let mut p = new_test_ext();
    assert!(p.new_exchange(ACCOUNT_A, ASSET_A, ASSET_B, ASSET_LP).is_ok());
    assert!(p.add_liquidity(ACCOUNT_A, ASSET_A, 500, ASSET_B, 1500).is_ok());
    // removing 100 of 866 LP units returns floor(100*500/866) = 57 of A
    // and floor(100*1500/866) = 173 of B
    assert_eq!(
        p.remove_liquidity(ACCOUNT_A, ASSET_LP, 100),
        Ok(Event::LiquidityRemoved {
            asset_a_id: ASSET_A,
            asset_a_amount: 57,
            asset_b_id: ASSET_B,
            asset_b_amount: 173,
            lp_asset_amount_burned: 100,
        })
    );
    assert_eq!(p.balance_of(ASSET_LP, ACCOUNT_A), 766);
    assert_eq!(p.liquidity_pools(ASSET_LP).unwrap().supply, 766);
    assert_eq!(p.liquidity_pools_reserves(ASSET_A, ASSET_B).unwrap().reserve, 443);
    assert_eq!(p.liquidity_pools_reserves(ASSET_B, ASSET_A).unwrap().reserve, 1327);
    assert_eq!(p.balance_of(ASSET_A, ACCOUNT_A), ACCOUNTS_START_BALANCE - 500 + 57);
    assert_eq!(p.balance_of(ASSET_B, ACCOUNT_A), ACCOUNTS_START_BALANCE - 1500 + 173);
}

#[test]
fn remove_liquidity_validations() {
    let mut p = new_test_ext();
    assert!(p.new_exchange(ACCOUNT_A, ASSET_A, ASSET_B, ASSET_LP).is_ok());
    assert!(p.add_liquidity(ACCOUNT_A, ASSET_A, 500, ASSET_B, 1500).is_ok());
    // removing zero is an invalid amount
    assert_eq!(p.remove_liquidity(ACCOUNT_A, ASSET_LP, 0), Err(Error::InvalidAmount));
    // removing more than the caller's LP balance fails with low balance
    assert_eq!(p.remove_liquidity(ACCOUNT_A, ASSET_LP, 867), Err(Error::LowBalance));
    assert_eq!(p.remove_liquidity(ACCOUNT_B, ASSET_LP, 1), Err(Error::LowBalance));
    // an unknown LP asset fails the asset check
    assert_eq!(p.remove_liquidity(ACCOUNT_A, ASSET_NOT_EXIST, 1), Err(Error::TokenNotExists));
    // an existing asset that keys no pool fails the pool lookup
    p.mint(ASSET_C, ACCOUNT_A, 5).unwrap();
    assert_eq!(p.remove_liquidity(ACCOUNT_A, ASSET_C, 5), Err(Error::PairNotExists));
}

#[test]
fn genesis_helpers_edges() {
    let mut p = new_test_ext();
    assert_eq!(p.block_number(), 1);
    // creating an existing asset reports that it was already there
    assert!(!p.create_asset(ASSET_A));
    // a credit that would overflow the balance is rejected
    assert_eq!(
        p.mint(ASSET_A, ACCOUNT_A, u128::MAX),
        Err(aswap::types::Error::OverflowOrUnderflow)
    );
    assert_eq!(p.balance_of(ASSET_A, ACCOUNT_A), ACCOUNTS_START_BALANCE);
}
