//! Hashed-timelock escrow behaviour: lock, unlock and cancel.

use aswap::engine::Pallet;
use aswap::types::{Error, Event};

const ACCOUNT_A: u64 = 1;
const ACCOUNT_B: u64 = 2;
const ACCOUNT_C: u64 = 3;
const ACCOUNT_D_LOW_BALANCES: u64 = 4;
const PALLET_ACCOUNT: u64 = 1000;

const ASSET_A: u32 = 1;
const ASSET_B: u32 = 2;
const ASSET_C: u32 = 3;
const ASSET_NOT_EXIST: u32 = 99;

const ACCOUNTS_START_BALANCE: u128 = 1_000_000;
const ACCOUNTS_START_LOW_BALANCE: u128 = 10;
const PALLET_START_BALANCE: u128 = 1_000_000;

fn sha256(data: &[u8]) -> [u8; 32] {
    <sha2::Sha256 as sha2::Digest>::digest(data).into()
}

fn tx_id_for(
    sender: u64,
    recipient: u64,
    hash: [u8; 32],
    timelock: u64,
    asset: u32,
    amount: u128,
) -> [u8; 32] {
    let mut data: Vec<u8> = Vec::new();
    data.extend_from_slice(&sender.to_le_bytes());
    data.extend_from_slice(&recipient.to_le_bytes());
    data.extend_from_slice(&hash);
    data.extend_from_slice(&timelock.to_le_bytes());
    data.extend_from_slice(&asset.to_le_bytes());
    data.extend_from_slice(&amount.to_le_bytes());
    sha256(&data)
}

fn new_test_ext() -> Pallet {
    let mut p = Pallet::new(PALLET_ACCOUNT);
    for asset in [ASSET_A, ASSET_B, ASSET_C] {
        assert!(p.create_asset(asset));
        p.mint(asset, PALLET_ACCOUNT, PALLET_START_BALANCE).unwrap();
        p.mint(asset, ACCOUNT_A, ACCOUNTS_START_BALANCE).unwrap();
        p.mint(asset, ACCOUNT_B, ACCOUNTS_START_BALANCE).unwrap();
        p.mint(asset, ACCOUNT_C, ACCOUNTS_START_BALANCE).unwrap();
    }
    p.mint(ASSET_A, ACCOUNT_D_LOW_BALANCES, ACCOUNTS_START_LOW_BALANCE).unwrap();
    p.mint(ASSET_B, ACCOUNT_D_LOW_BALANCES, ACCOUNTS_START_LOW_BALANCE).unwrap();
    p.set_block_number(1);
    p
}

fn get_pallet_balance(p: &Pallet, asset: u32) -> u128 {
    p.balance_of(asset, p.account_id())
}

fn get_account_balance(p: &Pallet, account: u64, asset: u32) -> u128 {
    p.balance_of(asset, account)
}

/// Account A wants to swap 1_000 units of A per 1_000 units of B with Account B
#[test]
fn lock_ok() {
    let mut p = new_test_ext();
    let secret = b"Something between us 2023";
    let hash = sha256(secret);
    let asset_amount = 1_000;
    //5 blocks
    let timelock = 5;
    let tx_id = tx_id_for(ACCOUNT_A, ACCOUNT_B, hash, timelock, ASSET_A, asset_amount);

    assert_eq!(get_pallet_balance(&p, ASSET_A), PALLET_START_BALANCE);
    assert!(p.lock(ACCOUNT_A, tx_id, ACCOUNT_B, hash, timelock, ASSET_A, asset_amount).is_ok());
    assert_eq!(get_pallet_balance(&p, ASSET_A), PALLET_START_BALANCE + asset_amount);

    let lock_details = p.lock_transactions(tx_id).unwrap();
    assert_eq!(lock_details.amount, asset_amount);
    assert_eq!(lock_details.sender, ACCOUNT_A);
    assert_eq!(lock_details.recipient, ACCOUNT_B);
    assert_eq!(lock_details.asset_id, ASSET_A);
    assert_eq!(lock_details.hashlock, hash);
    assert_eq!(lock_details.expiration_block, timelock + 1);
    assert_eq!(lock_details.is_withdraw, false);
    assert_eq!(lock_details.is_refunded, false);
}

#[test]
fn lock_validations_ok() {
    let mut p = new_test_ext();
    let secret = b"Something between us 2023";
    let hash = sha256(secret);
    let asset_amount = 1_000;
    //5 blocks
    let timelock = 5;
    let tx_id = tx_id_for(ACCOUNT_A, ACCOUNT_B, hash, timelock, ASSET_A, asset_amount);

    assert_eq!(get_pallet_balance(&p, ASSET_A), PALLET_START_BALANCE);
    assert!(p.lock(ACCOUNT_A, tx_id, ACCOUNT_B, hash, timelock, ASSET_A, asset_amount).is_ok());
    assert_eq!(get_pallet_balance(&p, ASSET_A), PALLET_START_BALANCE + asset_amount);

    let lock_details = p.lock_transactions(tx_id).unwrap();
    assert_eq!(lock_details.amount, asset_amount);
    assert_eq!(lock_details.sender, ACCOUNT_A);
    assert_eq!(lock_details.recipient, ACCOUNT_B);
    assert_eq!(lock_details.asset_id, ASSET_A);
    assert_eq!(lock_details.hashlock, hash);
    assert_eq!(lock_details.expiration_block, timelock + 1);
    assert_eq!(lock_details.is_withdraw, false);
    assert_eq!(lock_details.is_refunded, false);

    //trying to add a new lock with same tx_id
    assert_eq!(
        p.lock(ACCOUNT_B, tx_id, ACCOUNT_C, hash, timelock, ASSET_A, asset_amount),
        Err(Error::TransactionIdExists)
    );
    assert_eq!(get_pallet_balance(&p, ASSET_A), PALLET_START_BALANCE + asset_amount);

    let new_tx_id = tx_id_for(ACCOUNT_B, ACCOUNT_C, hash, timelock, ASSET_A, asset_amount);

    //trying to add wrong deadline
    assert_eq!(
        p.lock(ACCOUNT_B, new_tx_id, ACCOUNT_C, hash, 0, ASSET_A, asset_amount),
        Err(Error::InvalidTimelock)
    );

    //trying to add non existent asset
    assert_eq!(
        p.lock(ACCOUNT_B, new_tx_id, ACCOUNT_C, hash, timelock, ASSET_NOT_EXIST, asset_amount),
        Err(Error::TokenNotExists)
    );

    //trying with origin with low balance
    assert_eq!(
        p.lock(ACCOUNT_D_LOW_BALANCES, new_tx_id, ACCOUNT_C, hash, timelock, ASSET_A, asset_amount),
        Err(Error::LowBalance)
    );
}

#[test]
fn unlock_ok() {
    let mut p = new_test_ext();
    let secret = b"Something between us 2023";
    let hash = sha256(secret);
    let asset_amount = 1_000;
    //5 blocks
    let timelock = 5;
    let tx_id = tx_id_for(ACCOUNT_A, ACCOUNT_B, hash, timelock, ASSET_A, asset_amount);

    assert_eq!(get_pallet_balance(&p, ASSET_A), PALLET_START_BALANCE);
    assert!(p.lock(ACCOUNT_A, tx_id, ACCOUNT_B, hash, timelock, ASSET_A, asset_amount).is_ok());
    assert_eq!(get_pallet_balance(&p, ASSET_A), PALLET_START_BALANCE + asset_amount);

    let lock_details = p.lock_transactions(tx_id).unwrap();
    assert_eq!(lock_details.amount, asset_amount);
    assert_eq!(lock_details.sender, ACCOUNT_A);
    assert_eq!(lock_details.recipient, ACCOUNT_B);
    assert_eq!(lock_details.asset_id, ASSET_A);
    assert_eq!(lock_details.hashlock, hash);
    assert_eq!(lock_details.expiration_block, timelock + 1);
    assert_eq!(lock_details.is_withdraw, false);
    assert_eq!(lock_details.is_refunded, false);

    //Account b unlocking
    assert_eq!(get_account_balance(&p, ACCOUNT_B, ASSET_A), ACCOUNTS_START_BALANCE);
    assert!(p.unlock(ACCOUNT_B, tx_id, secret.to_vec()).is_ok());
    assert_eq!(get_account_balance(&p, ACCOUNT_B, ASSET_A), ACCOUNTS_START_BALANCE + asset_amount);
    assert_eq!(get_pallet_balance(&p, ASSET_A), PALLET_START_BALANCE);

    //reveled secret
    let known_secret = p.known_secrets(tx_id).unwrap();
    assert_eq!(known_secret, secret.to_vec());
}

#[test]
fn unlock_validations_and_finality() {
    let mut p = new_test_ext();
    let secret = b"Something between us 2023";
    let hash = sha256(secret);
    let asset_amount = 1_000;
    let timelock = 5;
    let tx_id = tx_id_for(ACCOUNT_A, ACCOUNT_B, hash, timelock, ASSET_A, asset_amount);
    assert!(p.lock(ACCOUNT_A, tx_id, ACCOUNT_B, hash, timelock, ASSET_A, asset_amount).is_ok());

    //unknown transaction
    let other_tx = sha256(b"no such transaction");
    assert_eq!(p.unlock(ACCOUNT_B, other_tx, secret.to_vec()), Err(Error::TransactionNotExists));

    //only the recipient may unlock
    assert_eq!(p.unlock(ACCOUNT_C, tx_id, secret.to_vec()), Err(Error::InvalidReceiver));

    //wrong preimage mutates nothing
    assert_eq!(
        p.unlock(ACCOUNT_B, tx_id, b"A wrong guess".to_vec()),
        Err(Error::InvalidPreimage)
    );
    assert_eq!(get_pallet_balance(&p, ASSET_A), PALLET_START_BALANCE + asset_amount);
    assert_eq!(p.lock_transactions(tx_id).unwrap().is_withdraw, false);
    assert!(p.known_secrets(tx_id).is_none());

    //correct preimage succeeds and emits the event
    assert_eq!(
        p.unlock(ACCOUNT_B, tx_id, secret.to_vec()),
        Ok(Event::Unlocked { tx_id })
    );
    assert_eq!(p.lock_transactions(tx_id).unwrap().is_withdraw, true);

    //a second unlock and any cancel now fail with already-withdrawn
    assert_eq!(p.unlock(ACCOUNT_B, tx_id, secret.to_vec()), Err(Error::AlreadyWithdrawn));
    assert_eq!(p.cancel(ACCOUNT_A, tx_id), Err(Error::AlreadyWithdrawn));
}

#[test]
fn cancel_roundtrip() {
    let mut p = new_test_ext();
    let secret = b"Something between us 2023";
    let hash = sha256(secret);
    let asset_amount = 1_000;
    let timelock = 5;
    let tx_id = tx_id_for(ACCOUNT_A, ACCOUNT_B, hash, timelock, ASSET_A, asset_amount);
    assert!(p.lock(ACCOUNT_A, tx_id, ACCOUNT_B, hash, timelock, ASSET_A, asset_amount).is_ok());
    assert_eq!(
        get_account_balance(&p, ACCOUNT_A, ASSET_A),
        ACCOUNTS_START_BALANCE - asset_amount
    );

    //cancel of an unknown transaction
    let other_tx = sha256(b"no such transaction");
    assert_eq!(p.cancel(ACCOUNT_A, other_tx), Err(Error::TransactionNotExists));

    //cancel before the expiration height fails
    assert_eq!(p.cancel(ACCOUNT_A, tx_id), Err(Error::TimeLockNotExpired));
    p.set_block_number(timelock);
    assert_eq!(p.cancel(ACCOUNT_A, tx_id), Err(Error::TimeLockNotExpired));

    //from the expiration height on, the sender gets the funds back
    p.set_block_number(timelock + 1);
    assert_eq!(p.cancel(ACCOUNT_A, tx_id), Ok(Event::Canceled { tx_id }));
    assert_eq!(get_account_balance(&p, ACCOUNT_A, ASSET_A), ACCOUNTS_START_BALANCE);
    assert_eq!(get_pallet_balance(&p, ASSET_A), PALLET_START_BALANCE);
    let lock_details = p.lock_transactions(tx_id).unwrap();
    assert_eq!(lock_details.is_refunded, true);
    assert_eq!(lock_details.is_withdraw, false);

    //the escrow is final: no second cancel, no late unlock
    assert_eq!(p.cancel(ACCOUNT_B, tx_id), Err(Error::AlreadyRefunded));
    assert_eq!(p.unlock(ACCOUNT_B, tx_id, secret.to_vec()), Err(Error::AlreadyRefunded));
}

#[test]
fn lock_emits_event() {
    let mut p = new_test_ext();
    let hash = sha256(b"Something between us 2023");
    let tx_id = tx_id_for(ACCOUNT_A, ACCOUNT_B, hash, 5, ASSET_B, 42);
    assert_eq!(
        p.lock(ACCOUNT_A, tx_id, ACCOUNT_B, hash, 5, ASSET_B, 42),
        Ok(Event::Locked {
            recipient: ACCOUNT_B,
            hashlock: hash,
            timelock: 5,
            asset_id: ASSET_B,
            asset_amount: 42,
        })
    );
}
