//! Core data types: reserve and pool records, escrow records, and the
//! closed event and error taxonomies of the engine.

use vstd::prelude::*;

verus! {

/// One directed leg of a trading pair: the pool's balance of that asset and
/// the identifier of the pair's liquidity token.
#[derive(Clone, Copy, PartialEq, Eq, Debug)]
pub struct ReserveDetails {
    pub reserve: u128,
    pub asset_lp_id: u32,
}

/// Liquidity-token accounting for one pair, keyed by the LP asset.
#[derive(Clone, Copy, PartialEq, Eq, Debug)]
pub struct LiquidityPoolDetails {
    pub supply: u128,
    pub asset_a_id: u32,
    pub asset_b_id: u32,
}

/// One hashed-timelock escrow: funds moved into custody by `lock`, released
/// by `unlock` with the hashlock's preimage or returned by `cancel` after
/// the expiration height.
#[derive(Clone, Copy, PartialEq, Eq, Debug)]
pub struct LockDetails {
    pub tx_id: [u8; 32],
    pub sender: u64,
    pub recipient: u64,
    pub asset_id: u32,
    pub amount: u128,
    pub hashlock: [u8; 32],
    pub expiration_block: u64,
    pub is_withdraw: bool,
    pub is_refunded: bool,
}

/// Notifications emitted on success, consumed by external observers and
/// never read back by the engine.
#[derive(Clone, Copy, PartialEq, Eq, Debug)]
pub enum Event {
    /// A new exchange pair was created.
    ExchangeCreated { asset_a_id: u32, asset_b_id: u32, asset_lp_id: u32 },
    /// Liquidity was added to an exchange.
    LiquidityAdded { asset_a_id: u32, asset_a_amount: u128, asset_b_id: u32, asset_b_amount: u128 },
    /// Liquidity was removed from an exchange.
    LiquidityRemoved {
        asset_a_id: u32,
        asset_a_amount: u128,
        asset_b_id: u32,
        asset_b_amount: u128,
        lp_asset_amount_burned: u128,
    },
    /// A swap was performed.
    SwapeExecuted { asset_a_id: u32, asset_a_amount: u128, asset_b_id: u32, asset_b_amount: u128 },
    /// Funds were locked under a hashlock and timelock.
    Locked { recipient: u64, hashlock: [u8; 32], timelock: u64, asset_id: u32, asset_amount: u128 },
    /// An escrow was redeemed by its recipient.
    Unlocked { tx_id: [u8; 32] },
    /// An escrow was refunded to its sender.
    Canceled { tx_id: [u8; 32] },
}

/// The closed error taxonomy; every operation reports failure through one of
/// these and commits no state change when it does.
#[derive(Clone, Copy, PartialEq, Eq, Debug)]
pub enum Error {
    /// Asset does not exist in the ledger.
    TokenNotExists,
    /// The trading pair does not exist.
    PairNotExists,
    /// Insufficient funds to perform the operation.
    LowBalance,
    /// Amount is zero or otherwise invalid.
    InvalidAmount,
    /// The LP token or the exchange already exists.
    LpTokenOrExchangeAlreadyExists,
    /// Arithmetic overflow or underflow.
    OverflowOrUnderflow,
    /// The deadline height has passed.
    Expired,
    /// Realized swap output is below the caller's minimum.
    SwapOutBelowMin,
    /// The expiration height would not lie strictly in the future.
    InvalidTimelock,
    /// The preimage does not hash to the stored hashlock.
    InvalidPreimage,
    /// No escrow is recorded under the transaction identifier.
    TransactionNotExists,
    /// An escrow is already recorded under the transaction identifier.
    TransactionIdExists,
    /// The escrow was already redeemed.
    AlreadyWithdrawn,
    /// The escrow was already refunded.
    AlreadyRefunded,
    /// Only the recorded recipient may unlock.
    InvalidReceiver,
    /// The timelock has not expired yet.
    TimeLockNotExpired,
}

} // verus!
