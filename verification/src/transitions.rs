//! The engine as a mathematical transition system: the state view, the
//! state invariant, and one function per operation giving its exact
//! outcome — the error returned, or the successor state and the event
//! emitted. The executable operations are proved against these functions.

use vstd::prelude::*;

use crate::hashing::sha256_of;
use crate::ledger::{bal_of, transfer_map};
use crate::math::floor_sqrt;
use crate::types::{Error, Event, LiquidityPoolDetails, LockDetails, ReserveDetails};

verus! {

/// The whole durable state: the asset ledger, the pool registry, the lock
/// registry, the custody account, and the block clock.
#[verifier::ext_equal]
pub struct StateView {
    pub assets: Set<u32>,
    pub balances: Map<(u32, u64), u128>,
    pub reserves: Map<(u32, u32), ReserveDetails>,
    pub pools: Map<u32, LiquidityPoolDetails>,
    pub locks: Map<[u8; 32], LockDetails>,
    pub secrets: Map<[u8; 32], Seq<u8>>,
    pub custody: u64,
    pub height: u64,
}

/// Both directed reserve entries and the pool record of the pair exist.
pub open spec fn pair_exists(s: StateView, a: u32, b: u32) -> bool {
    &&& s.reserves.contains_key((a, b))
    &&& s.reserves.contains_key((b, a))
    &&& s.pools.contains_key(s.reserves[(a, b)].asset_lp_id)
}

/// Moving `amount` of `asset` from `from` to `to` cannot overflow the
/// receiver's balance.
pub open spec fn can_deposit(
    balances: Map<(u32, u64), u128>,
    asset: u32,
    from: u64,
    to: u64,
    amount: u128,
) -> bool {
    from == to || bal_of(balances, asset, to) + amount <= u128::MAX
}

/// A recorded reserve entry has its mirror entry, both agree on the LP
/// asset, and the pool they point at exists and covers the same two assets.
pub open spec fn pair_entry_ok(s: StateView, a: u32, b: u32) -> bool {
    &&& s.reserves.contains_key((b, a))
    &&& s.reserves[(b, a)].asset_lp_id == s.reserves[(a, b)].asset_lp_id
    &&& s.pools.contains_key(s.reserves[(a, b)].asset_lp_id)
    &&& {
        let p = s.pools[s.reserves[(a, b)].asset_lp_id];
        (p.asset_a_id == a && p.asset_b_id == b) || (p.asset_a_id == b && p.asset_b_id == a)
    }
}

/// A recorded pool's LP asset exists in the ledger, differs from the two
/// traded assets, and both directed reserve entries of its pair are
/// recorded under it.
pub open spec fn pool_entry_ok(s: StateView, lp: u32) -> bool {
    let p = s.pools[lp];
    &&& s.assets.contains(lp)
    &&& lp != p.asset_a_id && lp != p.asset_b_id
    &&& s.reserves.contains_key((p.asset_a_id, p.asset_b_id))
    &&& s.reserves.contains_key((p.asset_b_id, p.asset_a_id))
    &&& s.reserves[(p.asset_a_id, p.asset_b_id)].asset_lp_id == lp
}

/// A recorded escrow is keyed by its own identifier, is never both
/// withdrawn and refunded, and a preimage is recorded for it exactly when
/// it is withdrawn, in which case the preimage hashes to its hashlock.
pub open spec fn lock_entry_ok(s: StateView, tx: [u8; 32]) -> bool {
    let l = s.locks[tx];
    &&& l.tx_id == tx
    &&& !(l.is_withdraw && l.is_refunded)
    &&& (s.secrets.contains_key(tx) <==> l.is_withdraw)
    &&& (l.is_withdraw ==> sha256_of(s.secrets[tx]) == l.hashlock@)
}

/// A pair whose two reserves are both empty has no outstanding LP tokens:
/// the supply of its pool is zero. (The converse does not hold: a swap
/// into a pool that was never funded can leave it with a nonzero reserve
/// and zero supply.)
pub open spec fn supply_zero_ok(s: StateView, a: u32, b: u32) -> bool {
    s.reserves[(a, b)].reserve == 0 && s.reserves[(b, a)].reserve == 0
        ==> s.pools[s.reserves[(a, b)].asset_lp_id].supply == 0
}

/// The state invariant, holding of every reachable state.
pub open spec fn state_inv(s: StateView) -> bool {
    &&& forall|a: u32, b: u32| #[trigger] s.reserves.contains_key((a, b)) ==> pair_entry_ok(s, a, b)
    &&& forall|a: u32, b: u32| #[trigger] s.reserves.contains_key((a, b)) ==> supply_zero_ok(
        s,
        a,
        b,
    )
    &&& forall|lp: u32| #[trigger] s.pools.contains_key(lp) ==> pool_entry_ok(s, lp)
    &&& forall|tx: [u8; 32]| #[trigger] s.locks.contains_key(tx) ==> lock_entry_ok(s, tx)
    &&& forall|tx: [u8; 32]| #[trigger] s.secrets.contains_key(tx) ==> s.locks.contains_key(tx)
}

/// The executable operation returned `r` and left the state `s1`, exactly
/// as the transition function `spec_r` prescribes.
pub open spec fn op_result_matches(
    spec_r: Result<(StateView, Event), Error>,
    r: Result<Event, Error>,
    s1: StateView,
) -> bool {
    match r {
        Ok(ev) => spec_r == Ok::<(StateView, Event), Error>((s1, ev)),
        Err(e) => spec_r == Err::<(StateView, Event), Error>(e),
    }
}

/// The outcome of creating an exchange pair: the LP asset is created with
/// zero supply, both directed reserves start at zero and share it.
pub open spec fn new_exchange_spec(s: StateView, a: u32, b: u32, lp: u32) -> Result<
    (StateView, Event),
    Error,
> {
    if !s.assets.contains(a) || !s.assets.contains(b) {
        Err(Error::TokenNotExists)
    } else if s.reserves.contains_key((a, b)) || s.reserves.contains_key((b, a))
        || s.assets.contains(lp) {
        Err(Error::LpTokenOrExchangeAlreadyExists)
    } else {
        let s1 = StateView {
            assets: s.assets.insert(lp),
            reserves: s.reserves.insert(
                (a, b),
                ReserveDetails { reserve: 0, asset_lp_id: lp },
            ).insert((b, a), ReserveDetails { reserve: 0, asset_lp_id: lp }),
            pools: s.pools.insert(
                lp,
                LiquidityPoolDetails { supply: 0, asset_a_id: a, asset_b_id: b },
            ),
            ..s
        };
        Ok((s1, Event::ExchangeCreated { asset_a_id: a, asset_b_id: b, asset_lp_id: lp }))
    }
}

/// The liquidity-token mint quantity for a deposit, or the arithmetic
/// error that aborts it: `floor(sqrt(amount_a * amount_b))` bootstraps an
/// empty pool, and the smaller of the two proportional shares extends a
/// funded one.
pub open spec fn add_liquidity_mint(
    supply: u128,
    r_a: u128,
    r_b: u128,
    amount_a: u128,
    amount_b: u128,
) -> Result<u128, Error> {
    if supply == 0 {
        if amount_a * amount_b > u128::MAX {
            Err(Error::OverflowOrUnderflow)
        } else {
            Ok(floor_sqrt(amount_a * amount_b) as u128)
        }
    } else if amount_a * supply > u128::MAX {
        Err(Error::OverflowOrUnderflow)
    } else if r_a == 0 {
        Err(Error::OverflowOrUnderflow)
    } else if amount_b * supply > u128::MAX {
        Err(Error::OverflowOrUnderflow)
    } else if r_b == 0 {
        Err(Error::OverflowOrUnderflow)
    } else {
        let v1 = amount_a * supply / (r_a as int);
        let v2 = amount_b * supply / (r_b as int);
        if v1 < v2 {
            Ok(v1 as u128)
        } else {
            Ok(v2 as u128)
        }
    }
}

/// The outcome of adding liquidity: the deposit moves into custody, the
/// reserves grow by the deposited amounts, and the caller is credited the
/// mint quantity of LP tokens, which also raises the pool's supply.
pub open spec fn add_liquidity_spec(
    s: StateView,
    who: u64,
    a: u32,
    amount_a: u128,
    b: u32,
    amount_b: u128,
) -> Result<(StateView, Event), Error> {
    if !s.assets.contains(a) || !s.assets.contains(b) {
        Err(Error::TokenNotExists)
    } else if amount_a == 0 || amount_b == 0 {
        Err(Error::InvalidAmount)
    } else if bal_of(s.balances, a, who) < amount_a || bal_of(s.balances, b, who) < amount_b {
        Err(Error::LowBalance)
    } else if !pair_exists(s, a, b) {
        Err(Error::PairNotExists)
    } else if !can_deposit(s.balances, a, who, s.custody, amount_a) {
        Err(Error::OverflowOrUnderflow)
    } else {
        let bal1 = transfer_map(s.balances, a, who, s.custody, amount_a);
        if bal_of(bal1, b, who) < amount_b {
            Err(Error::LowBalance)
        } else if !can_deposit(bal1, b, who, s.custody, amount_b) {
            Err(Error::OverflowOrUnderflow)
        } else {
            let bal2 = transfer_map(bal1, b, who, s.custody, amount_b);
            let lp = s.reserves[(a, b)].asset_lp_id;
            let r_a = s.reserves[(a, b)].reserve;
            let r_b = s.reserves[(b, a)].reserve;
            let supply = s.pools[lp].supply;
            match add_liquidity_mint(supply, r_a, r_b, amount_a, amount_b) {
                Err(e) => Err(e),
                Ok(minted) => if supply + minted > u128::MAX {
                    Err(Error::OverflowOrUnderflow)
                } else if r_a + amount_a > u128::MAX {
                    Err(Error::OverflowOrUnderflow)
                } else if r_b + amount_b > u128::MAX {
                    Err(Error::OverflowOrUnderflow)
                } else if bal_of(bal2, lp, who) + minted > u128::MAX {
                    Err(Error::OverflowOrUnderflow)
                } else {
                    let s1 = StateView {
                        assets: s.assets,
                        balances: bal2.insert(
                            (lp, who),
                            (bal_of(bal2, lp, who) + minted) as u128,
                        ),
                        reserves: s.reserves.insert(
                            (a, b),
                            ReserveDetails {
                                reserve: (r_a + amount_a) as u128,
                                ..s.reserves[(a, b)]
                            },
                        ).insert(
                            (b, a),
                            ReserveDetails {
                                reserve: (r_b + amount_b) as u128,
                                ..s.reserves[(b, a)]
                            },
                        ),
                        pools: s.pools.insert(
                            lp,
                            LiquidityPoolDetails {
                                supply: (supply + minted) as u128,
                                ..s.pools[lp]
                            },
                        ),
                        ..s
                    };
                    Ok(
                        (
                            s1,
                            Event::LiquidityAdded {
                                asset_a_id: a,
                                asset_a_amount: amount_a,
                                asset_b_id: b,
                                asset_b_amount: amount_b,
                            },
                        ),
                    )
                },
            }
        }
    }
}

/// The outcome of removing liquidity: the LP tokens are burned, each asset
/// is returned in proportion `lp_amount * reserve / supply` (rounded
/// down), and the reserves and the supply shrink accordingly.
pub open spec fn remove_liquidity_spec(
    s: StateView,
    who: u64,
    lp_id: u32,
    lp_amount: u128,
) -> Result<(StateView, Event), Error> {
    if !s.assets.contains(lp_id) {
        Err(Error::TokenNotExists)
    } else if lp_amount == 0 {
        Err(Error::InvalidAmount)
    } else if bal_of(s.balances, lp_id, who) < lp_amount {
        Err(Error::LowBalance)
    } else if !s.pools.contains_key(lp_id) {
        Err(Error::PairNotExists)
    } else {
        let p = s.pools[lp_id];
        let a = p.asset_a_id;
        let b = p.asset_b_id;
        if !(s.reserves.contains_key((a, b)) && s.reserves.contains_key((b, a))) {
            Err(Error::PairNotExists)
        } else {
            let r_a = s.reserves[(a, b)].reserve;
            let r_b = s.reserves[(b, a)].reserve;
            if lp_amount * r_a > u128::MAX {
                Err(Error::OverflowOrUnderflow)
            } else if p.supply == 0 {
                Err(Error::OverflowOrUnderflow)
            } else if lp_amount * r_b > u128::MAX {
                Err(Error::OverflowOrUnderflow)
            } else {
                let ret_a = (lp_amount * r_a / (p.supply as int)) as u128;
                let ret_b = (lp_amount * r_b / (p.supply as int)) as u128;
                let bal1 = s.balances.insert(
                    (lp_id, who),
                    (bal_of(s.balances, lp_id, who) - lp_amount) as u128,
                );
                if bal_of(bal1, a, s.custody) < ret_a {
                    Err(Error::LowBalance)
                } else if !can_deposit(bal1, a, s.custody, who, ret_a) {
                    Err(Error::OverflowOrUnderflow)
                } else {
                    let bal2 = transfer_map(bal1, a, s.custody, who, ret_a);
                    if bal_of(bal2, b, s.custody) < ret_b {
                        Err(Error::LowBalance)
                    } else if !can_deposit(bal2, b, s.custody, who, ret_b) {
                        Err(Error::OverflowOrUnderflow)
                    } else {
                        let bal3 = transfer_map(bal2, b, s.custody, who, ret_b);
                        if r_a < ret_a {
                            Err(Error::OverflowOrUnderflow)
                        } else if r_b < ret_b {
                            Err(Error::OverflowOrUnderflow)
                        } else if p.supply < lp_amount {
                            Err(Error::OverflowOrUnderflow)
                        } else {
                            let s1 = StateView {
                                assets: s.assets,
                                balances: bal3,
                                reserves: s.reserves.insert(
                                    (a, b),
                                    ReserveDetails {
                                        reserve: (r_a - ret_a) as u128,
                                        ..s.reserves[(a, b)]
                                    },
                                ).insert(
                                    (b, a),
                                    ReserveDetails {
                                        reserve: (r_b - ret_b) as u128,
                                        ..s.reserves[(b, a)]
                                    },
                                ),
                                pools: s.pools.insert(
                                    lp_id,
                                    LiquidityPoolDetails {
                                        supply: (p.supply - lp_amount) as u128,
                                        ..p
                                    },
                                ),
                                ..s
                            };
                            Ok(
                                (
                                    s1,
                                    Event::LiquidityRemoved {
                                        asset_a_id: a,
                                        asset_a_amount: ret_a,
                                        asset_b_id: b,
                                        asset_b_amount: ret_b,
                                        lp_asset_amount_burned: lp_amount,
                                    },
                                ),
                            )
                        }
                    }
                }
            }
        }
    }
}

/// The constant-product quote over the current reserves:
/// `floor(reserve_out * amount_in / (reserve_in + amount_in))`, with no
/// fee charged.
pub open spec fn amount_out_spec(s: StateView, a: u32, amount_a: u128, b: u32) -> Result<
    u128,
    Error,
> {
    if !pair_exists(s, a, b) {
        Err(Error::PairNotExists)
    } else {
        let r_a = s.reserves[(a, b)].reserve;
        let r_b = s.reserves[(b, a)].reserve;
        if r_b * amount_a > u128::MAX {
            Err(Error::OverflowOrUnderflow)
        } else if r_a + amount_a > u128::MAX {
            Err(Error::OverflowOrUnderflow)
        } else if r_a + amount_a == 0 {
            Err(Error::OverflowOrUnderflow)
        } else {
            Ok((r_b * amount_a / (r_a + amount_a)) as u128)
        }
    }
}

/// The outcome of a swap: the quoted output must reach the caller's
/// minimum, the input moves into custody, the output moves to the
/// recipient, and the reserves shift by the traded amounts.
pub open spec fn swap_spec(
    s: StateView,
    who: u64,
    a: u32,
    amount_a: u128,
    b: u32,
    min_b: u128,
    deadline: Option<u64>,
    to: Option<u64>,
) -> Result<(StateView, Event), Error> {
    if deadline matches Some(d) && d < s.height {
        Err(Error::Expired)
    } else if !s.assets.contains(a) || !s.assets.contains(b) {
        Err(Error::TokenNotExists)
    } else if bal_of(s.balances, a, who) < amount_a {
        Err(Error::LowBalance)
    } else if !pair_exists(s, a, b) {
        Err(Error::PairNotExists)
    } else {
        match amount_out_spec(s, a, amount_a, b) {
            Err(e) => Err(e),
            Ok(out) => if out < min_b {
                Err(Error::SwapOutBelowMin)
            } else {
                let recipient = match to {
                    Some(t) => t,
                    None => who,
                };
                if !can_deposit(s.balances, a, who, s.custody, amount_a) {
                    Err(Error::OverflowOrUnderflow)
                } else {
                    let bal1 = transfer_map(s.balances, a, who, s.custody, amount_a);
                    if bal_of(bal1, b, s.custody) < out {
                        Err(Error::LowBalance)
                    } else if !can_deposit(bal1, b, s.custody, recipient, out) {
                        Err(Error::OverflowOrUnderflow)
                    } else {
                        let bal2 = transfer_map(bal1, b, s.custody, recipient, out);
                        let r_a = s.reserves[(a, b)].reserve;
                        let r_b = s.reserves[(b, a)].reserve;
                        if r_b < out {
                            Err(Error::OverflowOrUnderflow)
                        } else {
                            let s1 = StateView {
                                assets: s.assets,
                                balances: bal2,
                                reserves: s.reserves.insert(
                                    (a, b),
                                    ReserveDetails {
                                        reserve: (r_a + amount_a) as u128,
                                        ..s.reserves[(a, b)]
                                    },
                                ).insert(
                                    (b, a),
                                    ReserveDetails {
                                        reserve: (r_b - out) as u128,
                                        ..s.reserves[(b, a)]
                                    },
                                ),
                                ..s
                            };
                            Ok(
                                (
                                    s1,
                                    Event::SwapeExecuted {
                                        asset_a_id: a,
                                        asset_a_amount: amount_a,
                                        asset_b_id: b,
                                        asset_b_amount: out,
                                    },
                                ),
                            )
                        }
                    }
                }
            },
        }
    }
}

/// The outcome of locking funds: the identifier must be fresh, the
/// expiration height must lie strictly in the future, and the amount moves
/// from the sender into custody under a new escrow record.
pub open spec fn lock_spec(
    s: StateView,
    who: u64,
    tx_id: [u8; 32],
    recipient: u64,
    hashlock: [u8; 32],
    timelock: u64,
    asset_id: u32,
    amount: u128,
) -> Result<(StateView, Event), Error> {
    if s.locks.contains_key(tx_id) {
        Err(Error::TransactionIdExists)
    } else if s.height + timelock > u64::MAX {
        Err(Error::OverflowOrUnderflow)
    } else if timelock == 0 {
        Err(Error::InvalidTimelock)
    } else if !s.assets.contains(asset_id) {
        Err(Error::TokenNotExists)
    } else if bal_of(s.balances, asset_id, who) < amount {
        Err(Error::LowBalance)
    } else if !can_deposit(s.balances, asset_id, who, s.custody, amount) {
        Err(Error::OverflowOrUnderflow)
    } else {
        let record = LockDetails {
            tx_id,
            sender: who,
            recipient,
            asset_id,
            amount,
            hashlock,
            expiration_block: (s.height + timelock) as u64,
            is_withdraw: false,
            is_refunded: false,
        };
        let s1 = StateView {
            balances: transfer_map(s.balances, asset_id, who, s.custody, amount),
            locks: s.locks.insert(tx_id, record),
            ..s
        };
        Ok(
            (
                s1,
                Event::Locked {
                    recipient,
                    hashlock,
                    timelock,
                    asset_id,
                    asset_amount: amount,
                },
            ),
        )
    }
}

/// The outcome of redeeming an escrow: only the recipient may redeem, the
/// escrow must not be finalized, the preimage must hash to the hashlock;
/// the funds leave custody for the recipient and the preimage is recorded.
pub open spec fn unlock_spec(s: StateView, who: u64, tx_id: [u8; 32], preimage: Seq<u8>) -> Result<
    (StateView, Event),
    Error,
> {
    if !s.locks.contains_key(tx_id) {
        Err(Error::TransactionNotExists)
    } else {
        let l = s.locks[tx_id];
        if l.recipient != who {
            Err(Error::InvalidReceiver)
        } else if l.is_withdraw {
            Err(Error::AlreadyWithdrawn)
        } else if l.is_refunded {
            Err(Error::AlreadyRefunded)
        } else if sha256_of(preimage) != l.hashlock@ {
            Err(Error::InvalidPreimage)
        } else if bal_of(s.balances, l.asset_id, s.custody) < l.amount {
            Err(Error::LowBalance)
        } else if !can_deposit(s.balances, l.asset_id, s.custody, l.recipient, l.amount) {
            Err(Error::OverflowOrUnderflow)
        } else {
            let s1 = StateView {
                balances: transfer_map(s.balances, l.asset_id, s.custody, l.recipient, l.amount),
                locks: s.locks.insert(tx_id, LockDetails { is_withdraw: true, ..l }),
                secrets: s.secrets.insert(tx_id, preimage),
                ..s
            };
            Ok((s1, Event::Unlocked { tx_id }))
        }
    }
}

/// The outcome of cancelling an escrow: the escrow must not be finalized
/// and the timelock must have expired; the funds return from custody to
/// the original sender. Any caller may cancel, as only the sender
/// benefits.
pub open spec fn cancel_spec(s: StateView, tx_id: [u8; 32]) -> Result<(StateView, Event), Error> {
    if !s.locks.contains_key(tx_id) {
        Err(Error::TransactionNotExists)
    } else {
        let l = s.locks[tx_id];
        if l.is_withdraw {
            Err(Error::AlreadyWithdrawn)
        } else if l.is_refunded {
            Err(Error::AlreadyRefunded)
        } else if s.height < l.expiration_block {
            Err(Error::TimeLockNotExpired)
        } else if bal_of(s.balances, l.asset_id, s.custody) < l.amount {
            Err(Error::LowBalance)
        } else if !can_deposit(s.balances, l.asset_id, s.custody, l.sender, l.amount) {
            Err(Error::OverflowOrUnderflow)
        } else {
            let s1 = StateView {
                balances: transfer_map(s.balances, l.asset_id, s.custody, l.sender, l.amount),
                locks: s.locks.insert(tx_id, LockDetails { is_refunded: true, ..l }),
                ..s
            };
            Ok((s1, Event::Canceled { tx_id }))
        }
    }
}

} // verus!
