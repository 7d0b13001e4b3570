//! The engine state: the asset ledger, the pool registry, the lock
//! registry, the custody account and the block clock, with every operation
//! proved against its transition function.

use vstd::prelude::*;

use crate::invariance::{
    lemma_inv_amm_update, lemma_inv_cancel, lemma_inv_frame, lemma_inv_lock,
    lemma_inv_more_assets, lemma_inv_new_pair, lemma_inv_unlock,
};
use crate::ledger::{bal_of, transfer_map, AssetLedger};
use crate::locks::{LockStore, SecretStore};
use crate::math::{isqrt_u128, lemma_drain_requires_empty, lemma_full_withdrawal};
use crate::registry::{PoolStore, ReserveStore};
use crate::transitions::{
    add_liquidity_mint, add_liquidity_spec, amount_out_spec, cancel_spec, lock_spec,
    new_exchange_spec, op_result_matches, pair_exists, pool_entry_ok, remove_liquidity_spec,
    state_inv, supply_zero_ok, swap_spec, unlock_spec, StateView,
};
use crate::hashing::sha2_256;
use crate::locks::bytes32_eq;
use crate::types::{Error, Event, LiquidityPoolDetails, LockDetails, ReserveDetails};

verus! {

broadcast use vstd::array::group_array_axioms;

/// The whole durable state, exclusively owned; every operation re-reads it
/// at entry and writes back before returning success.
pub struct Pallet {
    pub(crate) ledger: AssetLedger,
    pub(crate) reserves: ReserveStore,
    pub(crate) pools: PoolStore,
    pub(crate) locks: LockStore,
    pub(crate) secrets: SecretStore,
    pub(crate) custody: u64,
    pub(crate) block_number: u64,
}

impl View for Pallet {
    type V = StateView;

    closed spec fn view(&self) -> StateView {
        StateView {
            assets: self.ledger@.assets,
            balances: self.ledger@.balances,
            reserves: self.reserves@,
            pools: self.pools@,
            locks: self.locks@,
            secrets: self.secrets@,
            custody: self.custody,
            height: self.block_number,
        }
    }
}

impl Pallet {
    /// The stores are well formed and the state invariant holds.
    pub closed spec fn wf(&self) -> bool {
        &&& self.ledger.wf()
        &&& self.reserves.wf()
        &&& self.pools.wf()
        &&& self.locks.wf()
        &&& self.secrets.wf()
        &&& state_inv(self@)
    }

    /// A well-formed state satisfies the state invariant.
    pub proof fn lemma_wf_inv(&self)
        requires
            self.wf(),
        ensures
            state_inv(self@),
    {
    }

    /// A fresh state: no assets, no balances, no pools, no escrows, height
    /// zero, with the given custody account.
    pub fn new(custody: u64) -> (p: Pallet)
        ensures
            p.wf(),
            p@ == (StateView {
                assets: Set::<u32>::empty(),
                balances: Map::<(u32, u64), u128>::empty(),
                reserves: Map::<(u32, u32), ReserveDetails>::empty(),
                pools: Map::<u32, LiquidityPoolDetails>::empty(),
                locks: Map::<[u8; 32], LockDetails>::empty(),
                secrets: Map::<[u8; 32], Seq<u8>>::empty(),
                custody,
                height: 0,
            }),
    {
        Pallet {
            ledger: AssetLedger::new(),
            reserves: ReserveStore::new(),
            pools: PoolStore::new(),
            locks: LockStore::new(),
            secrets: SecretStore::new(),
            custody,
            block_number: 0,
        }
    }

    /// The custody account associated to the engine.
    pub fn account_id(&self) -> (r: u64)
        ensures
            r == self@.custody,
    {
        self.custody
    }

    /// The current block height.
    pub fn block_number(&self) -> (r: u64)
        ensures
            r == self@.height,
    {
        self.block_number
    }

    /// Advances the block clock to `n`.
    pub fn set_block_number(&mut self, n: u64)
        requires
            old(self).wf(),
        ensures
            final(self).wf(),
            final(self)@ == (StateView { height: n, ..old(self)@ }),
    {
        self.block_number = n;
        proof {
            lemma_inv_frame(old(self)@, self@);
        }
    }

    /// Whether the asset exists in the ledger.
    pub fn asset_exists(&self, asset: u32) -> (r: bool)
        ensures
            r == self@.assets.contains(asset),
    {
        self.ledger.asset_exists(asset)
    }

    /// Creates the asset if it does not exist yet; reports whether it did.
    pub fn create_asset(&mut self, asset: u32) -> (created: bool)
        requires
            old(self).wf(),
        ensures
            final(self).wf(),
            created == !old(self)@.assets.contains(asset),
            final(self)@ == if created {
                (StateView { assets: old(self)@.assets.insert(asset), ..old(self)@ })
            } else {
                old(self)@
            },
    {
        let created = self.ledger.create_asset(asset);
        proof {
            if created {
                lemma_inv_more_assets(old(self)@, self@);
            }
        }
        created
    }

    /// Credits `who` with `amount` of `asset`, as a genesis allocation or a
    /// faucet would; fails on balance overflow.
    pub fn mint(&mut self, asset: u32, who: u64, amount: u128) -> (r: Result<(), Error>)
        requires
            old(self).wf(),
        ensures
            final(self).wf(),
            match r {
                Ok(_) => bal_of(old(self)@.balances, asset, who) + amount <= u128::MAX
                    && final(self)@ == (StateView {
                    balances: old(self)@.balances.insert(
                        (asset, who),
                        (bal_of(old(self)@.balances, asset, who) + amount) as u128,
                    ),
                    ..old(self)@
                }),
                Err(e) => e == Error::OverflowOrUnderflow && bal_of(
                    old(self)@.balances,
                    asset,
                    who,
                ) + amount > u128::MAX && final(self)@ == old(self)@,
            },
    {
        let held = self.ledger.balance(asset, who);
        if amount > u128::MAX - held {
            return Err(Error::OverflowOrUnderflow);
        }
        self.ledger.mint(asset, who, amount);
        proof {
            lemma_inv_frame(old(self)@, self@);
        }
        Ok(())
    }

    /// The balance `who` holds of `asset`.
    pub fn balance_of(&self, asset: u32, who: u64) -> (r: u128)
        requires
            self.wf(),
        ensures
            r == bal_of(self@.balances, asset, who),
    {
        self.ledger.balance(asset, who)
    }

    /// The pool recorded under the LP asset, if any.
    pub fn liquidity_pools(&self, lp_id: u32) -> (r: Option<LiquidityPoolDetails>)
        requires
            self.wf(),
        ensures
            match r {
                Some(d) => self@.pools.contains_key(lp_id) && d == self@.pools[lp_id],
                None => !self@.pools.contains_key(lp_id),
            },
    {
        self.pools.get(lp_id)
    }

    /// The reserve entry recorded under the directed pair, if any.
    pub fn liquidity_pools_reserves(&self, a: u32, b: u32) -> (r: Option<ReserveDetails>)
        requires
            self.wf(),
        ensures
            match r {
                Some(d) => self@.reserves.contains_key((a, b)) && d == self@.reserves[(a, b)],
                None => !self@.reserves.contains_key((a, b)),
            },
    {
        self.reserves.get(a, b)
    }

    /// The escrow recorded under the transaction identifier, if any.
    pub fn lock_transactions(&self, tx_id: [u8; 32]) -> (r: Option<LockDetails>)
        requires
            self.wf(),
        ensures
            match r {
                Some(d) => self@.locks.contains_key(tx_id) && d == self@.locks[tx_id],
                None => !self@.locks.contains_key(tx_id),
            },
    {
        self.locks.get(&tx_id)
    }

    /// The preimage revealed for the transaction identifier, if any.
    pub fn known_secrets(&self, tx_id: [u8; 32]) -> (r: Option<Vec<u8>>)
        requires
            self.wf(),
        ensures
            match r {
                Some(v) => self@.secrets.contains_key(tx_id) && v@ == self@.secrets[tx_id],
                None => !self@.secrets.contains_key(tx_id),
            },
    {
        match self.secrets.get(&tx_id) {
            Some(v) => {
                let mut out: Vec<u8> = Vec::new();
                let mut i: usize = 0;
                while i < v.len()
                    invariant
                        i <= v@.len(),
                        out@.len() == i,
                        forall|j: int| 0 <= j < i ==> out@[j] == v@[j],
                    decreases v@.len() - i,
                {
                    out.push(v[i]);
                    i = i + 1;
                }
                proof {
                    assert(out@ =~= v@);
                }
                Some(out)
            },
            None => None,
        }
    }

    /// The current reserves of the pair, as seen from `a`'s side.
    pub fn get_pool_reserves(&self, a: u32, b: u32) -> (r: Result<(u128, u128), Error>)
        requires
            self.wf(),
        ensures
            r == if pair_exists(self@, a, b) {
                Ok::<(u128, u128), Error>(
                    (self@.reserves[(a, b)].reserve, self@.reserves[(b, a)].reserve),
                )
            } else {
                Err::<(u128, u128), Error>(Error::PairNotExists)
            },
    {
        match self.ensure_liquidity_pool_exists(a, b) {
            Err(e) => Err(e),
            Ok(_) => {
                let ra = self.reserves.get(a, b).unwrap();
                let rb = self.reserves.get(b, a).unwrap();
                Ok((ra.reserve, rb.reserve))
            },
        }
    }

    /// Creates a new exchange pair over two existing assets: the LP asset
    /// is created for the custody account, and both directed reserves start
    /// at zero and share it.
    pub fn new_exchange(
        &mut self,
        who: u64,
        asset_a_id: u32,
        asset_b_id: u32,
        asset_lp_id: u32,
    ) -> (r: Result<Event, Error>)
        requires
            old(self).wf(),
        ensures
            final(self).wf(),
            op_result_matches(
                new_exchange_spec(old(self)@, asset_a_id, asset_b_id, asset_lp_id),
                r,
                final(self)@,
            ),
            r is Err ==> final(self)@ == old(self)@,
    {
        if !self.ledger.asset_exists(asset_a_id) || !self.ledger.asset_exists(asset_b_id) {
            return Err(Error::TokenNotExists);
        }
        if self.reserves.contains(asset_a_id, asset_b_id) || self.reserves.contains(
            asset_b_id,
            asset_a_id,
        ) || self.ledger.asset_exists(asset_lp_id) {
            return Err(Error::LpTokenOrExchangeAlreadyExists);
        }
        let ghost s0 = self@;
        let _ = self.ledger.create_asset(asset_lp_id);
        self.reserves.insert(
            asset_a_id,
            asset_b_id,
            ReserveDetails { reserve: 0, asset_lp_id },
        );
        self.reserves.insert(
            asset_b_id,
            asset_a_id,
            ReserveDetails { reserve: 0, asset_lp_id },
        );
        self.pools.insert(
            asset_lp_id,
            LiquidityPoolDetails { supply: 0, asset_a_id, asset_b_id },
        );
        proof {
            lemma_inv_new_pair(s0, self@, asset_a_id, asset_b_id, asset_lp_id);
            assert(self@ =~= new_exchange_spec(s0, asset_a_id, asset_b_id, asset_lp_id)->Ok_0.0);
        }
        Ok(Event::ExchangeCreated { asset_a_id, asset_b_id, asset_lp_id })
    }

    /// The constant-product quote for swapping `amount_a` of one asset into
    /// the other, over the current reserves and with no fee.
    pub fn get_amount_out(&self, asset_a_id: u32, amount_a: u128, asset_b_id: u32) -> (r: Result<
        u128,
        Error,
    >)
        requires
            self.wf(),
        ensures
            r == amount_out_spec(self@, asset_a_id, amount_a, asset_b_id),
    {
        match self.get_pool_reserves(asset_a_id, asset_b_id) {
            Err(e) => Err(e),
            Ok((r_a, r_b)) => match r_b.checked_mul(amount_a) {
                None => Err(Error::OverflowOrUnderflow),
                Some(num) => match r_a.checked_add(amount_a) {
                    None => Err(Error::OverflowOrUnderflow),
                    Some(den) => match num.checked_div(den) {
                        None => Err(Error::OverflowOrUnderflow),
                        Some(q) => Ok(q),
                    },
                },
            },
        }
    }

    /// Provides liquidity to an existing pool: the deposit moves into
    /// custody, the reserves grow by the deposited amounts, and the caller
    /// is credited LP tokens — `floor(sqrt(amount_a * amount_b))` for the
    /// first deposit, the smaller proportional share afterwards.
    pub fn add_liquidity(
        &mut self,
        who: u64,
        asset_a_id: u32,
        asset_a_amount: u128,
        asset_b_id: u32,
        asset_b_amount: u128,
    ) -> (r: Result<Event, Error>)
        requires
            old(self).wf(),
        ensures
            final(self).wf(),
            op_result_matches(
                add_liquidity_spec(
                    old(self)@,
                    who,
                    asset_a_id,
                    asset_a_amount,
                    asset_b_id,
                    asset_b_amount,
                ),
                r,
                final(self)@,
            ),
            r is Err ==> final(self)@ == old(self)@,
    {
        if !self.ledger.asset_exists(asset_a_id) || !self.ledger.asset_exists(asset_b_id) {
            return Err(Error::TokenNotExists);
        }
        if asset_a_amount == 0 || asset_b_amount == 0 {
            return Err(Error::InvalidAmount);
        }
        let bal_a_who = self.ledger.balance(asset_a_id, who);
        let bal_b_who = self.ledger.balance(asset_b_id, who);
        if bal_a_who < asset_a_amount || bal_b_who < asset_b_amount {
            return Err(Error::LowBalance);
        }
        match self.ensure_liquidity_pool_exists(asset_a_id, asset_b_id) {
            Err(e) => {
                return Err(e);
            },
            Ok(_) => {},
        }
        let custody = self.custody;
        let bal_a_custody = self.ledger.balance(asset_a_id, custody);
        if who != custody && asset_a_amount > u128::MAX - bal_a_custody {
            return Err(Error::OverflowOrUnderflow);
        }
        let ghost s0 = self@;
        let ghost bal1 = transfer_map(s0.balances, asset_a_id, who, custody, asset_a_amount);
        // what the first leg leaves the caller and custody holding of asset b
        let bal1_b_who: u128 = if asset_b_id == asset_a_id {
            if who != custody {
                bal_a_who - asset_a_amount
            } else {
                bal_a_who
            }
        } else {
            self.ledger.balance(asset_b_id, who)
        };
        proof {
            assert(bal1_b_who == bal_of(bal1, asset_b_id, who));
        }
        if bal1_b_who < asset_b_amount {
            return Err(Error::LowBalance);
        }
        let bal1_b_custody: u128 = if asset_b_id == asset_a_id {
            if who != custody {
                bal_a_custody + asset_a_amount
            } else {
                bal_a_custody
            }
        } else {
            self.ledger.balance(asset_b_id, custody)
        };
        proof {
            assert(bal1_b_custody == bal_of(bal1, asset_b_id, custody));
        }
        if who != custody && asset_b_amount > u128::MAX - bal1_b_custody {
            return Err(Error::OverflowOrUnderflow);
        }
        let ghost bal2 = transfer_map(bal1, asset_b_id, who, custody, asset_b_amount);
        let res_a = self.reserves.get(asset_a_id, asset_b_id).unwrap();
        let res_b = self.reserves.get(asset_b_id, asset_a_id).unwrap();
        let lp = res_a.asset_lp_id;
        let pool = self.pools.get(lp).unwrap();
        let supply = pool.supply;
        let r_a = res_a.reserve;
        let r_b = res_b.reserve;
        let minted: u128;
        if supply == 0 {
            match asset_a_amount.checked_mul(asset_b_amount) {
                None => {
                    return Err(Error::OverflowOrUnderflow);
                },
                Some(prod) => {
                    minted = isqrt_u128(prod);
                },
            }
        } else {
            let v1 = match asset_a_amount.checked_mul(supply) {
                None => {
                    return Err(Error::OverflowOrUnderflow);
                },
                Some(x) => match x.checked_div(r_a) {
                    None => {
                        return Err(Error::OverflowOrUnderflow);
                    },
                    Some(q) => q,
                },
            };
            let v2 = match asset_b_amount.checked_mul(supply) {
                None => {
                    return Err(Error::OverflowOrUnderflow);
                },
                Some(x) => match x.checked_div(r_b) {
                    None => {
                        return Err(Error::OverflowOrUnderflow);
                    },
                    Some(q) => q,
                },
            };
            minted = if v1 < v2 {
                v1
            } else {
                v2
            };
        }
        proof {
            assert(add_liquidity_mint(supply, r_a, r_b, asset_a_amount, asset_b_amount)
                == Ok::<u128, Error>(minted));
        }
        let new_supply = match supply.checked_add(minted) {
            None => {
                return Err(Error::OverflowOrUnderflow);
            },
            Some(x) => x,
        };
        let new_ra = match r_a.checked_add(asset_a_amount) {
            None => {
                return Err(Error::OverflowOrUnderflow);
            },
            Some(x) => x,
        };
        let new_rb = match r_b.checked_add(asset_b_amount) {
            None => {
                return Err(Error::OverflowOrUnderflow);
            },
            Some(x) => x,
        };
        proof {
            // the LP asset differs from both traded assets, so the two
            // transfers leave the caller's LP balance untouched
            assert(pool_entry_ok(s0, lp));
            assert(bal_of(bal2, lp, who) == bal_of(s0.balances, lp, who));
        }
        let bal_lp_who = self.ledger.balance(lp, who);
        if minted > u128::MAX - bal_lp_who {
            return Err(Error::OverflowOrUnderflow);
        }
        self.ledger.transfer(asset_a_id, who, custody, asset_a_amount);
        self.ledger.transfer(asset_b_id, who, custody, asset_b_amount);
        self.pools.insert(
            lp,
            LiquidityPoolDetails {
                supply: new_supply,
                asset_a_id: pool.asset_a_id,
                asset_b_id: pool.asset_b_id,
            },
        );
        self.reserves.insert(
            asset_a_id,
            asset_b_id,
            ReserveDetails { reserve: new_ra, asset_lp_id: res_a.asset_lp_id },
        );
        self.reserves.insert(
            asset_b_id,
            asset_a_id,
            ReserveDetails { reserve: new_rb, asset_lp_id: res_b.asset_lp_id },
        );
        self.ledger.mint(lp, who, minted);
        proof {
            assert(new_rb > 0);
            lemma_inv_amm_update(s0, self@, asset_a_id, asset_b_id, new_ra, new_rb, new_supply);
            assert(self@ =~= add_liquidity_spec(
                s0,
                who,
                asset_a_id,
                asset_a_amount,
                asset_b_id,
                asset_b_amount,
            )->Ok_0.0);
        }
        Ok(
            Event::LiquidityAdded {
                asset_a_id,
                asset_a_amount,
                asset_b_id,
                asset_b_amount,
            },
        )
    }

    /// Removes a position from a pool: burns the LP tokens and returns each
    /// asset in proportion `lp_amount * reserve / supply`, rounded down;
    /// the rounding loss accrues to the pool.
    pub fn remove_liquidity(&mut self, who: u64, lp_asset_id: u32, lp_asset_amount: u128) -> (r:
        Result<Event, Error>)
        requires
            old(self).wf(),
        ensures
            final(self).wf(),
            op_result_matches(
                remove_liquidity_spec(old(self)@, who, lp_asset_id, lp_asset_amount),
                r,
                final(self)@,
            ),
            r is Err ==> final(self)@ == old(self)@,
    {
        if !self.ledger.asset_exists(lp_asset_id) {
            return Err(Error::TokenNotExists);
        }
        if lp_asset_amount == 0 {
            return Err(Error::InvalidAmount);
        }
        let bal_lp_who = self.ledger.balance(lp_asset_id, who);
        if bal_lp_who < lp_asset_amount {
            return Err(Error::LowBalance);
        }
        let pool = match self.pools.get(lp_asset_id) {
            None => {
                return Err(Error::PairNotExists);
            },
            Some(p) => p,
        };
        let a = pool.asset_a_id;
        let b = pool.asset_b_id;
        if !self.reserves.contains(a, b) || !self.reserves.contains(b, a) {
            return Err(Error::PairNotExists);
        }
        let res_a = self.reserves.get(a, b).unwrap();
        let res_b = self.reserves.get(b, a).unwrap();
        let r_a = res_a.reserve;
        let r_b = res_b.reserve;
        let supply = pool.supply;
        let ret_a = match lp_asset_amount.checked_mul(r_a) {
            None => {
                return Err(Error::OverflowOrUnderflow);
            },
            Some(x) => match x.checked_div(supply) {
                None => {
                    return Err(Error::OverflowOrUnderflow);
                },
                Some(q) => q,
            },
        };
        let ret_b = match lp_asset_amount.checked_mul(r_b) {
            None => {
                return Err(Error::OverflowOrUnderflow);
            },
            Some(x) => x.checked_div(supply).unwrap(),
        };
        let ghost s0 = self@;
        let ghost bal1 = s0.balances.insert(
            (lp_asset_id, who),
            (bal_of(s0.balances, lp_asset_id, who) - lp_asset_amount) as u128,
        );
        let custody = self.custody;
        proof {
            // the LP asset differs from both traded assets, so burning it
            // leaves every balance of the traded assets untouched
            assert(pool_entry_ok(s0, lp_asset_id));
            assert(bal_of(bal1, a, custody) == bal_of(s0.balances, a, custody));
            assert(bal_of(bal1, a, who) == bal_of(s0.balances, a, who));
        }
        let bal_a_custody = self.ledger.balance(a, custody);
        if bal_a_custody < ret_a {
            return Err(Error::LowBalance);
        }
        let bal_a_who = self.ledger.balance(a, who);
        if custody != who && ret_a > u128::MAX - bal_a_who {
            return Err(Error::OverflowOrUnderflow);
        }
        let ghost bal2 = transfer_map(bal1, a, custody, who, ret_a);
        // what the first leg leaves custody and the caller holding of asset b
        let bal2_b_custody: u128 = if b == a {
            if custody != who {
                bal_a_custody - ret_a
            } else {
                bal_a_custody
            }
        } else {
            self.ledger.balance(b, custody)
        };
        proof {
            assert(bal2_b_custody == bal_of(bal2, b, custody));
        }
        if bal2_b_custody < ret_b {
            return Err(Error::LowBalance);
        }
        let bal2_b_who: u128 = if b == a {
            if custody != who {
                bal_a_who + ret_a
            } else {
                bal_a_who
            }
        } else {
            self.ledger.balance(b, who)
        };
        proof {
            assert(bal2_b_who == bal_of(bal2, b, who));
        }
        if custody != who && ret_b > u128::MAX - bal2_b_who {
            return Err(Error::OverflowOrUnderflow);
        }
        if r_a < ret_a {
            return Err(Error::OverflowOrUnderflow);
        }
        if r_b < ret_b {
            return Err(Error::OverflowOrUnderflow);
        }
        if supply < lp_asset_amount {
            return Err(Error::OverflowOrUnderflow);
        }
        self.ledger.burn(lp_asset_id, who, lp_asset_amount);
        self.ledger.transfer(a, custody, who, ret_a);
        self.ledger.transfer(b, custody, who, ret_b);
        self.reserves.insert(
            a,
            b,
            ReserveDetails { reserve: r_a - ret_a, asset_lp_id: res_a.asset_lp_id },
        );
        self.reserves.insert(
            b,
            a,
            ReserveDetails { reserve: r_b - ret_b, asset_lp_id: res_b.asset_lp_id },
        );
        self.pools.insert(
            lp_asset_id,
            LiquidityPoolDetails {
                supply: supply - lp_asset_amount,
                asset_a_id: a,
                asset_b_id: b,
            },
        );
        proof {
            // an emptied reserve means the whole supply was withdrawn
            if r_b == ret_b && (a == b || r_a == ret_a) {
                assert(supply_zero_ok(s0, a, b));
                if r_b > 0 {
                    lemma_full_withdrawal(lp_asset_amount as int, r_b as int, supply as int);
                } else if a == b {
                    assert(r_a == 0);
                } else if r_a > 0 {
                    lemma_full_withdrawal(lp_asset_amount as int, r_a as int, supply as int);
                }
            }
            lemma_inv_amm_update(
                s0,
                self@,
                a,
                b,
                (r_a - ret_a) as u128,
                (r_b - ret_b) as u128,
                (supply - lp_asset_amount) as u128,
            );
            assert(self@ =~= remove_liquidity_spec(s0, who, lp_asset_id, lp_asset_amount)->Ok_0.0);
        }
        Ok(
            Event::LiquidityRemoved {
                asset_a_id: a,
                asset_a_amount: ret_a,
                asset_b_id: b,
                asset_b_amount: ret_b,
                lp_asset_amount_burned: lp_asset_amount,
            },
        )
    }

    /// Swaps `asset_a_amount` of one asset for the other at the
    /// constant-product price, enforcing the caller's minimum output and an
    /// optional deadline; the output goes to `to_account`, or to the caller
    /// when none is given.
    pub fn swap(
        &mut self,
        who: u64,
        asset_a_id: u32,
        asset_a_amount: u128,
        asset_b_id: u32,
        min_asset_b_amount: u128,
        execution_deadline: Option<u64>,
        to_account: Option<u64>,
    ) -> (r: Result<Event, Error>)
        requires
            old(self).wf(),
        ensures
            final(self).wf(),
            op_result_matches(
                swap_spec(
                    old(self)@,
                    who,
                    asset_a_id,
                    asset_a_amount,
                    asset_b_id,
                    min_asset_b_amount,
                    execution_deadline,
                    to_account,
                ),
                r,
                final(self)@,
            ),
            r is Err ==> final(self)@ == old(self)@,
    {
        match execution_deadline {
            Some(d) => if d < self.block_number {
                return Err(Error::Expired);
            },
            None => {},
        }
        if !self.ledger.asset_exists(asset_a_id) || !self.ledger.asset_exists(asset_b_id) {
            return Err(Error::TokenNotExists);
        }
        let bal_a_who = self.ledger.balance(asset_a_id, who);
        if bal_a_who < asset_a_amount {
            return Err(Error::LowBalance);
        }
        match self.ensure_liquidity_pool_exists(asset_a_id, asset_b_id) {
            Err(e) => {
                return Err(e);
            },
            Ok(_) => {},
        }
        let out = match self.get_amount_out(asset_a_id, asset_a_amount, asset_b_id) {
            Err(e) => {
                return Err(e);
            },
            Ok(o) => o,
        };
        if out < min_asset_b_amount {
            return Err(Error::SwapOutBelowMin);
        }
        let recipient = match to_account {
            Some(t) => t,
            None => who,
        };
        let custody = self.custody;
        let bal_a_custody = self.ledger.balance(asset_a_id, custody);
        if who != custody && asset_a_amount > u128::MAX - bal_a_custody {
            return Err(Error::OverflowOrUnderflow);
        }
        let ghost s0 = self@;
        let ghost bal1 = transfer_map(s0.balances, asset_a_id, who, custody, asset_a_amount);
        // what the first leg leaves custody holding of asset b
        let bal1_b_custody: u128 = if asset_b_id == asset_a_id {
            if who != custody {
                bal_a_custody + asset_a_amount
            } else {
                bal_a_custody
            }
        } else {
            self.ledger.balance(asset_b_id, custody)
        };
        proof {
            assert(bal1_b_custody == bal_of(bal1, asset_b_id, custody));
        }
        if bal1_b_custody < out {
            return Err(Error::LowBalance);
        }
        // what the first leg leaves the recipient holding of asset b
        let bal1_b_recipient: u128 = if asset_b_id == asset_a_id && recipient == custody {
            bal1_b_custody
        } else if asset_b_id == asset_a_id && recipient == who {
            bal_a_who - asset_a_amount
        } else {
            self.ledger.balance(asset_b_id, recipient)
        };
        proof {
            assert(bal1_b_recipient == bal_of(bal1, asset_b_id, recipient));
        }
        if custody != recipient && out > u128::MAX - bal1_b_recipient {
            return Err(Error::OverflowOrUnderflow);
        }
        let res_a = self.reserves.get(asset_a_id, asset_b_id).unwrap();
        let res_b = self.reserves.get(asset_b_id, asset_a_id).unwrap();
        let r_a = res_a.reserve;
        let r_b = res_b.reserve;
        if r_b < out {
            return Err(Error::OverflowOrUnderflow);
        }
        let lp = res_a.asset_lp_id;
        let pool = self.pools.get(lp).unwrap();
        proof {
            assert(r_a + asset_a_amount <= u128::MAX);
        }
        self.ledger.transfer(asset_a_id, who, custody, asset_a_amount);
        self.ledger.transfer(asset_b_id, custody, recipient, out);
        self.reserves.insert(
            asset_a_id,
            asset_b_id,
            ReserveDetails { reserve: r_a + asset_a_amount, asset_lp_id: res_a.asset_lp_id },
        );
        self.reserves.insert(
            asset_b_id,
            asset_a_id,
            ReserveDetails { reserve: r_b - out, asset_lp_id: res_b.asset_lp_id },
        );
        proof {
            assert(s0.pools.insert(
                lp,
                LiquidityPoolDetails {
                    supply: pool.supply,
                    asset_a_id: pool.asset_a_id,
                    asset_b_id: pool.asset_b_id,
                },
            ) =~= s0.pools);
            // a swap only empties a reserve cell that was already empty
            if asset_a_id == asset_b_id && r_b == out {
                let num = (r_b as int) * (asset_a_amount as int);
                let den = (r_a as int) + (asset_a_amount as int);
                assert(num >= 0) by (nonlinear_arith)
                    requires
                        num == (r_b as int) * (asset_a_amount as int),
                ;
                vstd::arithmetic::div_mod::lemma_div_pos_is_pos(num, den);
                vstd::arithmetic::div_mod::lemma_div_is_ordered_by_denominator(num, 1, den);
                assert(out as int == num / den);
                if r_b > 0 {
                    lemma_drain_requires_empty(r_b as int, asset_a_amount as int);
                }
                assert(supply_zero_ok(s0, asset_a_id, asset_b_id));
            }
            lemma_inv_amm_update(
                s0,
                self@,
                asset_a_id,
                asset_b_id,
                (r_a + asset_a_amount) as u128,
                (r_b - out) as u128,
                pool.supply,
            );
            assert(self@ =~= swap_spec(
                s0,
                who,
                asset_a_id,
                asset_a_amount,
                asset_b_id,
                min_asset_b_amount,
                execution_deadline,
                to_account,
            )->Ok_0.0);
        }
        Ok(
            Event::SwapeExecuted {
                asset_a_id,
                asset_a_amount,
                asset_b_id,
                asset_b_amount: out,
            },
        )
    }

    /// Locks funds under a hashlock until `current height + timelock`: the
    /// identifier must be fresh and the expiration strictly in the future;
    /// the amount moves from the caller into custody.
    pub fn lock(
        &mut self,
        who: u64,
        tx_id: [u8; 32],
        recipient: u64,
        hashlock: [u8; 32],
        timelock: u64,
        asset_id: u32,
        asset_amount: u128,
    ) -> (r: Result<Event, Error>)
        requires
            old(self).wf(),
        ensures
            final(self).wf(),
            op_result_matches(
                lock_spec(
                    old(self)@,
                    who,
                    tx_id,
                    recipient,
                    hashlock,
                    timelock,
                    asset_id,
                    asset_amount,
                ),
                r,
                final(self)@,
            ),
            r is Err ==> final(self)@ == old(self)@,
    {
        if self.locks.contains(&tx_id) {
            return Err(Error::TransactionIdExists);
        }
        let expiration = match self.block_number.checked_add(timelock) {
            None => {
                return Err(Error::OverflowOrUnderflow);
            },
            Some(x) => x,
        };
        if timelock == 0 {
            return Err(Error::InvalidTimelock);
        }
        if !self.ledger.asset_exists(asset_id) {
            return Err(Error::TokenNotExists);
        }
        let bal_who = self.ledger.balance(asset_id, who);
        if bal_who < asset_amount {
            return Err(Error::LowBalance);
        }
        let custody = self.custody;
        if who != custody {
            let bal_custody = self.ledger.balance(asset_id, custody);
            if asset_amount > u128::MAX - bal_custody {
                return Err(Error::OverflowOrUnderflow);
            }
        }
        let ghost s0 = self@;
        let record = LockDetails {
            tx_id,
            sender: who,
            recipient,
            asset_id,
            amount: asset_amount,
            hashlock,
            expiration_block: expiration,
            is_withdraw: false,
            is_refunded: false,
        };
        self.ledger.transfer(asset_id, who, custody, asset_amount);
        self.locks.insert(&tx_id, record);
        proof {
            lemma_inv_lock(s0, self@, tx_id, record);
            assert(self@ =~= lock_spec(
                s0,
                who,
                tx_id,
                recipient,
                hashlock,
                timelock,
                asset_id,
                asset_amount,
            )->Ok_0.0);
        }
        Ok(Event::Locked { recipient, hashlock, timelock, asset_id, asset_amount })
    }

    /// Redeems an escrow: only the recorded recipient may redeem, with a
    /// preimage hashing to the hashlock; the funds leave custody for the
    /// recipient, the escrow becomes withdrawn, and the preimage is
    /// recorded. No expiration check: redemption stays open until a cancel
    /// wins the race.
    pub fn unlock(&mut self, who: u64, tx_id: [u8; 32], preimage: Vec<u8>) -> (r: Result<
        Event,
        Error,
    >)
        requires
            old(self).wf(),
        ensures
            final(self).wf(),
            op_result_matches(unlock_spec(old(self)@, who, tx_id, preimage@), r, final(self)@),
            r is Err ==> final(self)@ == old(self)@,
    {
        let l = match self.locks.get(&tx_id) {
            None => {
                return Err(Error::TransactionNotExists);
            },
            Some(l) => l,
        };
        if l.recipient != who {
            return Err(Error::InvalidReceiver);
        }
        if l.is_withdraw {
            return Err(Error::AlreadyWithdrawn);
        }
        if l.is_refunded {
            return Err(Error::AlreadyRefunded);
        }
        let digest = sha2_256(preimage.as_slice());
        if !bytes32_eq(&digest, &l.hashlock) {
            proof {
                // bytes that differ somewhere are different views
                if digest@ == l.hashlock@ {
                    assert(digest =~= l.hashlock);
                }
            }
            return Err(Error::InvalidPreimage);
        }
        proof {
            assert(digest =~= l.hashlock);
        }
        let custody = self.custody;
        let bal_custody = self.ledger.balance(l.asset_id, custody);
        if bal_custody < l.amount {
            return Err(Error::LowBalance);
        }
        if custody != l.recipient {
            let bal_recipient = self.ledger.balance(l.asset_id, l.recipient);
            if l.amount > u128::MAX - bal_recipient {
                return Err(Error::OverflowOrUnderflow);
            }
        }
        let ghost s0 = self@;
        self.ledger.transfer(l.asset_id, custody, l.recipient, l.amount);
        self.locks.insert(&tx_id, LockDetails { is_withdraw: true, ..l });
        proof {
            assert(!s0.secrets.contains_key(tx_id));
        }
        self.secrets.insert_fresh(&tx_id, preimage);
        proof {
            lemma_inv_unlock(s0, self@, tx_id, self@.secrets[tx_id]);
            assert(self@ =~= unlock_spec(s0, who, tx_id, self@.secrets[tx_id])->Ok_0.0);
        }
        Ok(Event::Unlocked { tx_id })
    }

    /// Refunds an expired escrow to its original sender and marks it
    /// refunded. Any caller may cancel; only the sender benefits.
    pub fn cancel(&mut self, who: u64, tx_id: [u8; 32]) -> (r: Result<Event, Error>)
        requires
            old(self).wf(),
        ensures
            final(self).wf(),
            op_result_matches(cancel_spec(old(self)@, tx_id), r, final(self)@),
            r is Err ==> final(self)@ == old(self)@,
    {
        let l = match self.locks.get(&tx_id) {
            None => {
                return Err(Error::TransactionNotExists);
            },
            Some(l) => l,
        };
        if l.is_withdraw {
            return Err(Error::AlreadyWithdrawn);
        }
        if l.is_refunded {
            return Err(Error::AlreadyRefunded);
        }
        if self.block_number < l.expiration_block {
            return Err(Error::TimeLockNotExpired);
        }
        let custody = self.custody;
        let bal_custody = self.ledger.balance(l.asset_id, custody);
        if bal_custody < l.amount {
            return Err(Error::LowBalance);
        }
        if custody != l.sender {
            let bal_sender = self.ledger.balance(l.asset_id, l.sender);
            if l.amount > u128::MAX - bal_sender {
                return Err(Error::OverflowOrUnderflow);
            }
        }
        let ghost s0 = self@;
        self.ledger.transfer(l.asset_id, custody, l.sender, l.amount);
        self.locks.insert(&tx_id, LockDetails { is_refunded: true, ..l });
        proof {
            lemma_inv_cancel(s0, self@, tx_id);
            assert(self@ =~= cancel_spec(s0, tx_id)->Ok_0.0);
        }
        Ok(Event::Canceled { tx_id })
    }

    /// The LP asset identifier recorded for the directed pair.
    pub fn get_liquidity_pool_asset_id(&self, asset_a_id: u32, asset_b_id: u32) -> (r: Result<
        u32,
        Error,
    >)
        requires
            self.wf(),
        ensures
            r == if self@.reserves.contains_key((asset_a_id, asset_b_id)) {
                Ok::<u32, Error>(self@.reserves[(asset_a_id, asset_b_id)].asset_lp_id)
            } else {
                Err::<u32, Error>(Error::PairNotExists)
            },
    {
        match self.reserves.get(asset_a_id, asset_b_id) {
            Some(d) => Ok(d.asset_lp_id),
            None => Err(Error::PairNotExists),
        }
    }

    /// Checks that both directed reserve entries and the pool exist.
    pub fn ensure_liquidity_pool_exists(&self, a: u32, b: u32) -> (r: Result<(), Error>)
        requires
            self.wf(),
        ensures
            r == if pair_exists(self@, a, b) {
                Ok::<(), Error>(())
            } else {
                Err::<(), Error>(Error::PairNotExists)
            },
    {
        match self.reserves.get(a, b) {
            None => Err(Error::PairNotExists),
            Some(d) => {
                if !self.reserves.contains(b, a) {
                    Err(Error::PairNotExists)
                } else if !self.pools.contains(d.asset_lp_id) {
                    Err(Error::PairNotExists)
                } else {
                    Ok(())
                }
            },
        }
    }
}

} // verus!
