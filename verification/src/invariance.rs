//! Preservation of the state invariant across each transition: reserves and
//! pool supply never fall out of agreement, and escrows never leave their
//! terminal state.

use vstd::prelude::*;

use crate::hashing::sha256_of;
use crate::transitions::{
    lock_entry_ok, pair_entry_ok, pair_exists, pool_entry_ok, state_inv, supply_zero_ok, StateView,
};
use crate::types::{LiquidityPoolDetails, LockDetails, ReserveDetails};

verus! {

/// A state with the same ledger assets and the same registries as an
/// invariant state satisfies the invariant; balances, custody and height
/// play no part in it.
pub proof fn lemma_inv_frame(s: StateView, s1: StateView)
    requires
        state_inv(s),
        s1.assets == s.assets,
        s1.reserves == s.reserves,
        s1.pools == s.pools,
        s1.locks == s.locks,
        s1.secrets == s.secrets,
    ensures
        state_inv(s1),
{
    assert forall|a: u32, b: u32| #[trigger] s1.reserves.contains_key((a, b)) implies pair_entry_ok(
        s1,
        a,
        b,
    ) by {
        assert(pair_entry_ok(s, a, b));
    }
    assert forall|a: u32, b: u32| #[trigger] s1.reserves.contains_key((a, b)) implies
        supply_zero_ok(s1, a, b) by {
        assert(supply_zero_ok(s, a, b));
    }
    assert forall|lp: u32| #[trigger] s1.pools.contains_key(lp) implies pool_entry_ok(s1, lp) by {
        assert(pool_entry_ok(s, lp));
    }
    assert forall|tx: [u8; 32]| #[trigger] s1.locks.contains_key(tx) implies lock_entry_ok(
        s1,
        tx,
    ) by {
        assert(lock_entry_ok(s, tx));
    }
}

/// Growing the ledger's asset set preserves the invariant.
pub proof fn lemma_inv_more_assets(s: StateView, s1: StateView)
    requires
        state_inv(s),
        forall|x: u32| s.assets.contains(x) ==> #[trigger] s1.assets.contains(x),
        s1.reserves == s.reserves,
        s1.pools == s.pools,
        s1.locks == s.locks,
        s1.secrets == s.secrets,
    ensures
        state_inv(s1),
{
    assert forall|a: u32, b: u32| #[trigger] s1.reserves.contains_key((a, b)) implies pair_entry_ok(
        s1,
        a,
        b,
    ) by {
        assert(pair_entry_ok(s, a, b));
    }
    assert forall|a: u32, b: u32| #[trigger] s1.reserves.contains_key((a, b)) implies
        supply_zero_ok(s1, a, b) by {
        assert(supply_zero_ok(s, a, b));
    }
    assert forall|lp: u32| #[trigger] s1.pools.contains_key(lp) implies pool_entry_ok(s1, lp) by {
        assert(pool_entry_ok(s, lp));
    }
    assert forall|tx: [u8; 32]| #[trigger] s1.locks.contains_key(tx) implies lock_entry_ok(
        s1,
        tx,
    ) by {
        assert(lock_entry_ok(s, tx));
    }
}

/// Registering a fresh pair — both directed reserve entries at zero, a
/// zero-supply pool record, and the newly created LP asset — preserves the
/// invariant.
pub proof fn lemma_inv_new_pair(s: StateView, s1: StateView, a: u32, b: u32, lp: u32)
    requires
        state_inv(s),
        s.assets.contains(a),
        s.assets.contains(b),
        !s.reserves.contains_key((a, b)),
        !s.reserves.contains_key((b, a)),
        !s.assets.contains(lp),
        s1.assets == s.assets.insert(lp),
        s1.reserves == s.reserves.insert(
            (a, b),
            ReserveDetails { reserve: 0, asset_lp_id: lp },
        ).insert((b, a), ReserveDetails { reserve: 0, asset_lp_id: lp }),
        s1.pools == s.pools.insert(
            lp,
            LiquidityPoolDetails { supply: 0, asset_a_id: a, asset_b_id: b },
        ),
        s1.locks == s.locks,
        s1.secrets == s.secrets,
    ensures
        state_inv(s1),
{
    assert(!s.pools.contains_key(lp));
    assert forall|x: u32, y: u32| #[trigger] s1.reserves.contains_key((x, y)) implies pair_entry_ok(
        s1,
        x,
        y,
    ) by {
        if (x == a && y == b) || (x == b && y == a) {
            assert(s1.pools[lp] == LiquidityPoolDetails {
                supply: 0,
                asset_a_id: a,
                asset_b_id: b,
            });
        } else {
            assert(s.reserves.contains_key((x, y)));
            assert(pair_entry_ok(s, x, y));
            let klp = s.reserves[(x, y)].asset_lp_id;
            assert(pool_entry_ok(s, klp));
            assert(klp != lp);
            assert(s1.reserves[(x, y)] == s.reserves[(x, y)]);
            assert(s1.reserves[(y, x)] == s.reserves[(y, x)]);
            assert(s1.pools[klp] == s.pools[klp]);
        }
    }
    assert forall|x: u32, y: u32| #[trigger] s1.reserves.contains_key((x, y)) implies
        supply_zero_ok(s1, x, y) by {
        if (x == a && y == b) || (x == b && y == a) {
            assert(s1.pools[lp].supply == 0);
        } else {
            assert(s.reserves.contains_key((x, y)));
            assert(supply_zero_ok(s, x, y));
            assert(pair_entry_ok(s, x, y));
            let klp = s.reserves[(x, y)].asset_lp_id;
            assert(pool_entry_ok(s, klp));
            assert(klp != lp);
            assert(s1.reserves[(x, y)] == s.reserves[(x, y)]);
            assert(s1.reserves[(y, x)] == s.reserves[(y, x)]);
            assert(s1.pools[klp] == s.pools[klp]);
        }
    }
    assert forall|x: u32| #[trigger] s1.pools.contains_key(x) implies pool_entry_ok(s1, x) by {
        if x != lp {
            assert(s.pools.contains_key(x));
            assert(pool_entry_ok(s, x));
            let p = s.pools[x];
            assert(s.reserves.contains_key((p.asset_a_id, p.asset_b_id)));
            assert(s.reserves.contains_key((p.asset_b_id, p.asset_a_id)));
        }
    }
    assert forall|tx: [u8; 32]| #[trigger] s1.locks.contains_key(tx) implies lock_entry_ok(
        s1,
        tx,
    ) by {
        assert(lock_entry_ok(s, tx));
    }
}

/// Changing only the reserve amounts of an existing pair and the supply of
/// its pool preserves the invariant.
pub proof fn lemma_inv_amm_update(
    s: StateView,
    s1: StateView,
    a: u32,
    b: u32,
    new_ra: u128,
    new_rb: u128,
    new_supply: u128,
)
    requires
        state_inv(s),
        pair_exists(s, a, b),
        s1.assets == s.assets,
        s1.reserves == s.reserves.insert(
            (a, b),
            ReserveDetails { reserve: new_ra, ..s.reserves[(a, b)] },
        ).insert((b, a), ReserveDetails { reserve: new_rb, ..s.reserves[(b, a)] }),
        s1.pools == s.pools.insert(
            s.reserves[(a, b)].asset_lp_id,
            LiquidityPoolDetails {
                supply: new_supply,
                ..s.pools[s.reserves[(a, b)].asset_lp_id]
            },
        ),
        s1.locks == s.locks,
        s1.secrets == s.secrets,
        new_rb == 0 && (a == b || new_ra == 0) ==> new_supply == 0,
    ensures
        state_inv(s1),
{
    let lp = s.reserves[(a, b)].asset_lp_id;
    assert(s.reserves[(b, a)].asset_lp_id == lp) by {
        assert(pair_entry_ok(s, a, b));
    }
    assert forall|x: u32, y: u32| #[trigger] s1.reserves.contains_key((x, y)) implies pair_entry_ok(
        s1,
        x,
        y,
    ) by {
        assert(s.reserves.contains_key((x, y)));
        assert(pair_entry_ok(s, x, y));
        assert(s1.reserves[(x, y)].asset_lp_id == s.reserves[(x, y)].asset_lp_id);
        assert(s1.reserves[(y, x)].asset_lp_id == s.reserves[(y, x)].asset_lp_id);
        let klp = s.reserves[(x, y)].asset_lp_id;
        assert(s1.pools.contains_key(klp));
        assert(s1.pools[klp].asset_a_id == s.pools[klp].asset_a_id);
        assert(s1.pools[klp].asset_b_id == s.pools[klp].asset_b_id);
    }
    assert forall|x: u32, y: u32| #[trigger] s1.reserves.contains_key((x, y)) implies
        supply_zero_ok(s1, x, y) by {
        assert(s.reserves.contains_key((x, y)));
        assert(pair_entry_ok(s, x, y));
        let klp = s.reserves[(x, y)].asset_lp_id;
        assert(pool_entry_ok(s, klp));
        if a == b {
            if (x, y) == (a, b) {
                assert(s1.reserves[(a, b)].reserve == new_rb);
                assert(s1.pools[lp].supply == new_supply);
            } else {
                assert(supply_zero_ok(s, x, y));
                assert(klp != lp) by {
                    assert(pool_entry_ok(s, lp));
                }
                assert(s1.pools[klp] == s.pools[klp]);
            }
        } else {
            if (x, y) == (a, b) || (x, y) == (b, a) {
                assert(s1.reserves[(a, b)].reserve == new_ra);
                assert(s1.reserves[(b, a)].reserve == new_rb);
                assert(s1.pools[lp].supply == new_supply);
            } else {
                assert(supply_zero_ok(s, x, y));
                assert(klp != lp) by {
                    assert(pool_entry_ok(s, lp));
                }
                assert(s1.reserves[(x, y)] == s.reserves[(x, y)]);
                assert(s1.reserves[(y, x)] == s.reserves[(y, x)]);
                assert(s1.pools[klp] == s.pools[klp]);
            }
        }
    }
    assert forall|x: u32| #[trigger] s1.pools.contains_key(x) implies pool_entry_ok(s1, x) by {
        assert(s.pools.contains_key(x));
        assert(pool_entry_ok(s, x));
        let p = s.pools[x];
        assert(s1.reserves.contains_key((p.asset_a_id, p.asset_b_id)));
        assert(s1.reserves.contains_key((p.asset_b_id, p.asset_a_id)));
        assert(s1.reserves[(p.asset_a_id, p.asset_b_id)].asset_lp_id == s.reserves[(
            p.asset_a_id,
            p.asset_b_id,
        )].asset_lp_id);
        assert(s1.pools[x].asset_a_id == p.asset_a_id && s1.pools[x].asset_b_id == p.asset_b_id);
    }
    assert forall|tx: [u8; 32]| #[trigger] s1.locks.contains_key(tx) implies lock_entry_ok(
        s1,
        tx,
    ) by {
        assert(lock_entry_ok(s, tx));
    }
}

/// Recording a fresh, unfinalized escrow preserves the invariant.
pub proof fn lemma_inv_lock(s: StateView, s1: StateView, tx: [u8; 32], record: LockDetails)
    requires
        state_inv(s),
        !s.locks.contains_key(tx),
        record.tx_id == tx,
        !record.is_withdraw,
        !record.is_refunded,
        s1.assets == s.assets,
        s1.reserves == s.reserves,
        s1.pools == s.pools,
        s1.locks == s.locks.insert(tx, record),
        s1.secrets == s.secrets,
    ensures
        state_inv(s1),
{
    assert(!s.secrets.contains_key(tx));
    assert forall|a: u32, b: u32| #[trigger] s1.reserves.contains_key((a, b)) implies pair_entry_ok(
        s1,
        a,
        b,
    ) by {
        assert(pair_entry_ok(s, a, b));
    }
    assert forall|a: u32, b: u32| #[trigger] s1.reserves.contains_key((a, b)) implies
        supply_zero_ok(s1, a, b) by {
        assert(supply_zero_ok(s, a, b));
    }
    assert forall|lp: u32| #[trigger] s1.pools.contains_key(lp) implies pool_entry_ok(s1, lp) by {
        assert(pool_entry_ok(s, lp));
    }
    assert forall|t: [u8; 32]| #[trigger] s1.locks.contains_key(t) implies lock_entry_ok(
        s1,
        t,
    ) by {
        if t != tx {
            assert(s.locks.contains_key(t));
            assert(lock_entry_ok(s, t));
        }
    }
}

/// Redeeming an unfinalized escrow with a matching preimage — marking it
/// withdrawn and recording the preimage — preserves the invariant.
pub proof fn lemma_inv_unlock(s: StateView, s1: StateView, tx: [u8; 32], preimage: Seq<u8>)
    requires
        state_inv(s),
        s.locks.contains_key(tx),
        !s.locks[tx].is_withdraw,
        !s.locks[tx].is_refunded,
        sha256_of(preimage) == s.locks[tx].hashlock@,
        s1.assets == s.assets,
        s1.reserves == s.reserves,
        s1.pools == s.pools,
        s1.locks == s.locks.insert(tx, LockDetails { is_withdraw: true, ..s.locks[tx] }),
        s1.secrets == s.secrets.insert(tx, preimage),
    ensures
        state_inv(s1),
{
    assert(lock_entry_ok(s, tx));
    assert forall|a: u32, b: u32| #[trigger] s1.reserves.contains_key((a, b)) implies pair_entry_ok(
        s1,
        a,
        b,
    ) by {
        assert(pair_entry_ok(s, a, b));
    }
    assert forall|a: u32, b: u32| #[trigger] s1.reserves.contains_key((a, b)) implies
        supply_zero_ok(s1, a, b) by {
        assert(supply_zero_ok(s, a, b));
    }
    assert forall|lp: u32| #[trigger] s1.pools.contains_key(lp) implies pool_entry_ok(s1, lp) by {
        assert(pool_entry_ok(s, lp));
    }
    assert forall|t: [u8; 32]| #[trigger] s1.locks.contains_key(t) implies lock_entry_ok(
        s1,
        t,
    ) by {
        if t != tx {
            assert(s.locks.contains_key(t));
            assert(lock_entry_ok(s, t));
        }
    }
}

/// Refunding an unfinalized escrow after expiry — marking it refunded —
/// preserves the invariant.
pub proof fn lemma_inv_cancel(s: StateView, s1: StateView, tx: [u8; 32])
    requires
        state_inv(s),
        s.locks.contains_key(tx),
        !s.locks[tx].is_withdraw,
        !s.locks[tx].is_refunded,
        s1.assets == s.assets,
        s1.reserves == s.reserves,
        s1.pools == s.pools,
        s1.locks == s.locks.insert(tx, LockDetails { is_refunded: true, ..s.locks[tx] }),
        s1.secrets == s.secrets,
    ensures
        state_inv(s1),
{
    assert(lock_entry_ok(s, tx));
    assert forall|a: u32, b: u32| #[trigger] s1.reserves.contains_key((a, b)) implies pair_entry_ok(
        s1,
        a,
        b,
    ) by {
        assert(pair_entry_ok(s, a, b));
    }
    assert forall|a: u32, b: u32| #[trigger] s1.reserves.contains_key((a, b)) implies
        supply_zero_ok(s1, a, b) by {
        assert(supply_zero_ok(s, a, b));
    }
    assert forall|lp: u32| #[trigger] s1.pools.contains_key(lp) implies pool_entry_ok(s1, lp) by {
        assert(pool_entry_ok(s, lp));
    }
    assert forall|t: [u8; 32]| #[trigger] s1.locks.contains_key(t) implies lock_entry_ok(
        s1,
        t,
    ) by {
        if t != tx {
            assert(s.locks.contains_key(t));
            assert(lock_entry_ok(s, t));
        }
    }
}

} // verus!
