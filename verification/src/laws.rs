//! Laws of the engine, proved over the transition functions: pair creation
//! is exclusive, escrows resolve exactly once, and swaps never decrease
//! the product of the reserves.

use vstd::prelude::*;

use crate::hashing::sha256_of;
use crate::ledger::bal_of;
use crate::math::lemma_constant_product;
use crate::transitions::{
    cancel_spec, lock_spec, new_exchange_spec, pair_exists, state_inv, swap_spec, unlock_spec,
    StateView,
};
use crate::types::{Error, Event, ReserveDetails};

verus! {

/// A valid pair creation starts both directed reserves at zero, sharing
/// the newly created LP asset, whose pool starts with zero supply.
pub proof fn lemma_creation_initializes_pair(s: StateView, a: u32, b: u32, lp: u32)
    requires
        new_exchange_spec(s, a, b, lp) is Ok,
    ensures
        ({
            let s1 = new_exchange_spec(s, a, b, lp)->Ok_0.0;
            &&& s1.reserves[(a, b)] == (ReserveDetails { reserve: 0, asset_lp_id: lp })
            &&& s1.reserves[(b, a)] == (ReserveDetails { reserve: 0, asset_lp_id: lp })
            &&& s1.pools[lp].supply == 0
            &&& pair_exists(s1, a, b)
        }),
{
}

/// After a pair is created, a second creation attempt with any permutation
/// of the same two assets, or with the same LP asset, fails with
/// "already exists".
pub proof fn lemma_second_creation_fails(
    s: StateView,
    a: u32,
    b: u32,
    lp: u32,
    x: u32,
    y: u32,
    lp2: u32,
)
    requires
        new_exchange_spec(s, a, b, lp) is Ok,
        (x == a && y == b) || (x == b && y == a) || lp2 == lp,
        new_exchange_spec(s, a, b, lp)->Ok_0.0.assets.contains(x),
        new_exchange_spec(s, a, b, lp)->Ok_0.0.assets.contains(y),
    ensures
        new_exchange_spec(new_exchange_spec(s, a, b, lp)->Ok_0.0, x, y, lp2) == Err::<
            (StateView, Event),
            Error,
        >(Error::LpTokenOrExchangeAlreadyExists),
{
}

/// Locking and then redeeming with the matching preimage succeeds, marks
/// the escrow withdrawn, records the preimage, and pays the locked amount
/// out of custody to the recipient.
pub proof fn lemma_lock_then_unlock(
    s: StateView,
    sender: u64,
    tx: [u8; 32],
    recipient: u64,
    hashlock: [u8; 32],
    timelock: u64,
    asset: u32,
    amount: u128,
    preimage: Seq<u8>,
)
    requires
        lock_spec(s, sender, tx, recipient, hashlock, timelock, asset, amount) is Ok,
        sha256_of(preimage) == hashlock@,
        bal_of(s.balances, asset, recipient) + amount <= u128::MAX,
    ensures
        ({
            let s1 = lock_spec(s, sender, tx, recipient, hashlock, timelock, asset, amount)
                ->Ok_0.0;
            let r2 = unlock_spec(s1, recipient, tx, preimage);
            &&& r2 is Ok
            &&& r2->Ok_0.0.locks[tx].is_withdraw
            &&& !r2->Ok_0.0.locks[tx].is_refunded
            &&& r2->Ok_0.0.secrets[tx] == preimage
            &&& (recipient != s.custody && recipient != sender ==> bal_of(
                r2->Ok_0.0.balances,
                asset,
                recipient,
            ) == bal_of(s.balances, asset, recipient) + amount)
            &&& (forall|p2: Seq<u8>| #[trigger] unlock_spec(r2->Ok_0.0, recipient, tx, p2)
                == Err::<(StateView, Event), Error>(Error::AlreadyWithdrawn))
            &&& cancel_spec(r2->Ok_0.0, tx) == Err::<(StateView, Event), Error>(
                Error::AlreadyWithdrawn,
            )
        }),
{
}

/// Redeeming with a preimage that does not hash to the hashlock fails with
/// the preimage error; the transition functions alter no state on any
/// error.
pub proof fn lemma_wrong_preimage_rejected(s: StateView, tx: [u8; 32], who: u64, preimage: Seq<u8>)
    requires
        s.locks.contains_key(tx),
        who == s.locks[tx].recipient,
        !s.locks[tx].is_withdraw,
        !s.locks[tx].is_refunded,
        sha256_of(preimage) != s.locks[tx].hashlock@,
    ensures
        unlock_spec(s, who, tx, preimage) == Err::<(StateView, Event), Error>(
            Error::InvalidPreimage,
        ),
{
}

/// Before the expiration height a cancel is rejected; from the expiration
/// height on, cancelling an unredeemed lock succeeds, marks it refunded,
/// and restores the sender's balance to what it was before the lock.
pub proof fn lemma_lock_then_cancel(
    s: StateView,
    sender: u64,
    tx: [u8; 32],
    recipient: u64,
    hashlock: [u8; 32],
    timelock: u64,
    asset: u32,
    amount: u128,
    h: u64,
)
    requires
        lock_spec(s, sender, tx, recipient, hashlock, timelock, asset, amount) is Ok,
    ensures
        ({
            let s1 = lock_spec(s, sender, tx, recipient, hashlock, timelock, asset, amount)
                ->Ok_0.0;
            let later = StateView { height: h, ..s1 };
            &&& (h < s1.locks[tx].expiration_block ==> cancel_spec(later, tx) == Err::<
                (StateView, Event),
                Error,
            >(Error::TimeLockNotExpired))
            &&& (h >= s1.locks[tx].expiration_block ==> {
                let r2 = cancel_spec(later, tx);
                &&& r2 is Ok
                &&& r2->Ok_0.0.locks[tx].is_refunded
                &&& !r2->Ok_0.0.locks[tx].is_withdraw
                &&& bal_of(r2->Ok_0.0.balances, asset, sender) == bal_of(
                    s.balances,
                    asset,
                    sender,
                )
            })
        }),
{
}

/// A finalized escrow rejects every further unlock or cancel: a withdrawn
/// escrow answers "already withdrawn", a refunded one "already refunded".
pub proof fn lemma_terminal_escrow_rejects(s: StateView, tx: [u8; 32], preimage: Seq<u8>)
    requires
        s.locks.contains_key(tx),
        s.locks[tx].is_withdraw || s.locks[tx].is_refunded,
    ensures
        s.locks[tx].is_withdraw ==> unlock_spec(s, s.locks[tx].recipient, tx, preimage) == Err::<
            (StateView, Event),
            Error,
        >(Error::AlreadyWithdrawn),
        s.locks[tx].is_withdraw ==> cancel_spec(s, tx) == Err::<(StateView, Event), Error>(
            Error::AlreadyWithdrawn,
        ),
        !s.locks[tx].is_withdraw ==> unlock_spec(s, s.locks[tx].recipient, tx, preimage) == Err::<
            (StateView, Event),
            Error,
        >(Error::AlreadyRefunded),
        !s.locks[tx].is_withdraw ==> cancel_spec(s, tx) == Err::<(StateView, Event), Error>(
            Error::AlreadyRefunded,
        ),
{
}

/// The reserve product invariant: a successful swap between two distinct
/// assets never decreases the product of the pair's two reserves. With the
/// current fee factor of one the product is unchanged up to the rounding
/// loss of the integer division, which accrues to the pool.
pub proof fn lemma_swap_preserves_product(
    s: StateView,
    who: u64,
    a: u32,
    amount_a: u128,
    b: u32,
    min_b: u128,
    deadline: Option<u64>,
    to: Option<u64>,
)
    requires
        a != b,
        swap_spec(s, who, a, amount_a, b, min_b, deadline, to) is Ok,
    ensures
        ({
            let s1 = swap_spec(s, who, a, amount_a, b, min_b, deadline, to)->Ok_0.0;
            s1.reserves[(a, b)].reserve * s1.reserves[(b, a)].reserve >= s.reserves[(a, b)].reserve
                * s.reserves[(b, a)].reserve
        }),
{
    let r_a = s.reserves[(a, b)].reserve;
    let r_b = s.reserves[(b, a)].reserve;
    let out = (r_b * amount_a / (r_a + amount_a)) as int;
    lemma_constant_product(r_a as int, r_b as int, amount_a as int, amount_a as int, out);
}

} // verus!
