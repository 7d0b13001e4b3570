//! An in-memory fungible-asset ledger: which assets exist, and the balance
//! each account holds of each asset. The engines move funds exclusively
//! through it.

use vstd::prelude::*;

use crate::store::{
    assoc_map, distinct_keys, lemma_assoc_map_dom, lemma_assoc_map_index, lemma_assoc_map_push,
    lemma_assoc_map_update,
};

verus! {

/// Mathematical content of the ledger: the set of existing assets and the
/// balance map.
pub struct LedgerView {
    pub assets: Set<u32>,
    pub balances: Map<(u32, u64), u128>,
}

/// The balance an account holds of an asset; zero when no entry is recorded.
pub open spec fn bal_of(balances: Map<(u32, u64), u128>, asset: u32, who: u64) -> u128 {
    if balances.contains_key((asset, who)) {
        balances[(asset, who)]
    } else {
        0
    }
}

/// The balance map after moving `amount` of `asset` from `from` to `to`.
pub open spec fn transfer_map(
    balances: Map<(u32, u64), u128>,
    asset: u32,
    from: u64,
    to: u64,
    amount: u128,
) -> Map<(u32, u64), u128> {
    let debited = balances.insert((asset, from), (bal_of(balances, asset, from) - amount) as u128);
    debited.insert((asset, to), (bal_of(debited, asset, to) + amount) as u128)
}

/// The in-memory asset ledger.
pub struct AssetLedger {
    assets: Vec<u32>,
    balances: Vec<((u32, u64), u128)>,
}

impl View for AssetLedger {
    type V = LedgerView;

    closed spec fn view(&self) -> LedgerView {
        LedgerView {
            assets: Set::new(|a: u32| self.assets@.contains(a)),
            balances: assoc_map(self.balances@),
        }
    }
}

impl AssetLedger {
    /// No account/asset pair is recorded twice.
    pub closed spec fn wf(&self) -> bool {
        distinct_keys(self.balances@)
    }

    /// A ledger with no assets and no balances.
    pub fn new() -> (l: Self)
        ensures
            l.wf(),
            l@.assets == Set::<u32>::empty(),
            l@.balances == Map::<(u32, u64), u128>::empty(),
    {
        let l = AssetLedger { assets: Vec::new(), balances: Vec::new() };
        proof {
            assert(l@.assets =~= Set::<u32>::empty());
            assert(l@.balances =~= Map::<(u32, u64), u128>::empty());
        }
        l
    }

    /// Whether the asset exists in the ledger.
    pub fn asset_exists(&self, asset: u32) -> (r: bool)
        ensures
            r == self@.assets.contains(asset),
    {
        let mut i: usize = 0;
        while i < self.assets.len()
            invariant
                i <= self.assets@.len(),
                forall|j: int| 0 <= j < i ==> self.assets@[j] != asset,
            decreases self.assets@.len() - i,
        {
            if self.assets[i] == asset {
                return true;
            }
            i = i + 1;
        }
        false
    }

    /// Creates the asset if it does not exist yet; reports whether it did.
    pub fn create_asset(&mut self, asset: u32) -> (created: bool)
        requires
            old(self).wf(),
        ensures
            final(self).wf(),
            created == !old(self)@.assets.contains(asset),
            final(self)@.balances == old(self)@.balances,
            final(self)@.assets == if created {
                old(self)@.assets.insert(asset)
            } else {
                old(self)@.assets
            },
    {
        if self.asset_exists(asset) {
            return false;
        }
        let ghost prior = self.assets@;
        self.assets.push(asset);
        proof {
            assert forall|x: u32| #[trigger] self.assets@.contains(x) implies prior.contains(x)
                || x == asset by {
                let i = choose|i: int| 0 <= i < self.assets@.len() && self.assets@[i] == x;
                if i < prior.len() {
                    assert(prior[i] == x);
                }
            }
            assert forall|x: u32| prior.contains(x) implies #[trigger] self.assets@.contains(x) by {
                let i = choose|i: int| 0 <= i < prior.len() && prior[i] == x;
                assert(self.assets@[i] == x);
            }
            assert(self.assets@.contains(asset)) by {
                assert(self.assets@[self.assets@.len() - 1] == asset);
            }
            assert(self@.assets =~= old(self)@.assets.insert(asset));
        }
        true
    }

    fn find_balance(&self, asset: u32, who: u64) -> (r: Option<usize>)
        ensures
            match r {
                Some(i) => i < self.balances@.len() && self.balances@[i as int].0 == (asset, who),
                None => forall|j: int|
                    0 <= j < self.balances@.len() ==> (#[trigger] self.balances@[j]).0 != (
                    asset,
                    who,
                ),
            },
    {
        let mut i: usize = 0;
        while i < self.balances.len()
            invariant
                i <= self.balances@.len(),
                forall|j: int| 0 <= j < i ==> (#[trigger] self.balances@[j]).0 != (asset, who),
            decreases self.balances@.len() - i,
        {
            let k = self.balances[i].0;
            if k.0 == asset && k.1 == who {
                return Some(i);
            }
            i = i + 1;
        }
        None
    }

    /// The balance `who` holds of `asset`; zero when no entry is recorded.
    pub fn balance(&self, asset: u32, who: u64) -> (r: u128)
        requires
            self.wf(),
        ensures
            r == bal_of(self@.balances, asset, who),
    {
        match self.find_balance(asset, who) {
            Some(i) => {
                proof {
                    lemma_assoc_map_index(self.balances@, i as int);
                }
                self.balances[i].1
            },
            None => {
                proof {
                    lemma_assoc_map_dom(self.balances@, (asset, who));
                }
                0
            },
        }
    }

    /// Records `amount` as the balance `who` holds of `asset`.
    fn set_balance(&mut self, asset: u32, who: u64, amount: u128)
        requires
            old(self).wf(),
        ensures
            final(self).wf(),
            final(self)@.assets == old(self)@.assets,
            final(self)@.balances == old(self)@.balances.insert((asset, who), amount),
    {
        match self.find_balance(asset, who) {
            Some(i) => {
                proof {
                    lemma_assoc_map_update(self.balances@, i as int, amount);
                }
                self.balances.set(i, ((asset, who), amount));
            },
            None => {
                proof {
                    lemma_assoc_map_push(self.balances@, (asset, who), amount);
                }
                self.balances.push(((asset, who), amount));
            },
        }
    }

    /// Adds `amount` to the balance `who` holds of `asset`.
    pub(crate) fn mint(&mut self, asset: u32, who: u64, amount: u128)
        requires
            old(self).wf(),
            bal_of(old(self)@.balances, asset, who) + amount <= u128::MAX,
        ensures
            final(self).wf(),
            final(self)@.assets == old(self)@.assets,
            final(self)@.balances == old(self)@.balances.insert(
                (asset, who),
                (bal_of(old(self)@.balances, asset, who) + amount) as u128,
            ),
    {
        let held = self.balance(asset, who);
        self.set_balance(asset, who, held + amount);
    }

    /// Removes `amount` from the balance `who` holds of `asset`.
    pub(crate) fn burn(&mut self, asset: u32, who: u64, amount: u128)
        requires
            old(self).wf(),
            amount <= bal_of(old(self)@.balances, asset, who),
        ensures
            final(self).wf(),
            final(self)@.assets == old(self)@.assets,
            final(self)@.balances == old(self)@.balances.insert(
                (asset, who),
                (bal_of(old(self)@.balances, asset, who) - amount) as u128,
            ),
    {
        let held = self.balance(asset, who);
        self.set_balance(asset, who, held - amount);
    }

    /// Moves `amount` of `asset` from `from` to `to`.
    pub(crate) fn transfer(&mut self, asset: u32, from: u64, to: u64, amount: u128)
        requires
            old(self).wf(),
            amount <= bal_of(old(self)@.balances, asset, from),
            from != to ==> bal_of(old(self)@.balances, asset, to) + amount <= u128::MAX,
        ensures
            final(self).wf(),
            final(self)@.assets == old(self)@.assets,
            final(self)@.balances == transfer_map(old(self)@.balances, asset, from, to, amount),
    {
        self.burn(asset, from, amount);
        let held = self.balance(asset, to);
        self.set_balance(asset, to, held + amount);
    }
}

} // verus!
