//! The pool registry: a keyed store of directed reserve entries and a keyed
//! store of liquidity-pool records. Pure data stores; no validation lives
//! here.

use vstd::prelude::*;

use crate::store::{
    assoc_map, distinct_keys, lemma_assoc_map_dom, lemma_assoc_map_index, lemma_assoc_map_push,
    lemma_assoc_map_update,
};
use crate::types::{LiquidityPoolDetails, ReserveDetails};

verus! {

/// Directed reserve entries, keyed by the ordered pair of asset identifiers.
pub struct ReserveStore {
    entries: Vec<((u32, u32), ReserveDetails)>,
}

impl View for ReserveStore {
    type V = Map<(u32, u32), ReserveDetails>;

    closed spec fn view(&self) -> Map<(u32, u32), ReserveDetails> {
        assoc_map(self.entries@)
    }
}

impl ReserveStore {
    /// No pair is recorded twice.
    pub closed spec fn wf(&self) -> bool {
        distinct_keys(self.entries@)
    }

    /// An empty store.
    pub fn new() -> (s: Self)
        ensures
            s.wf(),
            s@ == Map::<(u32, u32), ReserveDetails>::empty(),
    {
        let s = ReserveStore { entries: Vec::new() };
        proof {
            assert(s@ =~= Map::<(u32, u32), ReserveDetails>::empty());
        }
        s
    }

    fn find(&self, a: u32, b: u32) -> (r: Option<usize>)
        ensures
            match r {
                Some(i) => i < self.entries@.len() && self.entries@[i as int].0 == (a, b),
                None => forall|j: int|
                    0 <= j < self.entries@.len() ==> (#[trigger] self.entries@[j]).0 != (a, b),
            },
    {
        let mut i: usize = 0;
        while i < self.entries.len()
            invariant
                i <= self.entries@.len(),
                forall|j: int| 0 <= j < i ==> (#[trigger] self.entries@[j]).0 != (a, b),
            decreases self.entries@.len() - i,
        {
            let k = self.entries[i].0;
            if k.0 == a && k.1 == b {
                return Some(i);
            }
            i = i + 1;
        }
        None
    }

    /// The reserve entry recorded under the directed pair, if any.
    pub fn get(&self, a: u32, b: u32) -> (r: Option<ReserveDetails>)
        requires
            self.wf(),
        ensures
            match r {
                Some(d) => self@.contains_key((a, b)) && d == self@[(a, b)],
                None => !self@.contains_key((a, b)),
            },
    {
        match self.find(a, b) {
            Some(i) => {
                proof {
                    lemma_assoc_map_index(self.entries@, i as int);
                }
                Some(self.entries[i].1)
            },
            None => {
                proof {
                    lemma_assoc_map_dom(self.entries@, (a, b));
                }
                None
            },
        }
    }

    /// Whether the directed pair is recorded.
    pub fn contains(&self, a: u32, b: u32) -> (r: bool)
        requires
            self.wf(),
        ensures
            r == self@.contains_key((a, b)),
    {
        self.get(a, b).is_some()
    }

    /// Records `d` under the directed pair, replacing any previous entry.
    pub fn insert(&mut self, a: u32, b: u32, d: ReserveDetails)
        requires
            old(self).wf(),
        ensures
            final(self).wf(),
            final(self)@ == old(self)@.insert((a, b), d),
    {
        match self.find(a, b) {
            Some(i) => {
                proof {
                    lemma_assoc_map_update(self.entries@, i as int, d);
                }
                self.entries.set(i, ((a, b), d));
            },
            None => {
                proof {
                    lemma_assoc_map_push(self.entries@, (a, b), d);
                }
                self.entries.push(((a, b), d));
            },
        }
    }
}

/// Liquidity-pool records, keyed by the pair's LP asset identifier.
pub struct PoolStore {
    entries: Vec<(u32, LiquidityPoolDetails)>,
}

impl View for PoolStore {
    type V = Map<u32, LiquidityPoolDetails>;

    closed spec fn view(&self) -> Map<u32, LiquidityPoolDetails> {
        assoc_map(self.entries@)
    }
}

impl PoolStore {
    /// No LP asset is recorded twice.
    pub closed spec fn wf(&self) -> bool {
        distinct_keys(self.entries@)
    }

    /// An empty store.
    pub fn new() -> (s: Self)
        ensures
            s.wf(),
            s@ == Map::<u32, LiquidityPoolDetails>::empty(),
    {
        let s = PoolStore { entries: Vec::new() };
        proof {
            assert(s@ =~= Map::<u32, LiquidityPoolDetails>::empty());
        }
        s
    }

    fn find(&self, lp: u32) -> (r: Option<usize>)
        ensures
            match r {
                Some(i) => i < self.entries@.len() && self.entries@[i as int].0 == lp,
                None => forall|j: int|
                    0 <= j < self.entries@.len() ==> (#[trigger] self.entries@[j]).0 != lp,
            },
    {
        let mut i: usize = 0;
        while i < self.entries.len()
            invariant
                i <= self.entries@.len(),
                forall|j: int| 0 <= j < i ==> (#[trigger] self.entries@[j]).0 != lp,
            decreases self.entries@.len() - i,
        {
            if self.entries[i].0 == lp {
                return Some(i);
            }
            i = i + 1;
        }
        None
    }

    /// The pool recorded under the LP asset, if any.
    pub fn get(&self, lp: u32) -> (r: Option<LiquidityPoolDetails>)
        requires
            self.wf(),
        ensures
            match r {
                Some(d) => self@.contains_key(lp) && d == self@[lp],
                None => !self@.contains_key(lp),
            },
    {
        match self.find(lp) {
            Some(i) => {
                proof {
                    lemma_assoc_map_index(self.entries@, i as int);
                }
                Some(self.entries[i].1)
            },
            None => {
                proof {
                    lemma_assoc_map_dom(self.entries@, lp);
                }
                None
            },
        }
    }

    /// Whether a pool is recorded under the LP asset.
    pub fn contains(&self, lp: u32) -> (r: bool)
        requires
            self.wf(),
        ensures
            r == self@.contains_key(lp),
    {
        self.get(lp).is_some()
    }

    /// Records `d` under the LP asset, replacing any previous entry.
    pub fn insert(&mut self, lp: u32, d: LiquidityPoolDetails)
        requires
            old(self).wf(),
        ensures
            final(self).wf(),
            final(self)@ == old(self)@.insert(lp, d),
    {
        match self.find(lp) {
            Some(i) => {
                proof {
                    lemma_assoc_map_update(self.entries@, i as int, d);
                }
                self.entries.set(i, (lp, d));
            },
            None => {
                proof {
                    lemma_assoc_map_push(self.entries@, lp, d);
                }
                self.entries.push((lp, d));
            },
        }
    }
}

} // verus!
