//! The lock registry: escrow records keyed by their 32-byte transaction
//! identifier, and the preimages revealed by successful unlocks.

use vstd::prelude::*;

use crate::store::{
    assoc_map, distinct_keys, lemma_assoc_map_dom, lemma_assoc_map_index, lemma_assoc_map_push,
    lemma_assoc_map_update, lemma_distinct_drop_last,
};
use crate::types::LockDetails;

verus! {

broadcast use vstd::array::group_array_axioms;

/// Whether two 32-byte identifiers hold the same bytes.
pub fn bytes32_eq(x: &[u8; 32], y: &[u8; 32]) -> (r: bool)
    ensures
        r == (*x == *y),
{
    let mut i: usize = 0;
    while i < 32
        invariant
            i <= 32,
            forall|j: int| 0 <= j < i ==> x@[j] == y@[j],
        decreases 32 - i,
    {
        if x[i] != y[i] {
            proof {
                assert(x@[i as int] != y@[i as int]);
            }
            return false;
        }
        i = i + 1;
    }
    proof {
        assert(*x =~= *y);
    }
    true
}

/// Escrow records keyed by transaction identifier.
pub struct LockStore {
    entries: Vec<([u8; 32], LockDetails)>,
}

impl View for LockStore {
    type V = Map<[u8; 32], LockDetails>;

    closed spec fn view(&self) -> Map<[u8; 32], LockDetails> {
        assoc_map(self.entries@)
    }
}

impl LockStore {
    /// No transaction identifier is recorded twice.
    pub closed spec fn wf(&self) -> bool {
        distinct_keys(self.entries@)
    }

    /// An empty store.
    pub fn new() -> (s: Self)
        ensures
            s.wf(),
            s@ == Map::<[u8; 32], LockDetails>::empty(),
    {
        let s = LockStore { entries: Vec::new() };
        proof {
            assert(s@ =~= Map::<[u8; 32], LockDetails>::empty());
        }
        s
    }

    fn find(&self, tx: &[u8; 32]) -> (r: Option<usize>)
        ensures
            match r {
                Some(i) => i < self.entries@.len() && self.entries@[i as int].0 == *tx,
                None => forall|j: int|
                    0 <= j < self.entries@.len() ==> (#[trigger] self.entries@[j]).0 != *tx,
            },
    {
        let mut i: usize = 0;
        while i < self.entries.len()
            invariant
                i <= self.entries@.len(),
                forall|j: int| 0 <= j < i ==> (#[trigger] self.entries@[j]).0 != *tx,
            decreases self.entries@.len() - i,
        {
            if bytes32_eq(&self.entries[i].0, tx) {
                return Some(i);
            }
            i = i + 1;
        }
        None
    }

    /// The escrow recorded under the identifier, if any.
    pub fn get(&self, tx: &[u8; 32]) -> (r: Option<LockDetails>)
        requires
            self.wf(),
        ensures
            match r {
                Some(d) => self@.contains_key(*tx) && d == self@[*tx],
                None => !self@.contains_key(*tx),
            },
    {
        match self.find(tx) {
            Some(i) => {
                proof {
                    lemma_assoc_map_index(self.entries@, i as int);
                }
                Some(self.entries[i].1)
            },
            None => {
                proof {
                    lemma_assoc_map_dom(self.entries@, *tx);
                }
                None
            },
        }
    }

    /// Whether an escrow is recorded under the identifier.
    pub fn contains(&self, tx: &[u8; 32]) -> (r: bool)
        requires
            self.wf(),
        ensures
            r == self@.contains_key(*tx),
    {
        self.get(tx).is_some()
    }

    /// Records `d` under the identifier, replacing any previous record.
    pub fn insert(&mut self, tx: &[u8; 32], d: LockDetails)
        requires
            old(self).wf(),
        ensures
            final(self).wf(),
            final(self)@ == old(self)@.insert(*tx, d),
    {
        match self.find(tx) {
            Some(i) => {
                proof {
                    lemma_assoc_map_update(self.entries@, i as int, d);
                }
                self.entries.set(i, (*tx, d));
            },
            None => {
                proof {
                    lemma_assoc_map_push(self.entries@, *tx, d);
                }
                self.entries.push((*tx, d));
            },
        }
    }
}

/// The contents of the secret store: each recorded preimage, as bytes.
pub open spec fn secrets_contents(entries: Seq<([u8; 32], Vec<u8>)>) -> Map<[u8; 32], Seq<u8>>
    decreases entries.len(),
{
    if entries.len() == 0 {
        Map::empty()
    } else {
        secrets_contents(entries.drop_last()).insert(entries.last().0, entries.last().1@)
    }
}

/// A key is in the contents exactly when some entry carries it.
proof fn lemma_secrets_dom(entries: Seq<([u8; 32], Vec<u8>)>, k: [u8; 32])
    ensures
        secrets_contents(entries).contains_key(k) <==> exists|i: int|
            0 <= i < entries.len() && (#[trigger] entries[i]).0 == k,
    decreases entries.len(),
{
    if entries.len() > 0 {
        let prefix = entries.drop_last();
        lemma_secrets_dom(prefix, k);
        if entries.last().0 == k {
            assert(entries[entries.len() - 1].0 == k);
        } else if exists|i: int| 0 <= i < prefix.len() && (#[trigger] prefix[i]).0 == k {
            let i = choose|i: int| 0 <= i < prefix.len() && (#[trigger] prefix[i]).0 == k;
            assert(entries[i].0 == k);
        } else if exists|i: int| 0 <= i < entries.len() && (#[trigger] entries[i]).0 == k {
            let i = choose|i: int| 0 <= i < entries.len() && (#[trigger] entries[i]).0 == k;
            assert(i < entries.len() - 1 ==> prefix[i].0 == k);
        }
    }
}

/// With distinct keys, entry `i` gives the bytes stored under its key.
proof fn lemma_secrets_index(entries: Seq<([u8; 32], Vec<u8>)>, i: int)
    requires
        distinct_keys(entries),
        0 <= i < entries.len(),
    ensures
        secrets_contents(entries).contains_key(entries[i].0),
        secrets_contents(entries)[entries[i].0] == entries[i].1@,
    decreases entries.len(),
{
    if i < entries.len() - 1 {
        lemma_distinct_drop_last(entries);
        lemma_secrets_index(entries.drop_last(), i);
        assert(entries[entries.len() - 1].0 != entries[i].0);
    }
}

/// Appending an entry under a fresh key inserts that key into the contents.
proof fn lemma_secrets_push(entries: Seq<([u8; 32], Vec<u8>)>, k: [u8; 32], v: Vec<u8>)
    requires
        distinct_keys(entries),
        forall|i: int| 0 <= i < entries.len() ==> (#[trigger] entries[i]).0 != k,
    ensures
        distinct_keys(entries.push((k, v))),
        secrets_contents(entries.push((k, v))) == secrets_contents(entries).insert(k, v@),
{
    let pushed = entries.push((k, v));
    assert forall|x: int, y: int| 0 <= x < y < pushed.len() implies (#[trigger] pushed[x]).0 != (
    #[trigger] pushed[y]).0 by {
        if y < entries.len() {
            assert(entries[x].0 != entries[y].0);
        } else {
            assert(entries[x].0 != k);
        }
    }
    assert(pushed.drop_last() =~= entries);
}

/// Preimages revealed by successful unlocks, keyed by transaction
/// identifier.
pub struct SecretStore {
    entries: Vec<([u8; 32], Vec<u8>)>,
}

impl View for SecretStore {
    type V = Map<[u8; 32], Seq<u8>>;

    closed spec fn view(&self) -> Map<[u8; 32], Seq<u8>> {
        secrets_contents(self.entries@)
    }
}

impl SecretStore {
    /// No transaction identifier is recorded twice.
    pub closed spec fn wf(&self) -> bool {
        distinct_keys(self.entries@)
    }

    /// An empty store.
    pub fn new() -> (s: Self)
        ensures
            s.wf(),
            s@ == Map::<[u8; 32], Seq<u8>>::empty(),
    {
        let s = SecretStore { entries: Vec::new() };
        proof {
            assert(s@ =~= Map::<[u8; 32], Seq<u8>>::empty());
        }
        s
    }

    fn find(&self, tx: &[u8; 32]) -> (r: Option<usize>)
        ensures
            match r {
                Some(i) => i < self.entries@.len() && self.entries@[i as int].0 == *tx,
                None => forall|j: int|
                    0 <= j < self.entries@.len() ==> (#[trigger] self.entries@[j]).0 != *tx,
            },
    {
        let mut i: usize = 0;
        while i < self.entries.len()
            invariant
                i <= self.entries@.len(),
                forall|j: int| 0 <= j < i ==> (#[trigger] self.entries@[j]).0 != *tx,
            decreases self.entries@.len() - i,
        {
            if bytes32_eq(&self.entries[i].0, tx) {
                return Some(i);
            }
            i = i + 1;
        }
        None
    }

    /// The preimage recorded under the identifier, if any.
    pub fn get(&self, tx: &[u8; 32]) -> (r: Option<&Vec<u8>>)
        requires
            self.wf(),
        ensures
            match r {
                Some(v) => self@.contains_key(*tx) && v@ == self@[*tx],
                None => !self@.contains_key(*tx),
            },
    {
        match self.find(tx) {
            Some(i) => {
                proof {
                    lemma_secrets_index(self.entries@, i as int);
                }
                Some(&self.entries[i].1)
            },
            None => {
                proof {
                    lemma_secrets_dom(self.entries@, *tx);
                }
                None
            },
        }
    }

    /// Records the preimage revealed for a fresh identifier.
    pub(crate) fn insert_fresh(&mut self, tx: &[u8; 32], v: Vec<u8>)
        requires
            old(self).wf(),
            !old(self)@.contains_key(*tx),
        ensures
            final(self).wf(),
            final(self)@ == old(self)@.insert(*tx, v@),
    {
        proof {
            lemma_secrets_dom(self.entries@, *tx);
            lemma_secrets_push(self.entries@, *tx, v);
        }
        self.entries.push((*tx, v));
    }
}

} // verus!
