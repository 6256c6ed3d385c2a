use vstd::prelude::*;

use crate::contract::types::{bytes32_eq, Address};

verus! {

/// A key of the registry's persistent storage tables.
pub trait StorageKey: Sized + Copy {
    /// Whether two keys are the same key.
    fn same_key(&self, other: &Self) -> (r: bool)
        ensures
            r == (*self == *other),
    ;
}

impl StorageKey for [u8; 32] {
    fn same_key(&self, other: &Self) -> (r: bool) {
        bytes32_eq(self, other)
    }
}

impl StorageKey for Address {
    fn same_key(&self, other: &Self) -> (r: bool) {
        self.same_as(other)
    }
}

/// Whether `v` holds `k`.
pub fn seq_contains<K: StorageKey>(v: &Vec<K>, k: &K) -> (r: bool)
    ensures
        r == v@.contains(*k),
{
    let mut i: usize = 0;
    while i < v.len()
        invariant
            i <= v@.len(),
            forall|j: int| 0 <= j < i ==> v@[j] != *k,
        decreases v@.len() - i,
    {
        if v[i].same_key(k) {
            assert(v@[i as int] == *k);
            return true;
        }
        i = i + 1;
    }
    false
}

/// Whether no item of `v` occurs twice.
pub fn all_distinct<K: StorageKey>(v: &Vec<K>) -> (r: bool)
    ensures
        r == v@.no_duplicates(),
{
    let mut i: usize = 0;
    while i < v.len()
        invariant
            i <= v@.len(),
            forall|a: int, b: int| 0 <= a < b < v@.len() && a < i ==> v@[a] != v@[b],
        decreases v@.len() - i,
    {
        let mut j: usize = i + 1;
        while j < v.len()
            invariant
                i < v@.len(),
                i + 1 <= j <= v@.len(),
                forall|a: int, b: int| 0 <= a < b < v@.len() && a < i ==> v@[a] != v@[b],
                forall|b: int| i < b < j ==> v@[i as int] != v@[b],
            decreases v@.len() - j,
        {
            if v[i].same_key(&v[j]) {
                assert(v@[i as int] == v@[j as int]);
                return false;
            }
            j = j + 1;
        }
        i = i + 1;
    }
    true
}

/// One family of persistent entries: a finite map from keys to values,
/// kept as a list of entries with distinct keys.
#[verifier::reject_recursive_types(K)]
pub struct Table<K, V> {
    entries: Vec<(K, V)>,
    contents: Ghost<Map<K, V>>,
}

impl<K: StorageKey, V> View for Table<K, V> {
    type V = Map<K, V>;

    closed spec fn view(&self) -> Map<K, V> {
        self.contents@
    }
}

impl<K: StorageKey, V> Table<K, V> {
    /// The entries have distinct keys, and they are exactly the map's.
    pub closed spec fn wf(&self) -> bool {
        &&& forall|i: int, j: int|
            0 <= i < j < self.entries@.len() ==> #[trigger] self.entries@[i].0
                != #[trigger] self.entries@[j].0
        &&& forall|k: K|
            #[trigger] self.contents@.contains_key(k) ==> exists|i: int|
                0 <= i < self.entries@.len() && #[trigger] self.entries@[i].0 == k
        &&& forall|i: int|
            0 <= i < self.entries@.len() ==> self.contents@.contains_key(
                #[trigger] self.entries@[i].0,
            ) && self.contents@[self.entries@[i].0] == self.entries@[i].1
    }

    /// The keys, in the order the entries are kept.
    pub closed spec fn keys(&self) -> Seq<K> {
        self.entries@.map_values(|e: (K, V)| e.0)
    }

    /// The keys are distinct and are exactly the map's.
    pub proof fn lemma_keys(&self)
        requires
            self.wf(),
        ensures
            self.keys().no_duplicates(),
            self.keys().len() == self@.dom().len(),
            forall|k: K| #[trigger] self@.contains_key(k) <==> self.keys().contains(k),
    {
        assert forall|k: K| #[trigger] self@.contains_key(k) <==> self.keys().contains(k) by {
            if self@.contains_key(k) {
                let i = choose|i: int| 0 <= i < self.entries@.len() && #[trigger] self.entries@[i].0 == k;
                assert(self.keys()[i] == k);
            }
            if self.keys().contains(k) {
                let i = choose|i: int| 0 <= i < self.keys().len() && self.keys()[i] == k;
                assert(self.entries@[i].0 == k);
            }
        }
        assert(self@.dom() =~= self.keys().to_set());
        self.keys().unique_seq_to_set();
    }

    /// The number of entries.
    pub fn len(&self) -> (r: usize)
        ensures
            r == self.keys().len(),
    {
        self.entries.len()
    }

    /// The entry at position `i`.
    pub fn entry_at(&self, i: usize) -> (r: (&K, &V))
        requires
            self.wf(),
            i < self.keys().len(),
        ensures
            *r.0 == self.keys()[i as int],
            self@.contains_key(*r.0),
            *r.1 == self@[*r.0],
    {
        let e = &self.entries[i];
        (&e.0, &e.1)
    }

    /// An empty table.
    pub fn new() -> (r: Self)
        ensures
            r.wf(),
            r@ == Map::<K, V>::empty(),
    {
        Table { entries: Vec::new(), contents: Ghost(Map::empty()) }
    }

    /// The position of the entry for `k`, if there is one.
    fn find(&self, k: &K) -> (r: Option<usize>)
        requires
            self.wf(),
        ensures
            match r {
                Some(i) => i < self.entries@.len() && self.entries@[i as int].0 == *k,
                None => !self@.contains_key(*k),
            },
    {
        let mut i: usize = 0;
        while i < self.entries.len()
            invariant
                self.wf(),
                i <= self.entries@.len(),
                forall|j: int| 0 <= j < i ==> self.entries@[j].0 != *k,
            decreases self.entries@.len() - i,
        {
            if self.entries[i].0.same_key(k) {
                return Some(i);
            }
            i = i + 1;
        }
        None
    }

    /// Whether `k` has an entry.
    pub fn contains_key(&self, k: &K) -> (r: bool)
        requires
            self.wf(),
        ensures
            r == self@.contains_key(*k),
    {
        match self.find(k) {
            Some(_) => true,
            None => false,
        }
    }

    /// The value stored under `k`, if any.
    pub fn get(&self, k: &K) -> (r: Option<&V>)
        requires
            self.wf(),
        ensures
            match r {
                Some(v) => self@.contains_key(*k) && *v == self@[*k],
                None => !self@.contains_key(*k),
            },
    {
        match self.find(k) {
            Some(i) => Some(&self.entries[i].1),
            None => None,
        }
    }

    /// Stores `v` under `k`, replacing any previous value.
    pub fn insert(&mut self, k: K, v: V)
        requires
            old(self).wf(),
        ensures
            final(self).wf(),
            final(self)@ == old(self)@.insert(k, v),
    {
        let ghost new_contents = self.contents@.insert(k, v);
        let ghost mut at: int = 0;
        match self.find(&k) {
            Some(i) => {
                self.entries.set(i, (k, v));
                proof {
                    at = i as int;
                }
            },
            None => {
                self.entries.push((k, v));
                proof {
                    at = self.entries@.len() - 1;
                }
            },
        }
        self.contents = Ghost(new_contents);
        assert(self.entries@[at].0 == k);
        assert forall|key: K| #[trigger] self.contents@.contains_key(key) implies exists|i: int|
            0 <= i < self.entries@.len() && #[trigger] self.entries@[i].0 == key by {
            if key != k {
                let j = choose|j: int|
                    0 <= j < old(self).entries@.len() && #[trigger] old(self).entries@[j].0 == key;
                assert(self.entries@[j].0 == key);
            } else {
                assert(self.entries@[at].0 == key);
            }
        }
    }
}

} // verus!
