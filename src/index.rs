//! Small keyed stores: a map from addresses to values, and an index from
//! keys to the pool ids filed under them in the order they were filed.
use crate::address::Address;
use crate::uint::U256;
use vstd::prelude::*;

verus! {

/// A map from addresses to copyable values.
pub struct AddressMap<V> {
    entries: Vec<(Address, V)>,
    contents: Ghost<Map<Address, V>>,
}

impl<V: Copy> AddressMap<V> {
    /// The map's contents.
    pub closed spec fn view(&self) -> Map<Address, V> {
        self.contents@
    }

    /// Every entry is in the map, every key has one entry, and no key has two.
    pub closed spec fn wf(&self) -> bool {
        &&& forall|i: int|
            0 <= i < self.entries@.len() ==> self.contents@.contains_key(
                (#[trigger] self.entries@[i]).0,
            ) && self.contents@[self.entries@[i].0] == self.entries@[i].1
        &&& forall|k: Address|
            #[trigger] self.contents@.contains_key(k) ==> exists|i: int|
                0 <= i < self.entries@.len() && (#[trigger] self.entries@[i]).0 == k
        &&& forall|i: int, j: int|
            0 <= i < self.entries@.len() && 0 <= j < self.entries@.len() && i != j ==> (
            #[trigger] self.entries@[i]).0 != (#[trigger] self.entries@[j]).0
    }

    /// An empty map.
    pub fn new() -> (r: Self)
        ensures
            r.wf(),
            r.view() == Map::<Address, V>::empty(),
    {
        AddressMap { entries: Vec::new(), contents: Ghost(Map::empty()) }
    }

    fn position(&self, key: &Address) -> (r: Option<usize>)
        requires
            self.wf(),
        ensures
            r matches Some(i) ==> i < self.entries@.len() && self.entries@[i as int].0 == *key,
            r is None ==> !self.view().contains_key(*key),
    {
        let mut i: usize = 0;
        while i < self.entries.len()
            invariant
                self.wf(),
                i <= self.entries@.len(),
                forall|j: int| 0 <= j < i ==> (#[trigger] self.entries@[j]).0 != *key,
            decreases self.entries@.len() - i,
        {
            if self.entries[i].0 == *key {
                return Some(i);
            }
            i = i + 1;
        }
        None
    }

    /// The value held for `key`, if any.
    pub fn get(&self, key: &Address) -> (r: Option<V>)
        requires
            self.wf(),
        ensures
            r == (if self.view().contains_key(*key) {
                Some(self.view()[*key])
            } else {
                None
            }),
    {
        match self.position(key) {
            Some(i) => Some(self.entries[i].1),
            None => None,
        }
    }

    /// Sets the value held for `key`.
    pub fn insert(&mut self, key: Address, value: V)
        requires
            old(self).wf(),
        ensures
            final(self).wf(),
            final(self).view() == old(self).view().insert(key, value),
    {
        let ghost before = self.contents@;
        let ghost mut at: int = 0;
        match self.position(&key) {
            Some(i) => {
                self.entries.set(i, (key, value));
                proof {
                    at = i as int;
                }
            },
            None => {
                self.entries.push((key, value));
                proof {
                    at = self.entries@.len() - 1;
                }
            },
        }
        self.contents = Ghost(before.insert(key, value));
        assert(self.entries@[at].0 == key);
        assert forall|k: Address| #[trigger] self.contents@.contains_key(k) implies exists|i: int|
            0 <= i < self.entries@.len() && (#[trigger] self.entries@[i]).0 == k by {
            if k != key {
                let i = choose|i: int| 0 <= i < old(self).entries@.len() && (#[trigger] old(
                    self,
                ).entries@[i]).0 == k;
                assert(self.entries@[i].0 == k);
            } else {
                assert(self.entries@[at].0 == k);
            }
        }
    }
}

/// A key under which pool ids are filed.
pub trait IndexKey: Copy + Sized {
    /// Whether two keys are the same key.
    fn same_key(&self, other: &Self) -> (r: bool)
        ensures
            r == (*self == *other);
}

impl IndexKey for U256 {
    fn same_key(&self, other: &Self) -> (r: bool) {
        *self == *other
    }
}

/// The ids filed under `key` in a list of filings, in filing order.
pub open spec fn ids_for<K>(filings: Seq<(K, u64)>, key: K) -> Seq<u64>
    decreases filings.len(),
{
    if filings.len() == 0 {
        Seq::empty()
    } else {
        let rest = ids_for(filings.drop_last(), key);
        if filings.last().0 == key {
            rest.push(filings.last().1)
        } else {
            rest
        }
    }
}

/// Pool ids filed under keys, each key's ids in the order they were filed.
pub struct IdIndex<K> {
    filings: Vec<(K, u64)>,
}

impl<K: IndexKey> IdIndex<K> {
    /// The ids filed under `key`, in filing order.
    pub closed spec fn ids(&self, key: K) -> Seq<u64> {
        ids_for(self.filings@, key)
    }

    /// An empty index.
    pub fn new() -> (r: Self)
        ensures
            forall|k: K| #[trigger] r.ids(k) == Seq::<u64>::empty(),
    {
        IdIndex { filings: Vec::new() }
    }

    /// Files `id` under `key`.
    pub fn file(&mut self, key: K, id: u64)
        ensures
            final(self).ids(key) == old(self).ids(key).push(id),
            forall|k: K| k != key ==> #[trigger] final(self).ids(k) == old(self).ids(k),
    {
        let ghost before = self.filings@;
        self.filings.push((key, id));
        assert(self.filings@.drop_last() =~= before);
    }

    /// The ids filed under `key`, in filing order.
    pub fn lookup(&self, key: &K) -> (r: Vec<u64>)
        ensures
            r@ == self.ids(*key),
    {
        let mut v: Vec<u64> = Vec::new();
        let mut i: usize = 0;
        while i < self.filings.len()
            invariant
                i <= self.filings@.len(),
                v@ == ids_for(self.filings@.subrange(0, i as int), *key),
            decreases self.filings@.len() - i,
        {
            let ghost prefix = self.filings@.subrange(0, i as int);
            let (k, id) = self.filings[i];
            if k.same_key(key) {
                v.push(id);
            }
            i = i + 1;
            assert(self.filings@.subrange(0, i as int).drop_last() =~= prefix);
        }
        assert(self.filings@.subrange(0, i as int) =~= self.filings@);
        v
    }
}

} // verus!
