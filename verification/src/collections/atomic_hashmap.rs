//! A hash map with one array of collision chains, which doubles when the chains
//! hold two entries each on average.
use crate::collections::hasher::{FnvKeys, KeyHasher};
use crate::collections::table;
use crate::collections::table::{Iter, Table};
use vstd::prelude::*;

verus! {

/// The number of chains of a new map.
pub const DEFAULT_BUCKETS: usize = 128;

/// The number of chains after an insertion that leaves `len` entries in
/// `buckets` chains. Chains that cannot be doubled stay as they are.
pub open spec fn resized(len: nat, buckets: usize) -> usize {
    if len >= 2 * buckets && buckets <= usize::MAX / 2 {
        (2 * buckets) as usize
    } else {
        buckets
    }
}

/// A hash map, which its handles share.
pub struct AtomicHashMap<K, V, S> {
    table: Table<K, V>,
    len: usize,
    ref_count: usize,
    hasher: S,
}

/// What a `Debug` print of the map shows.
#[derive(Debug, Clone, Copy, PartialEq, Eq, Structural)]
pub struct BucketInfo {
    pub len: usize,
    pub buckets: usize,
}

impl<K, V, S: KeyHasher<K>> View for AtomicHashMap<K, V, S> {
    type V = Map<K, V>;

    closed spec fn view(&self) -> Map<K, V> {
        self.table@
    }
}

impl<K, V, S: KeyHasher<K>> AtomicHashMap<K, V, S> {
    /// The chains are in order, the counter counts the entries, and the chains
    /// hold less than two entries each on average unless they cannot be doubled.
    pub closed spec fn wf(&self) -> bool {
        &&& self.table.wf(self.hasher)
        &&& self@.dom().finite()
        &&& self.len == self@.len()
        &&& self.len == 0 || self.len < 2 * self.table.spec_size() || self.table.spec_size()
            > usize::MAX / 2
    }

    /// How keys are hashed.
    pub closed spec fn spec_hasher(&self) -> S {
        self.hasher
    }

    /// The number of chains.
    pub closed spec fn buckets(&self) -> usize {
        self.table.spec_size()
    }

    /// Handles to the map.
    pub closed spec fn refs(&self) -> nat {
        self.ref_count as nat
    }

    /// The entries in the order of their chains.
    pub closed spec fn walk(&self) -> Seq<(K, V)> {
        self.table.walk()
    }

    /// The map shares its hasher and its handles with `after`.
    pub open spec fn same_sharing(&self, after: &Self) -> bool {
        &&& after.spec_hasher() == self.spec_hasher()
        &&& after.refs() == self.refs()
    }

    /// A map with `bucket_count` chains. One without chains can hold no key.
    pub fn with_hasher_and_capacity(hasher: S, bucket_count: usize) -> (map: Self)
        ensures
            map.wf(),
            map@ == Map::<K, V>::empty(),
            map.spec_hasher() == hasher,
            map.refs() == 1,
            map.buckets() == bucket_count,
    {
        let table: Table<K, V> = Table::new(&hasher, bucket_count);
        AtomicHashMap { table, len: 0, ref_count: 1, hasher }
    }

    /// How keys are hashed.
    pub fn hasher(&self) -> (hasher: &S)
        ensures
            *hasher == self.spec_hasher(),
    {
        &self.hasher
    }

    /// The number of entries.
    pub fn len(&self) -> (len: usize)
        requires
            self.wf(),
        ensures
            len == self@.len(),
    {
        self.len
    }

    /// One more handle shares the map.
    pub fn clone_ref(&mut self)
        requires
            old(self).wf(),
            old(self).refs() < usize::MAX,
        ensures
            final(self).wf(),
            final(self)@ == old(self)@,
            final(self).spec_hasher() == old(self).spec_hasher(),
            final(self).buckets() == old(self).buckets(),
            final(self).refs() == old(self).refs() + 1,
    {
        self.ref_count = self.ref_count + 1;
    }

    /// Gives one handle up; tells whether it was the last one, so that the map
    /// is to be freed with its entries.
    pub fn drop_ref(&mut self) -> (last: bool)
        requires
            old(self).wf(),
            old(self).refs() > 0,
        ensures
            final(self).wf(),
            final(self)@ == old(self)@,
            final(self).spec_hasher() == old(self).spec_hasher(),
            final(self).buckets() == old(self).buckets(),
            final(self).refs() == old(self).refs() - 1,
            last == (old(self).refs() == 1),
    {
        self.ref_count = self.ref_count - 1;
        self.ref_count == 0
    }

    /// A walk over the entries, which meets each of them once.
    pub fn iter(&self) -> (iter: Iter<'_, K, V>)
        requires
            self.wf(),
        ensures
            iter.wf(),
            iter.remaining() == self.walk(),
            table::enumerates(self@, self.walk()),
    {
        proof {
            self.table.lemma_walk_enumerates(self.hasher);
        }
        Iter::new(&self.table)
    }

    /// What a `Debug` print of the map shows.
    pub fn info(&self) -> (info: BucketInfo)
        requires
            self.wf(),
        ensures
            info.len == self@.len(),
            info.buckets == self.buckets(),
    {
        BucketInfo { len: self.len, buckets: self.table.size() }
    }
}

impl<K: PartialEq, V, S: KeyHasher<K>> AtomicHashMap<K, V, S> {
    /// Gives `key` the value `value`, in place of the one that it had. A new key
    /// may make the chains double.
    pub fn insert(&mut self, key: K, value: V)
        requires
            vstd::laws_eq::obeys_concrete_eq::<K>(),
            old(self).wf(),
            old(self).buckets() > 0,
            old(self)@.len() < usize::MAX,
        ensures
            final(self).wf(),
            old(self).same_sharing(final(self)),
            final(self)@ == old(self)@.insert(key, value),
            final(self).buckets() == (if old(self)@.contains_key(key) {
                old(self).buckets()
            } else {
                resized(old(self)@.len() + 1, old(self).buckets())
            }),
            old(self)@.contains_key(key) ==> table::replaced_in_place(
                old(self).walk(),
                final(self).walk(),
                key,
                value,
            ),
            !old(self)@.contains_key(key) && final(self).buckets() == old(self).buckets()
                ==> table::heads_its_chain(
                old(self).walk(),
                final(self).walk(),
                (key, value),
                old(self).spec_hasher(),
                old(self).buckets(),
            ),
            final(self).buckets() != old(self).buckets() ==> exists|walk: Seq<(K, V)>|
                #[trigger] table::heads_its_chain(
                    old(self).walk(),
                    walk,
                    (key, value),
                    old(self).spec_hasher(),
                    old(self).buckets(),
                ) && table::moved_in_order(
                    walk,
                    final(self).walk(),
                    old(self).spec_hasher(),
                    final(self).buckets(),
                ),
    {
        if self.table.insert(&self.hasher, key, value).is_some() {
            return ;
        }
        self.len = self.len + 1;
        assert(table::heads_its_chain(
            old(self).walk(),
            self.walk(),
            (key, value),
            old(self).spec_hasher(),
            old(self).buckets(),
        ));
        self.maybe_resize();
    }

    /// The chains are in order and the counter counts the entries, of which
    /// there may be one more than [`AtomicHashMap::wf`] admits.
    spec fn counted(&self) -> bool {
        &&& self.table.wf(self.hasher)
        &&& self.table.spec_size() > 0
        &&& self@.dom().finite()
        &&& self.len == self@.len()
        &&& self.len <= 2 * self.table.spec_size() || self.table.spec_size() > usize::MAX / 2
    }

    /// Doubles the chains if they hold two entries each on average.
    fn maybe_resize(&mut self)
        requires
            old(self).counted(),
        ensures
            final(self).wf(),
            old(self).same_sharing(final(self)),
            final(self)@ == old(self)@,
            final(self).buckets() == resized(old(self)@.len(), old(self).buckets()),
            final(self).buckets() == old(self).buckets() ==> final(self).walk()
                == old(self).walk(),
            final(self).buckets() != old(self).buckets() ==> table::moved_in_order(
                old(self).walk(),
                final(self).walk(),
                old(self).spec_hasher(),
                final(self).buckets(),
            ),
    {
        let cap: usize = self.table.size();
        if (self.len as u128) >= (cap as u128) * 2 {
            match cap.checked_mul(2) {
                Some(new_cap) => {
                    self.resize(new_cap);
                },
                None => {},
            }
        }
    }

    /// Moves every entry into `new_cap` new chains.
    fn resize(&mut self, new_cap: usize)
        requires
            old(self).counted(),
            new_cap == 2 * old(self).buckets(),
        ensures
            final(self).wf(),
            old(self).same_sharing(final(self)),
            final(self)@ == old(self)@,
            final(self).buckets() == new_cap,
            table::moved_in_order(
                old(self).walk(),
                final(self).walk(),
                old(self).spec_hasher(),
                new_cap,
            ),
    {
        self.table.rehash(&self.hasher, new_cap);
    }

    /// The value of `key`.
    pub fn get(&self, key: &K) -> (value: Option<&V>)
        requires
            vstd::laws_eq::obeys_concrete_eq::<K>(),
            self.wf(),
            self.buckets() > 0,
        ensures
            value is Some == self@.contains_key(*key),
            value matches Some(v) ==> *v == self@[*key],
    {
        self.table.get(&self.hasher, key)
    }

    /// Access to the value of `key`.
    pub fn get_mut(&mut self, key: &K) -> (value: Option<&mut V>)
        requires
            vstd::laws_eq::obeys_concrete_eq::<K>(),
            old(self).wf(),
            old(self).buckets() > 0,
        ensures
            final(self).wf(),
            old(self).same_sharing(final(self)),
            final(self).buckets() == old(self).buckets(),
            value is Some == old(self)@.contains_key(*key),
            value is None ==> final(self)@ == old(self)@,
            value matches Some(v) ==> *v == old(self)@[*key] && final(self)@ == old(self)@.insert(
                *key,
                *final(v),
            ),
            value is None ==> final(self).walk() == old(self).walk(),
            value matches Some(v) ==> table::replaced_in_place(
                old(self).walk(),
                final(self).walk(),
                *key,
                *final(v),
            ),
    {
        self.table.get_mut(&self.hasher, key)
    }

    /// Removes `key`; returns the value that it had.
    pub fn remove(&mut self, key: &K) -> (had: Option<V>)
        requires
            vstd::laws_eq::obeys_concrete_eq::<K>(),
            old(self).wf(),
            old(self).buckets() > 0,
        ensures
            final(self).wf(),
            old(self).same_sharing(final(self)),
            final(self).buckets() == old(self).buckets(),
            final(self)@ == old(self)@.remove(*key),
            had == (if old(self)@.contains_key(*key) {
                Some(old(self)@[*key])
            } else {
                None
            }),
            old(self)@.contains_key(*key) ==> table::taken_out(
                old(self).walk(),
                final(self).walk(),
                *key,
            ),
            !old(self)@.contains_key(*key) ==> final(self).walk() == old(self).walk(),
    {
        let had: Option<V> = self.table.remove(&self.hasher, key);
        if had.is_some() {
            assert(old(self)@.dom().remove(*key).len() + 1 == old(self)@.len());
            self.len = self.len - 1;
        } else {
            assert(self@ =~= old(self)@);
        }
        had
    }
}

impl<V> AtomicHashMap<u64, V, FnvKeys> {
    /// A map with the default number of chains.
    pub fn new() -> (map: Self)
        ensures
            map.wf(),
            map@ == Map::<u64, V>::empty(),
            map.spec_hasher() == FnvKeys,
            map.refs() == 1,
            map.buckets() == DEFAULT_BUCKETS,
    {
        Self::with_capacity(DEFAULT_BUCKETS)
    }

    /// A map with `bucket_count` chains.
    pub fn with_capacity(bucket_count: usize) -> (map: Self)
        ensures
            map.wf(),
            map@ == Map::<u64, V>::empty(),
            map.spec_hasher() == FnvKeys,
            map.refs() == 1,
            map.buckets() == bucket_count,
    {
        Self::with_hasher_and_capacity(FnvKeys, bucket_count)
    }
}

/// The chains hold less than two entries each on average, unless they cannot be
/// doubled.
pub proof fn law_load_stays_bounded<K, V, S: KeyHasher<K>>(map: AtomicHashMap<K, V, S>)
    requires
        map.wf(),
    ensures
        map@.len() == 0 || map@.len() < 2 * map.buckets() || map.buckets() > usize::MAX / 2,
{
}

/// A read after a write of the same key gives back what was written; the write
/// leaves every other key as it is.
pub proof fn law_reads_give_back_writes<K, V, S: KeyHasher<K>>(
    before: AtomicHashMap<K, V, S>,
    after: AtomicHashMap<K, V, S>,
    key: K,
    value: V,
    other: K,
)
    requires
        before.wf(),
        after@ == before@.insert(key, value),
    ensures
        after@.contains_key(key),
        after@[key] == value,
        other != key ==> after@.contains_key(other) == before@.contains_key(other),
        other != key && before@.contains_key(other) ==> after@[other] == before@[other],
        after@.len() == before@.len() + (if before@.contains_key(key) {
            0int
        } else {
            1
        }),
{
}

/// Removing a key that was not there before the write undoes the write.
pub proof fn law_remove_undoes_insert<K, V, S: KeyHasher<K>>(
    before: AtomicHashMap<K, V, S>,
    after: AtomicHashMap<K, V, S>,
    key: K,
    value: V,
)
    requires
        before.wf(),
        !before@.contains_key(key),
        after@ == before@.insert(key, value).remove(key),
    ensures
        !after@.contains_key(key),
        after@ == before@,
{
    assert(after@ =~= before@);
}

/// Chains that hold less than two entries each on average stay as they are; once
/// they hold two each they double, unless there cannot be so many.
pub proof fn law_chains_double_at_two_entries_each(len: nat, buckets: usize)
    ensures
        len < 2 * buckets ==> resized(len, buckets) == buckets,
        len >= 2 * buckets && 2 * buckets <= usize::MAX ==> resized(len, buckets) == 2 * buckets,
        len >= 2 * buckets && 2 * buckets > usize::MAX ==> resized(len, buckets) == buckets,
{
}

/// What only the entries are said to change keeps the hasher and the handles.
pub proof fn law_sharing_is_kept<K, V, S: KeyHasher<K>>(
    before: AtomicHashMap<K, V, S>,
    after: AtomicHashMap<K, V, S>,
)
    requires
        before.same_sharing(&after),
    ensures
        after.spec_hasher() == before.spec_hasher(),
        after.refs() == before.refs(),
{
}

/// A walk over the map meets the chains in their order.
pub proof fn law_walk_goes_by_chain<K, V, S: KeyHasher<K>>(
    map: AtomicHashMap<K, V, S>,
    p: int,
    q: int,
)
    requires
        map.wf(),
        0 <= p < q < map.walk().len(),
    ensures
        table::slot_of(map.spec_hasher().hash_of(map.walk()[p].0), map.buckets())
            <= table::slot_of(map.spec_hasher().hash_of(map.walk()[q].0), map.buckets()),
{
    map.table.law_walk_goes_by_chain(map.hasher, p, q);
}

} // verus!
