//! A hash map that is split into shards.
//!
//! The hash of a key selects a shard, and within the shard a collision chain.
//! Each shard grows on its own: before an insertion into a shard that is three
//! quarters full, its chains are doubled.
use crate::collections::hasher::{FnvKeys, KeyHasher};
use crate::collections::table;
use crate::collections::table::Table;
use vstd::prelude::*;

verus! {

/// The number of shards.
pub const NUM_SHARDS: usize = 32;

/// The number of chains of a new shard.
pub const DEFAULT_SHARD_SIZE: usize = 64;

/// The shard into which a key with hash `hash` belongs.
pub open spec fn shard_of(hash: u64) -> int {
    (hash as usize) as int % NUM_SHARDS as int
}

/// A shard with `count` entries in `size` chains is three quarters full.
pub open spec fn is_loaded(count: nat, size: usize) -> bool {
    4 * count >= 3 * size
}

/// The number of chains after a resize that is due at `count` entries. A shard
/// whose chains cannot be doubled stays as it is.
pub open spec fn grown(count: nat, size: usize) -> usize {
    if is_loaded(count, size) && size <= usize::MAX / 2 {
        (2 * size) as usize
    } else {
        size
    }
}

/// One shard.
pub struct Shard<K, V> {
    table: Table<K, V>,
    count: usize,
    resize_in_progress: bool,
}

impl<K, V> View for Shard<K, V> {
    type V = Map<K, V>;

    closed spec fn view(&self) -> Map<K, V> {
        self.table@
    }
}

impl<K, V> Shard<K, V> {
    /// The counter counts the entries.
    pub closed spec fn counted(self) -> bool {
        &&& self@.dom().finite()
        &&& self.count == self@.len()
    }

    /// The entries are at most one more than three quarters of the chains,
    /// unless the chains cannot be doubled any more.
    pub open spec fn load_bounded(self) -> bool {
        4 * self@.len() <= 3 * self.spec_size() + 4 || self.spec_size() > usize::MAX / 2
    }

    /// Every key is in its chain.
    pub closed spec fn placed<S: KeyHasher<K>>(self, hasher: S) -> bool {
        self.table.wf(hasher)
    }

    /// The shard is in order.
    pub open spec fn wf<S: KeyHasher<K>>(self, hasher: S) -> bool {
        &&& self.placed(hasher)
        &&& self.counted()
        &&& self.load_bounded()
        &&& self.spec_size() > 0
    }

    /// The number of chains.
    pub closed spec fn spec_size(self) -> usize {
        self.table.spec_size()
    }

    /// A thread moves the entries to new chains; the others wait.
    pub closed spec fn resizing(self) -> bool {
        self.resize_in_progress
    }

    /// The entries in the order of their chains.
    pub closed spec fn walk(self) -> Seq<(K, V)> {
        self.table.walk()
    }

    /// The entries are walked as `moved` once the shard has been resized, if that
    /// is due.
    pub open spec fn resized_to<S: KeyHasher<K>>(self, hasher: S, moved: Seq<(K, V)>) -> bool {
        if is_loaded(self@.len(), self.spec_size()) && self.spec_size() <= usize::MAX / 2 {
            table::moved_in_order(
                self.walk(),
                moved,
                hasher,
                grown(self@.len(), self.spec_size()),
            )
        } else {
            moved == self.walk()
        }
    }

    /// A shard with `size` empty chains.
    pub fn new<S: KeyHasher<K>>(hasher: &S, size: usize) -> (shard: Self)
        requires
            size > 0,
        ensures
            shard.wf(*hasher),
            !shard.resizing(),
            shard.spec_size() == size,
            shard@ == Map::<K, V>::empty(),
    {
        Shard { table: Table::new(hasher, size), count: 0, resize_in_progress: false }
    }

    /// The number of entries.
    #[inline]
    pub fn len(&self) -> (count: usize)
        requires
            self.counted(),
        ensures
            count == self@.len(),
    {
        self.count
    }

    /// The number of chains.
    #[inline]
    pub fn size(&self) -> (size: usize)
        ensures
            size == self.spec_size(),
    {
        self.table.size()
    }

    /// Every entry, in the order of the chains.
    pub fn entries(&self) -> (entries: Vec<(&K, &V)>)
        ensures
            entries@.len() == self.walk().len(),
            forall|p: int|
                0 <= p < entries@.len() ==> *(#[trigger] entries@[p]).0 == self.walk()[p].0
                    && *entries@[p].1 == self.walk()[p].1,
    {
        self.table.entries()
    }
}

impl<K: PartialEq, V> Shard<K, V> {
    /// Gives `key` the value `value`; returns the value that it had. A new key
    /// goes to the head of its chain. There is room for one more entry.
    pub fn insert<S: KeyHasher<K>>(&mut self, hasher: &S, key: K, value: V) -> (had: Option<V>)
        requires
            vstd::laws_eq::obeys_concrete_eq::<K>(),
            old(self).placed(*hasher),
            old(self).counted(),
            old(self).spec_size() > 0,
            old(self)@.len() < usize::MAX,
        ensures
            final(self).placed(*hasher),
            final(self).counted(),
            final(self).spec_size() == old(self).spec_size(),
            final(self).resizing() == old(self).resizing(),
            final(self)@ == old(self)@.insert(key, value),
            had == (if old(self)@.contains_key(key) {
                Some(old(self)@[key])
            } else {
                None
            }),
            !old(self)@.contains_key(key) ==> table::heads_its_chain(
                old(self).walk(),
                final(self).walk(),
                (key, value),
                *hasher,
                old(self).spec_size(),
            ),
            old(self)@.contains_key(key) ==> table::replaced_in_place(
                old(self).walk(),
                final(self).walk(),
                key,
                value,
            ),
    {
        let had: Option<V> = self.table.insert(hasher, key, value);
        if had.is_none() {
            self.count = self.count + 1;
        }
        had
    }

    /// The value of `key`.
    pub fn get<S: KeyHasher<K>>(&self, hasher: &S, key: &K) -> (value: Option<&V>)
        requires
            vstd::laws_eq::obeys_concrete_eq::<K>(),
            self.wf(*hasher),
        ensures
            value is Some == self@.contains_key(*key),
            value matches Some(v) ==> *v == self@[*key],
    {
        self.table.get(hasher, key)
    }

    /// Access to the value of `key`.
    pub fn get_mut<S: KeyHasher<K>>(&mut self, hasher: &S, key: &K) -> (value: Option<&mut V>)
        requires
            vstd::laws_eq::obeys_concrete_eq::<K>(),
            old(self).wf(*hasher),
        ensures
            final(self).wf(*hasher),
            final(self).spec_size() == old(self).spec_size(),
            final(self).resizing() == old(self).resizing(),
            value is Some == old(self)@.contains_key(*key),
            value is None ==> final(self)@ == old(self)@,
            value matches Some(v) ==> *v == old(self)@[*key] && final(self)@ == old(self)@.insert(
                *key,
                *final(v),
            ),
            value is None ==> final(self).walk() == old(self).walk(),
            value matches Some(v) ==> table::replaced_in_place(
                old(self).walk(),
                final(self).walk(),
                *key,
                *final(v),
            ),
    {
        self.table.get_mut(hasher, key)
    }

    /// Removes `key`; returns the value that it had.
    pub fn remove<S: KeyHasher<K>>(&mut self, hasher: &S, key: &K) -> (had: Option<V>)
        requires
            vstd::laws_eq::obeys_concrete_eq::<K>(),
            old(self).wf(*hasher),
        ensures
            final(self).wf(*hasher),
            final(self).spec_size() == old(self).spec_size(),
            final(self).resizing() == old(self).resizing(),
            final(self)@ == old(self)@.remove(*key),
            had == (if old(self)@.contains_key(*key) {
                Some(old(self)@[*key])
            } else {
                None
            }),
            old(self)@.contains_key(*key) ==> table::taken_out(
                old(self).walk(),
                final(self).walk(),
                *key,
            ),
            !old(self)@.contains_key(*key) ==> final(self).walk() == old(self).walk(),
    {
        let had: Option<V> = self.table.remove(hasher, key);
        if had.is_some() {
            self.count = self.count - 1;
        } else {
            assert(self@ =~= old(self)@);
        }
        had
    }

    /// Whether `key` has a value.
    pub fn contains<S: KeyHasher<K>>(&self, hasher: &S, key: &K) -> (found: bool)
        requires
            vstd::laws_eq::obeys_concrete_eq::<K>(),
            self.wf(*hasher),
        ensures
            found == self@.contains_key(*key),
    {
        self.table.contains(hasher, key)
    }

    /// Whether a thread moves the entries to new chains.
    #[inline]
    pub fn is_resizing(&self) -> (resizing: bool)
        ensures
            resizing == self.resizing(),
    {
        self.resize_in_progress
    }

    /// Announces a move of the entries, unless one is under way already; tells
    /// whether it did.
    pub fn begin_resize<S: KeyHasher<K>>(&mut self, hasher: &S) -> (begun: bool)
        requires
            old(self).wf(*hasher),
        ensures
            final(self).wf(*hasher),
            final(self)@ == old(self)@,
            final(self).spec_size() == old(self).spec_size(),
            final(self).walk() == old(self).walk(),
            begun == !old(self).resizing(),
            final(self).resizing(),
    {
        if self.resize_in_progress {
            return false;
        }
        self.resize_in_progress = true;
        true
    }

    /// Moves the entries into twice as many chains and ends the move; tells
    /// whether there could be that many.
    pub fn finish_resize<S: KeyHasher<K>>(&mut self, hasher: &S) -> (resized: bool)
        requires
            old(self).wf(*hasher),
        ensures
            final(self).wf(*hasher),
            final(self)@ == old(self)@,
            !final(self).resizing(),
            resized == (old(self).spec_size() <= usize::MAX / 2),
            final(self).spec_size() == (if resized {
                (2 * old(self).spec_size()) as usize
            } else {
                old(self).spec_size()
            }),
            resized ==> table::moved_in_order(
                old(self).walk(),
                final(self).walk(),
                *hasher,
                final(self).spec_size(),
            ),
            !resized ==> final(self).walk() == old(self).walk(),
    {
        let resized: bool = match self.table.size().checked_mul(2) {
            Some(new_size) => {
                self.table.rehash(hasher, new_size);
                true
            },
            None => false,
        };
        self.resize_in_progress = false;
        resized
    }

    /// Doubles the chains of a shard that is three quarters full and moves the
    /// entries, unless another thread is about that; tells whether it did. Each
    /// key keeps its value.
    pub fn maybe_resize<S: KeyHasher<K>>(&mut self, hasher: &S) -> (resized: bool)
        requires
            old(self).wf(*hasher),
        ensures
            final(self).wf(*hasher),
            final(self)@ == old(self)@,
            resized == (!old(self).resizing() && is_loaded(
                old(self)@.len(),
                old(self).spec_size(),
            ) && old(self).spec_size() <= usize::MAX / 2),
            final(self).resizing() == old(self).resizing(),
            final(self).spec_size() == (if old(self).resizing() {
                old(self).spec_size()
            } else {
                grown(old(self)@.len(), old(self).spec_size())
            }),
            resized ==> table::moved_in_order(
                old(self).walk(),
                final(self).walk(),
                *hasher,
                final(self).spec_size(),
            ),
            !resized ==> final(self).walk() == old(self).walk(),
    {
        let old_size: usize = self.table.size();
        let current_count: usize = self.count;
        if (current_count as u128) * 4 < (old_size as u128) * 3 {
            return false;
        }
        if !self.begin_resize(hasher) {
            return false;
        }
        self.finish_resize(hasher)
    }

    /// Resizes the shard if that is due and then inserts; returns the value that
    /// `key` had. No move of the entries is under way.
    pub fn resize_and_insert<S: KeyHasher<K>>(&mut self, hasher: &S, key: K, value: V) -> (had:
        Option<V>)
        requires
            vstd::laws_eq::obeys_concrete_eq::<K>(),
            old(self).wf(*hasher),
            !old(self).resizing(),
            old(self)@.len() < usize::MAX,
        ensures
            final(self).wf(*hasher),
            !final(self).resizing(),
            final(self).spec_size() == grown(old(self)@.len(), old(self).spec_size()),
            final(self)@ == old(self)@.insert(key, value),
            had == (if old(self)@.contains_key(key) {
                Some(old(self)@[key])
            } else {
                None
            }),
            exists|moved: Seq<(K, V)>| #[trigger]
                old(self).resized_to(*hasher, moved) && (if old(self)@.contains_key(key) {
                    table::replaced_in_place(moved, final(self).walk(), key, value)
                } else {
                    table::heads_its_chain(
                        moved,
                        final(self).walk(),
                        (key, value),
                        *hasher,
                        final(self).spec_size(),
                    )
                }),
    {
        let ghost before = *self;
        self.maybe_resize(hasher);
        assert(before.resized_to(*hasher, self.walk()));
        self.insert(hasher, key, value)
    }
}

/// A hash map with sharded storage, which its handles share.
pub struct AtomicHashMap<K, V, S> {
    shards: Vec<Shard<K, V>>,
    len: usize,
    ref_count: usize,
    hasher: S,
}

/// What a `Debug` print of the map shows.
#[derive(Debug, Clone, Copy, PartialEq, Eq, Structural)]
pub struct HashMapInfo {
    pub shards: usize,
    pub len: usize,
    pub ref_count: usize,
}

/// The entries of the first `n` shards.
spec fn walked_shards<K, V>(shards: Seq<Shard<K, V>>, n: nat) -> Seq<(K, V)>
    decreases n,
{
    if n == 0 {
        Seq::empty()
    } else {
        walked_shards(shards, (n - 1) as nat) + shards[n - 1].walk()
    }
}

impl<K, V, S: KeyHasher<K>> View for AtomicHashMap<K, V, S> {
    type V = Map<K, V>;

    closed spec fn view(&self) -> Map<K, V> {
        Map::new(
            |k: K| self.shards@[shard_of(self.hasher.hash_of(k))]@.contains_key(k),
            |k: K| self.shards@[shard_of(self.hasher.hash_of(k))]@[k],
        )
    }
}

impl<K, V, S: KeyHasher<K>> AtomicHashMap<K, V, S> {
    /// Every shard is in order and at rest, every key is in the shard that its hash selects,
    /// and the counter counts the entries of all shards.
    pub closed spec fn wf(&self) -> bool {
        &&& self.shards@.len() == NUM_SHARDS
        &&& forall|s: int|
            0 <= s < NUM_SHARDS ==> (#[trigger] self.shards@[s]).wf(self.hasher)
                && !self.shards@[s].resizing()
        &&& forall|s: int, k: K|
            0 <= s < NUM_SHARDS && (#[trigger] self.shards@[s])@.contains_key(k) ==> shard_of(
                #[trigger] self.hasher.hash_of(k),
            ) == s
        &&& self@.dom().finite()
        &&& self.len == self@.len()
    }

    /// How keys are hashed.
    pub closed spec fn spec_hasher(&self) -> S {
        self.hasher
    }

    /// The number of chains of shard `s`.
    pub closed spec fn shard_size(&self, s: int) -> usize {
        self.shards@[s].spec_size()
    }

    /// The entries of shard `s`.
    pub closed spec fn shard_map(&self, s: int) -> Map<K, V> {
        self.shards@[s]@
    }

    /// Shard `s`.
    pub closed spec fn shard_at(&self, s: int) -> Shard<K, V> {
        self.shards@[s]
    }

    /// No shard but `s` differs.
    pub open spec fn same_but_shard(&self, after: &Self, s: int) -> bool {
        forall|t: int|
            0 <= t < NUM_SHARDS && t != s ==> #[trigger] after.shard_at(t) == self.shard_at(t)
    }

    /// Handles to the map.
    pub closed spec fn refs(&self) -> nat {
        self.ref_count as nat
    }

    /// The entries in the order of their shards and chains.
    pub closed spec fn walk(&self) -> Seq<(K, V)> {
        walked_shards(self.shards@, NUM_SHARDS as nat)
    }

    /// Nothing but the entries and the sizes of the shards differs.
    pub open spec fn same_sharing(&self, after: &Self) -> bool {
        &&& after.spec_hasher() == self.spec_hasher()
        &&& after.refs() == self.refs()
    }

    /// A shard holds no more entries than the whole map.
    proof fn lemma_shard_is_part(self, s: int)
        requires
            self.wf(),
            0 <= s < NUM_SHARDS,
        ensures
            self.shards@[s]@.dom().subset_of(self@.dom()),
            self.shards@[s]@.len() <= self@.len(),
    {
        assert(self.shards@[s].wf(self.hasher));
        vstd::set_lib::lemma_len_subset(self.shards@[s]@.dom(), self@.dom());
    }

    /// A map with `shard_size` chains in each shard.
    pub fn with_hasher_and_shard_size(hasher: S, shard_size: usize) -> (map: Self)
        requires
            shard_size > 0,
        ensures
            map.wf(),
            map@ == Map::<K, V>::empty(),
            map.spec_hasher() == hasher,
            map.refs() == 1,
            forall|s: int| 0 <= s < NUM_SHARDS ==> #[trigger] map.shard_size(s) == shard_size,
    {
        let mut shards: Vec<Shard<K, V>> = Vec::new();
        let mut i: usize = 0;
        while i < NUM_SHARDS
            invariant
                i <= NUM_SHARDS,
                shard_size > 0,
                shards@.len() == i,
                forall|j: int|
                    0 <= j < i ==> (#[trigger] shards@[j]).wf(hasher) && !shards@[j].resizing() && shards@[j]@ == Map::<
                        K,
                        V,
                    >::empty() && shards@[j].spec_size() == shard_size,
            decreases NUM_SHARDS - i,
        {
            shards.push(Shard::new(&hasher, shard_size));
            i = i + 1;
        }
        let map: AtomicHashMap<K, V, S> = AtomicHashMap { shards, len: 0, ref_count: 1, hasher };
        proof {
            assert(map@ =~= Map::<K, V>::empty());
        }
        map
    }

    /// The shard into which `key` belongs.
    #[inline]
    fn shard_index(&self, key: &K) -> (shard: usize)
        ensures
            shard == shard_of(self.hasher.hash_of(*key)),
            shard < NUM_SHARDS,
    {
        (self.hasher.hash_key(key) as usize) % NUM_SHARDS
    }

    /// How keys are hashed.
    #[inline]
    pub fn hasher(&self) -> (hasher: &S)
        ensures
            *hasher == self.spec_hasher(),
    {
        &self.hasher
    }

    /// The number of entries.
    pub fn len(&self) -> (len: usize)
        requires
            self.wf(),
        ensures
            len == self@.len(),
    {
        self.len
    }

    /// Whether there is no entry.
    pub fn is_empty(&self) -> (empty: bool)
        requires
            self.wf(),
        ensures
            empty == (self@ == Map::<K, V>::empty()),
    {
        proof {
            if self@.len() == 0 {
                assert(self@.dom() =~= Set::<K>::empty());
                assert(self@ =~= Map::<K, V>::empty());
            }
        }
        self.len == 0
    }

    /// The number of handles to the map.
    pub fn get_ref_count(&self) -> (refs: usize)
        ensures
            refs == self.refs(),
    {
        self.ref_count
    }

    /// One more handle shares the map.
    pub fn clone_ref(&mut self)
        requires
            old(self).wf(),
            old(self).refs() < usize::MAX,
        ensures
            final(self).wf(),
            final(self)@ == old(self)@,
            final(self).spec_hasher() == old(self).spec_hasher(),
            final(self).refs() == old(self).refs() + 1,
            forall|s: int| #[trigger] final(self).shard_size(s) == old(self).shard_size(s),
            forall|s: int| #[trigger] final(self).shard_at(s) == old(self).shard_at(s),
    {
        self.ref_count = self.ref_count + 1;
        assert(self@ =~= old(self)@);
    }

    /// Gives one handle up; tells whether it was the last one, so that the map
    /// is to be freed with its entries.
    pub fn drop_ref(&mut self) -> (last: bool)
        requires
            old(self).wf(),
            old(self).refs() > 0,
        ensures
            final(self).wf(),
            final(self)@ == old(self)@,
            final(self).spec_hasher() == old(self).spec_hasher(),
            final(self).refs() == old(self).refs() - 1,
            forall|s: int| #[trigger] final(self).shard_size(s) == old(self).shard_size(s),
            forall|s: int| #[trigger] final(self).shard_at(s) == old(self).shard_at(s),
            last == (old(self).refs() == 1),
    {
        self.ref_count = self.ref_count - 1;
        assert(self@ =~= old(self)@);
        self.ref_count == 0
    }

    /// What a `Debug` print of the map shows.
    pub fn info(&self) -> (info: HashMapInfo)
        requires
            self.wf(),
        ensures
            info.shards == NUM_SHARDS,
            info.len == self@.len(),
            info.ref_count == self.refs(),
    {
        HashMapInfo { shards: NUM_SHARDS, len: self.len, ref_count: self.ref_count }
    }
}

impl<K: PartialEq, V, S: KeyHasher<K>> AtomicHashMap<K, V, S> {
    /// What changes of the map when only shard `s` changes.
    proof fn lemma_shard_changed(self, before: Self, s: int)
        requires
            before.wf(),
            0 <= s < NUM_SHARDS,
            self.hasher == before.hasher,
            self.shards@.len() == NUM_SHARDS,
            forall|t: int| 0 <= t < NUM_SHARDS && t != s ==> self.shards@[t] == before.shards@[t],
        ensures
            forall|k: K|
                self@.contains_key(k) == (if shard_of(self.hasher.hash_of(k)) == s {
                    self.shards@[s]@.contains_key(k)
                } else {
                    before@.contains_key(k)
                }),
            forall|k: K|
                self@.contains_key(k) ==> #[trigger] self@[k] == (if shard_of(
                    self.hasher.hash_of(k),
                ) == s {
                    self.shards@[s]@[k]
                } else {
                    before@[k]
                }),
    {
    }

    /// Gives `key` the value `value`; returns the value that it had. The shard
    /// of the key grows before that if it is three quarters full.
    pub fn insert(&mut self, key: K, value: V) -> (had: Option<V>)
        requires
            vstd::laws_eq::obeys_concrete_eq::<K>(),
            old(self).wf(),
            old(self)@.len() < usize::MAX,
        ensures
            final(self).wf(),
            old(self).same_sharing(final(self)),
            final(self)@ == old(self)@.insert(key, value),
            had == (if old(self)@.contains_key(key) {
                Some(old(self)@[key])
            } else {
                None
            }),
            forall|s: int|
                0 <= s < NUM_SHARDS ==> #[trigger] final(self).shard_size(s) == (if s == shard_of(
                    old(self).spec_hasher().hash_of(key),
                ) {
                    grown(old(self).shard_map(s).len(), old(self).shard_size(s))
                } else {
                    old(self).shard_size(s)
                }),
            ({
                let s = shard_of(old(self).spec_hasher().hash_of(key));
                &&& old(self).same_but_shard(final(self), s)
                &&& exists|moved: Seq<(K, V)>| #[trigger]
                    old(self).shard_at(s).resized_to(old(self).spec_hasher(), moved) && (if old(
                        self,
                    )@.contains_key(key) {
                        table::replaced_in_place(
                            moved,
                            final(self).shard_at(s).walk(),
                            key,
                            value,
                        )
                    } else {
                        table::heads_its_chain(
                            moved,
                            final(self).shard_at(s).walk(),
                            (key, value),
                            old(self).spec_hasher(),
                            final(self).shard_size(s),
                        )
                    })
            }),
    {
        let ghost before = *self;
        let shard: usize = self.shard_index(&key);
        proof {
            before.lemma_shard_is_part(shard as int);
        }
        let had: Option<V> = self.shards[shard].resize_and_insert(&self.hasher, key, value);
        if had.is_none() {
            self.len = self.len + 1;
        }
        proof {
            self.lemma_shard_changed(before, shard as int);
            assert(self@ =~= before@.insert(key, value));
            let s = shard as int;
            let walk = self.shards@[s].walk();
            let moved = choose|moved: Seq<(K, V)>| #[trigger]
                before.shards@[s].resized_to(self.hasher, moved) && (if before.shards@[s]@.contains_key(
                    key,
                ) {
                    table::replaced_in_place(moved, walk, key, value)
                } else {
                    table::heads_its_chain(
                        moved,
                        walk,
                        (key, value),
                        self.hasher,
                        self.shards@[s].spec_size(),
                    )
                });
            assert(before.shard_at(s).resized_to(before.spec_hasher(), moved));
            assert(before.shard_at(s)@.contains_key(key) == before@.contains_key(key));
        }
        had
    }

    /// The value of `key`.
    pub fn get(&self, key: &K) -> (value: Option<&V>)
        requires
            vstd::laws_eq::obeys_concrete_eq::<K>(),
            self.wf(),
        ensures
            value is Some == self@.contains_key(*key),
            value matches Some(v) ==> *v == self@[*key],
    {
        let shard: usize = self.shard_index(key);
        self.shards[shard].get(&self.hasher, key)
    }

    /// Access to the value of `key`.
    pub fn get_mut(&mut self, key: &K) -> (value: Option<&mut V>)
        requires
            vstd::laws_eq::obeys_concrete_eq::<K>(),
            old(self).wf(),
        ensures
            final(self).wf(),
            old(self).same_sharing(final(self)),
            forall|s: int|
                0 <= s < NUM_SHARDS ==> #[trigger] final(self).shard_size(s) == old(
                    self,
                ).shard_size(s),
            value is Some == old(self)@.contains_key(*key),
            value is None ==> final(self)@ == old(self)@,
            value matches Some(v) ==> *v == old(self)@[*key] && final(self)@ == old(self)@.insert(
                *key,
                *final(v),
            ),
            ({
                let s = shard_of(old(self).spec_hasher().hash_of(*key));
                &&& old(self).same_but_shard(final(self), s)
                &&& value is None ==> final(self).shard_at(s).walk() == old(self).shard_at(
                    s,
                ).walk()
                &&& value matches Some(v) ==> table::replaced_in_place(
                    old(self).shard_at(s).walk(),
                    final(self).shard_at(s).walk(),
                    *key,
                    *final(v),
                )
            }),
    {
        let ghost before = *self;
        let shard: usize = self.shard_index(key);
        let value: Option<&mut V> = self.shards[shard].get_mut(&self.hasher, key);
        proof {
            after_borrow(*self).lemma_shard_changed(before, shard as int);
            if value is Some {
                assert(after_borrow(*self)@ =~= before@.insert(*key, *final(value->0)));
            } else {
                assert(after_borrow(*self)@ =~= before@);
            }
        }
        value
    }

    /// Removes `key`; returns the value that it had.
    pub fn remove(&mut self, key: &K) -> (had: Option<V>)
        requires
            vstd::laws_eq::obeys_concrete_eq::<K>(),
            old(self).wf(),
        ensures
            final(self).wf(),
            old(self).same_sharing(final(self)),
            forall|s: int|
                0 <= s < NUM_SHARDS ==> #[trigger] final(self).shard_size(s) == old(
                    self,
                ).shard_size(s),
            final(self)@ == old(self)@.remove(*key),
            had == (if old(self)@.contains_key(*key) {
                Some(old(self)@[*key])
            } else {
                None
            }),
            ({
                let s = shard_of(old(self).spec_hasher().hash_of(*key));
                &&& old(self).same_but_shard(final(self), s)
                &&& old(self)@.contains_key(*key) ==> table::taken_out(
                    old(self).shard_at(s).walk(),
                    final(self).shard_at(s).walk(),
                    *key,
                )
                &&& !old(self)@.contains_key(*key) ==> final(self).shard_at(s).walk() == old(
                    self,
                ).shard_at(s).walk()
            }),
    {
        let ghost before = *self;
        let shard: usize = self.shard_index(key);
        let had: Option<V> = self.shards[shard].remove(&self.hasher, key);
        if had.is_some() {
            assert(before@.dom().remove(*key).len() + 1 == before@.len());
            self.len = self.len - 1;
        }
        proof {
            self.lemma_shard_changed(before, shard as int);
            assert(self@ =~= before@.remove(*key));
        }
        had
    }

    /// Whether `key` has a value.
    pub fn contains_key(&self, key: &K) -> (found: bool)
        requires
            vstd::laws_eq::obeys_concrete_eq::<K>(),
            self.wf(),
        ensures
            found == self@.contains_key(*key),
    {
        let shard: usize = self.shard_index(key);
        self.shards[shard].contains(&self.hasher, key)
    }
}

impl<V> AtomicHashMap<u64, V, FnvKeys> {
    /// A map with shards of the default size.
    pub fn new() -> (map: Self)
        ensures
            map.wf(),
            map@ == Map::<u64, V>::empty(),
            map.spec_hasher() == FnvKeys,
            map.refs() == 1,
            forall|s: int|
                0 <= s < NUM_SHARDS ==> #[trigger] map.shard_size(s) == DEFAULT_SHARD_SIZE,
    {
        Self::with_shard_size(DEFAULT_SHARD_SIZE)
    }

    /// A map with `shard_size` chains in each shard.
    pub fn with_shard_size(shard_size: usize) -> (map: Self)
        requires
            shard_size > 0,
        ensures
            map.wf(),
            map@ == Map::<u64, V>::empty(),
            map.spec_hasher() == FnvKeys,
            map.refs() == 1,
            forall|s: int| 0 <= s < NUM_SHARDS ==> #[trigger] map.shard_size(s) == shard_size,
    {
        Self::with_hasher_and_shard_size(FnvKeys, shard_size)
    }
}

impl<K, V> Shard<K, V> {
    /// Walking the chains of a shard meets every key of it once.
    pub proof fn lemma_walk_enumerates<S: KeyHasher<K>>(self, hasher: S)
        requires
            self.wf(hasher),
        ensures
            table::enumerates(self@, self.walk()),
    {
        self.table.lemma_walk_enumerates(hasher);
    }
}

/// The entries of the first `n` shards: what each of them is, and that no key
/// comes twice.
proof fn lemma_walked_shards<K, V, S: KeyHasher<K>>(map: AtomicHashMap<K, V, S>, n: nat)
    requires
        map.wf(),
        n <= NUM_SHARDS,
    ensures
        forall|p: int|
            0 <= p < walked_shards(map.shards@, n).len() ==> {
                let e = #[trigger] walked_shards(map.shards@, n)[p];
                &&& shard_of(map.hasher.hash_of(e.0)) < n
                &&& map@.contains_key(e.0)
                &&& map@[e.0] == e.1
            },
        forall|k: K|
            map@.contains_key(k) && shard_of(map.hasher.hash_of(k)) < n ==> walked_shards(
                map.shards@,
                n,
            ).contains((k, #[trigger] map@[k])),
        forall|p: int, q: int|
            0 <= p < q < walked_shards(map.shards@, n).len() ==> (#[trigger] walked_shards(
                map.shards@,
                n,
            )[p]).0 != (#[trigger] walked_shards(map.shards@, n)[q]).0,
    decreases n,
{
    if n > 0 {
        let m = (n - 1) as nat;
        let shard = map.shards@[m as int];
        let before = walked_shards(map.shards@, m);
        let after = walked_shards(map.shards@, n);
        lemma_walked_shards(map, m);
        assert(shard.wf(map.hasher));
        shard.lemma_walk_enumerates(map.hasher);
        assert(after == before + shard.walk());
        assert forall|p: int| 0 <= p < after.len() implies {
            let e = #[trigger] after[p];
            &&& shard_of(map.hasher.hash_of(e.0)) < n
            &&& map@.contains_key(e.0)
            &&& map@[e.0] == e.1
            &&& p >= before.len() ==> shard_of(map.hasher.hash_of(e.0)) == m
        } by {
            if p < before.len() {
                assert(after[p] == before[p]);
            } else {
                assert(after[p] == shard.walk()[p - before.len()]);
                assert(shard@.contains_key(after[p].0));
            }
        }
        assert forall|k: K|
            map@.contains_key(k) && shard_of(map.hasher.hash_of(k)) < n implies after.contains(
            (k, #[trigger] map@[k]),
        ) by {
            if shard_of(map.hasher.hash_of(k)) < m {
                let p = choose|p: int| 0 <= p < before.len() && before[p] == (k, map@[k]);
                assert(after[p] == (k, map@[k]));
            } else {
                assert(shard@.contains_key(k));
                let p = choose|p: int| 0 <= p < shard.walk().len() && (#[trigger] shard.walk()[p]).0
                    == k;
                assert(after[before.len() + p] == (k, map@[k]));
            }
        }
        assert forall|p: int, q: int| 0 <= p < q < after.len() implies (#[trigger] after[p]).0 != (
        #[trigger] after[q]).0 by {
            if q < before.len() {
                assert(after[p] == before[p] && after[q] == before[q]);
            } else if p < before.len() {
                assert(after[p] == before[p]);
            } else {
                assert(after[p] == shard.walk()[p - before.len()]);
                assert(after[q] == shard.walk()[q - before.len()]);
            }
        }
    }
}

impl<K, V, S: KeyHasher<K>> AtomicHashMap<K, V, S> {
    /// Walking the shards meets every key of the map once, with its value.
    pub proof fn lemma_walk_enumerates(self)
        requires
            self.wf(),
        ensures
            table::enumerates(self@, self.walk()),
    {
        let e = self.walk();
        lemma_walked_shards(self, NUM_SHARDS as nat);
        assert forall|k: K| self@.contains_key(k) implies exists|p: int|
            0 <= p < e.len() && (#[trigger] e[p]).0 == k by {
            let p = choose|p: int| 0 <= p < e.len() && e[p] == (k, self@[k]);
            assert(e[p].0 == k);
        }
        let keys = Seq::new(e.len(), |p: int| e[p].0);
        assert(keys.no_duplicates());
        keys.unique_seq_to_set();
        assert(keys.to_set() =~= self@.dom()) by {
            assert forall|k: K| keys.to_set().contains(k) <==> self@.dom().contains(k) by {
                if self@.contains_key(k) {
                    let p = choose|p: int| 0 <= p < e.len() && (#[trigger] e[p]).0 == k;
                    assert(keys[p] == k);
                }
                if keys.to_set().contains(k) {
                    let p = choose|p: int| 0 <= p < keys.len() && keys[p] == k;
                    assert(e[p].0 == k);
                }
            }
        }
    }

    /// A copy of every entry, each of them once.
    pub fn snapshot(&self) -> (copies: Vec<(K, V)>) where K: Clone, V: Clone
        requires
            self.wf(),
        ensures
            table::enumerates(self@, self.walk()),
            copies@.len() == self.walk().len(),
            forall|p: int|
                0 <= p < copies@.len() ==> cloned(
                    self.walk()[p].0,
                    (#[trigger] copies@[p]).0,
                ) && cloned(self.walk()[p].1, copies@[p].1),
    {
        let mut copies: Vec<(K, V)> = Vec::new();
        let mut shard: usize = 0;
        while shard < NUM_SHARDS
            invariant
                shard <= NUM_SHARDS,
                self.shards@.len() == NUM_SHARDS,
                copies@.len() == walked_shards(self.shards@, shard as nat).len(),
                forall|p: int|
                    0 <= p < copies@.len() ==> cloned(
                        walked_shards(self.shards@, shard as nat)[p].0,
                        (#[trigger] copies@[p]).0,
                    ) && cloned(walked_shards(self.shards@, shard as nat)[p].1, copies@[p].1),
            decreases NUM_SHARDS - shard,
        {
            let ghost before = walked_shards(self.shards@, shard as nat);
            let ghost walk = self.shards@[shard as int].walk();
            let entries: Vec<(&K, &V)> = self.shards[shard].entries();
            let mut i: usize = 0;
            while i < entries.len()
                invariant
                    i <= entries@.len(),
                    entries@.len() == walk.len(),
                    forall|p: int|
                        0 <= p < entries@.len() ==> *(#[trigger] entries@[p]).0 == walk[p].0
                            && *entries@[p].1 == walk[p].1,
                    copies@.len() == before.len() + i,
                    forall|p: int|
                        0 <= p < copies@.len() ==> cloned(
                            (before + walk)[p].0,
                            (#[trigger] copies@[p]).0,
                        ) && cloned((before + walk)[p].1, copies@[p].1),
                decreases entries@.len() - i,
            {
                let (key, value): (&K, &V) = entries[i];
                let ghost so_far = copies@;
                copies.push((key.clone(), value.clone()));
                assert((before + walk)[before.len() + i] == walk[i as int]);
                assert forall|p: int| 0 <= p < copies@.len() implies cloned(
                    (before + walk)[p].0,
                    (#[trigger] copies@[p]).0,
                ) && cloned((before + walk)[p].1, copies@[p].1) by {
                    if p < so_far.len() {
                        assert(copies@[p] == so_far[p]);
                    }
                }
                i = i + 1;
            }
            shard = shard + 1;
        }
        proof {
            self.lemma_walk_enumerates();
        }
        copies
    }
}

/// Every key of the map is in exactly one shard, the one that its hash selects.
pub proof fn law_shards_partition_the_map<K, V, S: KeyHasher<K>>(
    map: AtomicHashMap<K, V, S>,
    key: K,
)
    requires
        map.wf(),
    ensures
        forall|s: int|
            0 <= s < NUM_SHARDS ==> #[trigger] map.shard_map(s).contains_key(key) == (
            map@.contains_key(key) && s == shard_of(map.spec_hasher().hash_of(key))),
        map@.contains_key(key) ==> map.shard_map(shard_of(map.spec_hasher().hash_of(key)))[key]
            == map@[key],
{
}

/// No shard ever holds more than one entry beyond three quarters of its chains,
/// unless its chains cannot be doubled any more.
pub proof fn law_load_stays_bounded<K, V, S: KeyHasher<K>>(map: AtomicHashMap<K, V, S>, s: int)
    requires
        map.wf(),
        0 <= s < NUM_SHARDS,
    ensures
        4 * map.shard_map(s).len() <= 3 * map.shard_size(s) + 4 || map.shard_size(s) > usize::MAX
            / 2,
{
    assert(map.shards@[s].wf(map.hasher));
}

/// A read after a write of the same key gives back what was written; the write
/// leaves every other key as it is.
pub proof fn law_reads_give_back_writes<K, V, S: KeyHasher<K>>(
    before: AtomicHashMap<K, V, S>,
    after: AtomicHashMap<K, V, S>,
    key: K,
    value: V,
    other: K,
)
    requires
        before.wf(),
        after@ == before@.insert(key, value),
    ensures
        after@.contains_key(key),
        after@[key] == value,
        other != key ==> after@.contains_key(other) == before@.contains_key(other),
        other != key && before@.contains_key(other) ==> after@[other] == before@[other],
        after@.len() == before@.len() + (if before@.contains_key(key) {
            0int
        } else {
            1
        }),
{
}

/// A removal takes its key away and leaves every other key as it is; removing a
/// key that was not there before the write undoes the write.
pub proof fn law_remove_undoes_insert<K, V, S: KeyHasher<K>>(
    before: AtomicHashMap<K, V, S>,
    after: AtomicHashMap<K, V, S>,
    key: K,
    value: V,
)
    requires
        before.wf(),
        !before@.contains_key(key),
        after@ == before@.insert(key, value).remove(key),
    ensures
        !after@.contains_key(key),
        after@ == before@,
{
    assert(after@ =~= before@);
}

/// Keys share a shard exactly if their hashes leave the same remainder; every
/// shard index is one of the map.
pub proof fn law_shards_split_by_hash(first: u64, second: u64)
    ensures
        0 <= shard_of(first) < NUM_SHARDS,
        shard_of(first) == shard_of(second) <==> (first as usize as int) % (NUM_SHARDS as int)
            == (second as usize as int) % (NUM_SHARDS as int),
        first < NUM_SHARDS ==> shard_of(first) == first,
{
}

/// A shard below three quarters of its chains keeps them; one that has reached
/// that doubles them, unless there cannot be so many, and then has room again.
pub proof fn law_shards_double_at_three_quarters(count: nat, size: usize)
    ensures
        is_loaded(count, size) <==> 4 * count >= 3 * size,
        4 * count < 3 * size ==> grown(count, size) == size,
        4 * count >= 3 * size && 2 * size <= usize::MAX ==> grown(count, size) == 2 * size,
        4 * count >= 3 * size && 2 * size > usize::MAX ==> grown(count, size) == size,
        size > 1 && 4 * count <= 3 * size + 4 && grown(count, size) == 2 * size && size > 2
            ==> !is_loaded(count, grown(count, size)),
{
}

/// What only the entries are said to change keeps the hasher and the handles.
pub proof fn law_sharing_is_kept<K, V, S: KeyHasher<K>>(
    before: AtomicHashMap<K, V, S>,
    after: AtomicHashMap<K, V, S>,
)
    requires
        before.same_sharing(&after),
    ensures
        after.spec_hasher() == before.spec_hasher(),
        after.refs() == before.refs(),
{
}

/// The shards of a map hold it between them: no shard has more entries than the
/// map, and a key is in the map exactly if it is in a shard.
pub proof fn law_shards_hold_the_map<K, V, S: KeyHasher<K>>(
    map: AtomicHashMap<K, V, S>,
    key: K,
    s: int,
)
    requires
        map.wf(),
        0 <= s < NUM_SHARDS,
    ensures
        map.shard_map(s).len() <= map@.len(),
        map@.contains_key(key) <==> exists|t: int|
            0 <= t < NUM_SHARDS && #[trigger] map.shard_map(t).contains_key(key),
{
    map.lemma_shard_is_part(s);
    law_shards_partition_the_map(map, key);
    if map@.contains_key(key) {
        assert(map.shard_map(shard_of(map.spec_hasher().hash_of(key))).contains_key(key));
    }
}

/// The entries of the first `n` shards stand in the order of their shards, and
/// within a shard in the order of its chains.
proof fn lemma_walk_goes_by_shard<K, V, S: KeyHasher<K>>(
    map: AtomicHashMap<K, V, S>,
    n: nat,
    p: int,
    q: int,
)
    requires
        map.wf(),
        n <= NUM_SHARDS,
        0 <= p < q < walked_shards(map.shards@, n).len(),
    ensures
        ({
            let first = map.hasher.hash_of(walked_shards(map.shards@, n)[p].0);
            let second = map.hasher.hash_of(walked_shards(map.shards@, n)[q].0);
            ||| shard_of(first) < shard_of(second)
            ||| shard_of(first) == shard_of(second) && table::slot_of(
                first,
                map.shard_size(shard_of(first)),
            ) <= table::slot_of(second, map.shard_size(shard_of(first)))
        }),
    decreases n,
{
    if n > 0 {
        let m = (n - 1) as nat;
        let shard = map.shards@[m as int];
        let before = walked_shards(map.shards@, m);
        let after = walked_shards(map.shards@, n);
        lemma_walked_shards(map, m);
        assert(shard.wf(map.hasher));
        shard.lemma_walk_enumerates(map.hasher);
        assert(after == before + shard.walk());
        if q < before.len() {
            assert(after[p] == before[p] && after[q] == before[q]);
            lemma_walk_goes_by_shard(map, m, p, q);
        } else {
            assert(after[q] == shard.walk()[q - before.len()]);
            assert(shard@.contains_key(after[q].0));
            if p < before.len() {
                assert(after[p] == before[p]);
            } else {
                assert(after[p] == shard.walk()[p - before.len()]);
                assert(shard@.contains_key(after[p].0));
                shard.table.law_walk_goes_by_chain(
                    map.hasher,
                    p - before.len(),
                    q - before.len(),
                );
            }
        }
    }
}

/// A walk over the map meets the shards in their order, and within a shard its
/// chains in theirs.
pub proof fn law_walk_goes_by_shard<K, V, S: KeyHasher<K>>(
    map: AtomicHashMap<K, V, S>,
    p: int,
    q: int,
)
    requires
        map.wf(),
        0 <= p < q < map.walk().len(),
    ensures
        ({
            let first = map.spec_hasher().hash_of(map.walk()[p].0);
            let second = map.spec_hasher().hash_of(map.walk()[q].0);
            ||| shard_of(first) < shard_of(second)
            ||| shard_of(first) == shard_of(second) && table::slot_of(
                first,
                map.shard_size(shard_of(first)),
            ) <= table::slot_of(second, map.shard_size(shard_of(first)))
        }),
{
    lemma_walk_goes_by_shard(map, NUM_SHARDS as nat, p, q);
}

/// A shard below three quarters of its chains is walked as before; one that has
/// reached that is walked as its entries have been moved to twice the chains.
pub proof fn law_an_insertion_first_moves_a_loaded_shard<K, V, S: KeyHasher<K>>(
    shard: Shard<K, V>,
    hasher: S,
    moved: Seq<(K, V)>,
)
    requires
        shard.resized_to(hasher, moved),
    ensures
        4 * shard@.len() < 3 * shard.spec_size() ==> moved == shard.walk(),
        4 * shard@.len() >= 3 * shard.spec_size() && 2 * shard.spec_size() <= usize::MAX
            ==> table::moved_in_order(
            shard.walk(),
            moved,
            hasher,
            (2 * shard.spec_size()) as usize,
        ),
        2 * shard.spec_size() > usize::MAX ==> moved == shard.walk(),
{
}

/// A walk over the map is a walk over one shard after the other.
pub proof fn law_walk_joins_the_walks_of_the_shards<K, V, S: KeyHasher<K>>(
    map: AtomicHashMap<K, V, S>,
    s: int,
)
    requires
        map.wf(),
        0 <= s < NUM_SHARDS,
    ensures
        map.walk() == Seq::new(NUM_SHARDS as nat, |t: int| map.shard_at(t).walk()).flatten(),
        map.shard_at(s)@ == map.shard_map(s),
        map.shard_at(s).spec_size() == map.shard_size(s),
        table::enumerates(map.shard_map(s), map.shard_at(s).walk()),
{
    let walks = Seq::new(NUM_SHARDS as nat, |t: int| map.shard_at(t).walk());
    lemma_walked_shards_join(map, NUM_SHARDS as nat);
    assert(walks.take(NUM_SHARDS as int) =~= walks);
    walks.lemma_flatten_and_flatten_alt_are_equivalent();
    assert(map.shards@[s].wf(map.hasher));
    map.shards@[s].lemma_walk_enumerates(map.hasher);
}

/// The walks over the first `n` shards joined.
proof fn lemma_walked_shards_join<K, V, S: KeyHasher<K>>(map: AtomicHashMap<K, V, S>, n: nat)
    requires
        n <= NUM_SHARDS,
    ensures
        walked_shards(map.shards@, n) == Seq::new(
            NUM_SHARDS as nat,
            |t: int| map.shard_at(t).walk(),
        ).take(n as int).flatten_alt(),
    decreases n,
{
    let walks = Seq::new(NUM_SHARDS as nat, |t: int| map.shard_at(t).walk());
    if n > 0 {
        lemma_walked_shards_join(map, (n - 1) as nat);
        assert(walks.take(n as int).drop_last() =~= walks.take(n - 1));
        assert(walks.take(n as int).last() == map.shards@[n - 1].walk());
    }
}

/// Where only one shard is said to differ, every other shard is what it was, and
/// so are its entries.
pub proof fn law_other_shards_stay<K, V, S: KeyHasher<K>>(
    before: AtomicHashMap<K, V, S>,
    after: AtomicHashMap<K, V, S>,
    s: int,
    t: int,
)
    requires
        before.same_but_shard(&after, s),
        0 <= t < NUM_SHARDS,
        t != s,
    ensures
        after.shard_at(t) == before.shard_at(t),
        after.shard_map(t) == before.shard_map(t),
        after.shard_size(t) == before.shard_size(t),
{
    assert(after.shard_at(t) == before.shard_at(t));
}

} // verus!
