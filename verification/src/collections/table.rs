//! A table of collision chains, the storage of the hash maps.
//!
//! A key belongs into the chain that its hash selects. Within a chain the newest
//! entry is the head; the chain is kept with its head last.
use crate::collections::hasher::KeyHasher;
use vstd::prelude::*;

verus! {

/// The chain, out of `size` many, into which a key with hash `hash` belongs.
pub open spec fn slot_of(hash: u64, size: usize) -> int {
    (hash as usize) as int % size as int
}

/// `entries` are the entries of `map`, each of them once.
pub open spec fn enumerates<K, V>(map: Map<K, V>, entries: Seq<(K, V)>) -> bool {
    &&& entries.len() == map.len()
    &&& forall|i: int|
        0 <= i < entries.len() ==> map.contains_key((#[trigger] entries[i]).0)
            && map[entries[i].0] == entries[i].1
    &&& forall|i: int, j: int|
        0 <= i < j < entries.len() ==> (#[trigger] entries[i]).0 != (#[trigger] entries[j]).0
    &&& forall|k: K|
        map.contains_key(k) ==> exists|i: int|
            0 <= i < entries.len() && (#[trigger] entries[i]).0 == k
}

/// `after` is `before` with `entry` in front of the entries of its chain, among
/// `size` chains.
pub open spec fn heads_its_chain<K, V, S: KeyHasher<K>>(
    before: Seq<(K, V)>,
    after: Seq<(K, V)>,
    entry: (K, V),
    hasher: S,
    size: usize,
) -> bool {
    exists|p: int|
        #![trigger before.insert(p, entry)]
        {
            &&& 0 <= p <= before.len()
            &&& after == before.insert(p, entry)
            &&& forall|q: int|
                0 <= q < p ==> slot_of(hasher.hash_of((#[trigger] before[q]).0), size) < slot_of(
                    hasher.hash_of(entry.0),
                    size,
                )
            &&& forall|q: int|
                p <= q < before.len() ==> slot_of(hasher.hash_of((#[trigger] before[q]).0), size)
                    >= slot_of(hasher.hash_of(entry.0), size)
        }
}

/// `after` is `before` with the value `value` for `key`, in the place where the key
/// stands.
pub open spec fn replaced_in_place<K, V>(
    before: Seq<(K, V)>,
    after: Seq<(K, V)>,
    key: K,
    value: V,
) -> bool {
    &&& after.len() == before.len()
    &&& forall|p: int|
        0 <= p < before.len() ==> #[trigger] after[p] == (if before[p].0 == key {
            (key, value)
        } else {
            before[p]
        })
}

/// `after` is `before` without the entry of `key`.
pub open spec fn taken_out<K, V>(before: Seq<(K, V)>, after: Seq<(K, V)>, key: K) -> bool {
    exists|p: int|
        #![trigger before.remove(p)]
        0 <= p < before.len() && before[p].0 == key && after == before.remove(p)
}

/// `after` has the entries of `before` in `size` other chains: they were moved in
/// the order of `before`, each to the head of its chain, so those that share a
/// chain stand the other way round.
pub open spec fn moved_in_order<K, V, S: KeyHasher<K>>(
    before: Seq<(K, V)>,
    after: Seq<(K, V)>,
    hasher: S,
    size: usize,
) -> bool {
    &&& after.len() == before.len()
    &&& forall|i: int| 0 <= i < after.len() ==> before.contains(#[trigger] after[i])
    &&& forall|i: int, j: int|
        0 <= i < j < after.len() && slot_of(hasher.hash_of((#[trigger] after[i]).0), size)
            == slot_of(hasher.hash_of((#[trigger] after[j]).0), size) ==> exists|p: int, q: int|
            0 <= p < q < before.len() && #[trigger] before[p] == after[j] && #[trigger] before[q]
                == after[i]
}

/// A hash table with chaining. Its view is the map from keys to values.
pub struct Table<K, V> {
    slots: Vec<Vec<(K, V)>>,
}

impl<K, V> Table<K, V> {
    /// Chain `s` has an entry `i`.
    spec fn filled(self, s: int, i: int) -> bool {
        0 <= s < self.slots@.len() && 0 <= i < self.slots@[s]@.len()
    }

    /// Entry `i` of chain `s`.
    spec fn entry(self, s: int, i: int) -> (K, V) {
        self.slots@[s]@[i]
    }

    /// Some chain has the entry `(key, value)`.
    spec fn holds(self, key: K, value: V) -> bool {
        exists|s: int, i: int| #[trigger]
            self.filled(s, i) && self.entry(s, i) == (key, value)
    }

    /// One of the first `n` chains has the entry `e`.
    spec fn within(self, n: nat, e: (K, V)) -> bool {
        exists|s: int, i: int| s < n && #[trigger] self.filled(s, i) && self.entry(s, i) == e
    }

    /// The number of chains.
    pub closed spec fn spec_size(self) -> usize {
        self.slots.len()
    }

    /// The entries in the order in which the chains hold them: chain by chain,
    /// each from its head.
    pub closed spec fn walk(self) -> Seq<(K, V)> {
        walked(self.slots@, self.slots@.len())
    }

    /// Every key is in the chain that its hash selects, and there only once.
    pub closed spec fn wf<S: KeyHasher<K>>(self, hasher: S) -> bool {
        &&& forall|s: int, i: int| #[trigger]
            self.filled(s, i) ==> slot_of(
                hasher.hash_of(self.entry(s, i).0),
                self.slots.len(),
            ) == s
        &&& forall|s: int, i: int, j: int|
            #![trigger self.filled(s, i), self.filled(s, j)]
            self.filled(s, i) && self.filled(s, j) && i != j ==> self.entry(s, i).0 != self.entry(
                s,
                j,
            ).0
        &&& self@.dom().finite()
    }

    /// What the chains hold is what the map has.
    proof fn lemma_view<S: KeyHasher<K>>(self, hasher: S)
        requires
            self.wf(hasher),
        ensures
            forall|s: int, i: int| #[trigger]
                self.filled(s, i) ==> self@.contains_key(self.entry(s, i).0)
                    && self@[self.entry(s, i).0] == self.entry(s, i).1,
            forall|k: K| #[trigger]
                self@.contains_key(k) ==> exists|i: int| #[trigger]
                    self.filled(slot_of(hasher.hash_of(k), self.slots.len()), i) && self.entry(
                        slot_of(hasher.hash_of(k), self.slots.len()),
                        i,
                    ) == (k, self@[k]),
    {
        assert forall|s: int, i: int| #[trigger] self.filled(s, i) implies self@.contains_key(
            self.entry(s, i).0,
        ) && self@[self.entry(s, i).0] == self.entry(s, i).1 by {
            let k = self.entry(s, i).0;
            let v = self.entry(s, i).1;
            assert(self.holds(k, v));
            let w = choose|w: V| self.holds(k, w);
            assert(self.holds(k, w));
            let (s2, i2) = choose|s2: int, i2: int| #[trigger]
                self.filled(s2, i2) && self.entry(s2, i2) == (k, w);
            assert(s2 == s);
        }
        assert forall|k: K| #[trigger] self@.contains_key(k) implies exists|i: int| #[trigger]
            self.filled(slot_of(hasher.hash_of(k), self.slots.len()), i) && self.entry(
                slot_of(hasher.hash_of(k), self.slots.len()),
                i,
            ) == (k, self@[k]) by {
            let w = choose|w: V| self.holds(k, w);
            assert(self.holds(k, w));
            let (s2, i2) = choose|s2: int, i2: int| #[trigger]
                self.filled(s2, i2) && self.entry(s2, i2) == (k, w);
            assert(self.filled(slot_of(hasher.hash_of(k), self.slots.len()), i2));
        }
    }

    /// A map whose entries are those of the chains is the view.
    proof fn lemma_view_is(self, map: Map<K, V>)
        requires
            forall|s: int, i: int| #[trigger]
                self.filled(s, i) ==> map.contains_key(self.entry(s, i).0)
                    && map[self.entry(s, i).0] == self.entry(s, i).1,
            forall|k: K| #[trigger] map.contains_key(k) ==> self.holds(k, map[k]),
        ensures
            self@ == map,
    {
        assert forall|k: K| #[trigger] self@.contains_key(k) implies map.contains_key(k)
            && self@[k] == map[k] by {
            let w = choose|w: V| self.holds(k, w);
            assert(self.holds(k, w));
            let (s2, i2) = choose|s2: int, i2: int| #[trigger]
                self.filled(s2, i2) && self.entry(s2, i2) == (k, w);
            assert(map.contains_key(self.entry(s2, i2).0));
        }
        assert(self@ =~= map);
    }
}

/// The entries of the first `n` chains, chain by chain, each from its head.
spec fn walked<K, V>(slots: Seq<Vec<(K, V)>>, n: nat) -> Seq<(K, V)>
    decreases n,
{
    if n == 0 {
        Seq::empty()
    } else {
        walked(slots, (n - 1) as nat) + slots[n - 1]@.reverse()
    }
}

impl<K, V> View for Table<K, V> {
    type V = Map<K, V>;

    closed spec fn view(&self) -> Map<K, V> {
        Map::new(|k: K| exists|v: V| self.holds(k, v), |k: K| choose|v: V| self.holds(k, v))
    }
}

impl<K, V> Table<K, V> {
    /// `size` empty chains.
    pub fn new<S: KeyHasher<K>>(hasher: &S, size: usize) -> (table: Self)
        ensures
            table.wf(*hasher),
            table.spec_size() == size,
            table@ == Map::<K, V>::empty(),
    {
        let mut slots: Vec<Vec<(K, V)>> = Vec::new();
        let mut i: usize = 0;
        while i < size
            invariant
                i <= size,
                slots@.len() == i,
                forall|j: int| 0 <= j < i ==> (#[trigger] slots@[j])@.len() == 0,
            decreases size - i,
        {
            slots.push(Vec::new());
            i = i + 1;
        }
        let table: Table<K, V> = Table { slots };
        proof {
            table.lemma_view_is(Map::<K, V>::empty());
        }
        table
    }

    /// The number of chains.
    pub fn size(&self) -> (size: usize)
        ensures
            size == self.spec_size(),
    {
        self.slots.len()
    }

    /// The chain into which `key` belongs.
    #[inline]
    fn slot_index<S: KeyHasher<K>>(&self, hasher: &S, key: &K) -> (slot: usize)
        requires
            self.wf(*hasher),
            self.spec_size() > 0,
        ensures
            slot == slot_of(hasher.hash_of(*key), self.slots.len()),
            slot < self.slots@.len(),
    {
        (hasher.hash_key(key) as usize) % self.slots.len()
    }
}

impl<K: PartialEq, V> Table<K, V> {
    /// The place of `key` in chain `slot`, looked for from the head.
    fn find_in<S: KeyHasher<K>>(&self, hasher: &S, slot: usize, key: &K) -> (place: Option<usize>)
        requires
            vstd::laws_eq::obeys_concrete_eq::<K>(),
            self.wf(*hasher),
            slot == slot_of(hasher.hash_of(*key), self.slots.len()),
            slot < self.slots@.len(),
        ensures
            place is Some == self@.contains_key(*key),
            place matches Some(i) ==> self.filled(slot as int, i as int) && self.entry(
                slot as int,
                i as int,
            ) == (*key, self@[*key]),
    {
        proof {
            reveal(vstd::laws_eq::obeys_concrete_eq);
            self.lemma_view(*hasher);
        }
        let chain: &Vec<(K, V)> = &self.slots[slot];
        let mut i: usize = chain.len();
        while i > 0
            invariant
                vstd::laws_eq::obeys_concrete_eq::<K>(),
                slot < self.slots@.len(),
                chain == self.slots@[slot as int],
                i <= chain@.len(),
                forall|j: int| i <= j < chain@.len() ==> (#[trigger] chain@[j]).0 != *key,
                forall|s: int, j: int| #[trigger]
                    self.filled(s, j) ==> self@.contains_key(self.entry(s, j).0)
                        && self@[self.entry(s, j).0] == self.entry(s, j).1,
            decreases i,
        {
            proof {
                reveal(vstd::laws_eq::obeys_concrete_eq);
            }
            i = i - 1;
            if chain[i].0 == *key {
                assert(self.filled(slot as int, i as int));
                return Some(i);
            }
        }
        proof {
            if self@.contains_key(*key) {
                let j = choose|j: int| #[trigger]
                    self.filled(slot as int, j) && self.entry(slot as int, j) == (
                        *key,
                        self@[*key],
                    );
                assert(chain@[j].0 == *key);
            }
        }
        None
    }

    /// The value of `key`.
    pub fn get<S: KeyHasher<K>>(&self, hasher: &S, key: &K) -> (value: Option<&V>)
        requires
            vstd::laws_eq::obeys_concrete_eq::<K>(),
            self.wf(*hasher),
            self.spec_size() > 0,
        ensures
            value is Some == self@.contains_key(*key),
            value matches Some(v) ==> *v == self@[*key],
    {
        let slot: usize = self.slot_index(hasher, key);
        match self.find_in(hasher, slot, key) {
            Some(i) => Some(&self.slots[slot][i].1),
            None => None,
        }
    }

    /// Whether `key` has a value.
    pub fn contains<S: KeyHasher<K>>(&self, hasher: &S, key: &K) -> (found: bool)
        requires
            vstd::laws_eq::obeys_concrete_eq::<K>(),
            self.wf(*hasher),
            self.spec_size() > 0,
        ensures
            found == self@.contains_key(*key),
    {
        let slot: usize = self.slot_index(hasher, key);
        self.find_in(hasher, slot, key).is_some()
    }

    /// Adds a key that has no value yet, at the head of its chain.
    fn attach<S: KeyHasher<K>>(&mut self, hasher: &S, slot: usize, key: K, value: V)
        requires
            old(self).wf(*hasher),
            !old(self)@.contains_key(key),
            slot == slot_of(hasher.hash_of(key), old(self).slots.len()),
            slot < old(self).slots@.len(),
        ensures
            final(self).wf(*hasher),
            final(self).spec_size() == old(self).spec_size(),
            final(self)@ == old(self)@.insert(key, value),
            heads_its_chain(
                old(self).walk(),
                final(self).walk(),
                (key, value),
                *hasher,
                old(self).spec_size(),
            ),
    {
        proof {
            self.lemma_view(*hasher);
        }
        let ghost before = *self;
        self.slots[slot].push((key, value));
        proof {
            lemma_attached(before, *self, *hasher, slot as int, (key, value));
        }
        proof {
            let s = slot as int;
            let n = before.slots@[s]@.len() as int;
            assert forall|t: int, i: int| #[trigger] self.filled(t, i) implies {
                ||| before.filled(t, i) && self.entry(t, i) == before.entry(t, i)
                ||| t == s && i == n && self.entry(t, i) == (key, value)
            } by {}
            assert forall|t: int, i: int| #[trigger] before.filled(t, i) implies self.filled(t, i)
                && self.entry(t, i) == before.entry(t, i) by {}
            let map = before@.insert(key, value);
            assert forall|k: K| #[trigger] map.contains_key(k) implies self.holds(k, map[k]) by {
                if k == key {
                    assert(self.filled(s, n));
                } else {
                    let t = slot_of(hasher.hash_of(k), before.slots.len());
                    let i = choose|i: int| #[trigger]
                        before.filled(t, i) && before.entry(t, i) == (k, before@[k]);
                    assert(self.filled(t, i));
                }
            }
            self.lemma_view_is(map);
        }
    }

    /// Gives `key` the value `value`; returns the value that it had. A new key goes
    /// to the head of its chain.
    pub fn insert<S: KeyHasher<K>>(&mut self, hasher: &S, key: K, value: V) -> (had: Option<V>)
        requires
            vstd::laws_eq::obeys_concrete_eq::<K>(),
            old(self).wf(*hasher),
            old(self).spec_size() > 0,
        ensures
            final(self).wf(*hasher),
            final(self).spec_size() == old(self).spec_size(),
            final(self)@ == old(self)@.insert(key, value),
            had == (if old(self)@.contains_key(key) {
                Some(old(self)@[key])
            } else {
                None
            }),
            !old(self)@.contains_key(key) ==> heads_its_chain(
                old(self).walk(),
                final(self).walk(),
                (key, value),
                *hasher,
                old(self).spec_size(),
            ),
            old(self)@.contains_key(key) ==> replaced_in_place(
                old(self).walk(),
                final(self).walk(),
                key,
                value,
            ),
    {
        let slot: usize = self.slot_index(hasher, &key);
        match self.find_in(hasher, slot, &key) {
            Some(i) => {
                let ghost before = *self;
                let mut value: V = value;
                proof {
                    self.lemma_view(*hasher);
                }
                std::mem::swap(&mut self.slots[slot][i].1, &mut value);
                proof {
                    self.lemma_replaced(before, *hasher, slot as int, i as int);
                }
                Some(value)
            },
            None => {
                self.attach(hasher, slot, key, value);
                None
            },
        }
    }

    /// Replacing the value of one entry replaces the value of its key.
    proof fn lemma_replaced<S: KeyHasher<K>>(self, before: Self, hasher: S, s: int, i: int)
        requires
            before.wf(hasher),
            before.filled(s, i),
            self.slots@.len() == before.slots@.len(),
            forall|t: int| 0 <= t < before.slots@.len() && t != s ==> self.slots@[t]@
                == before.slots@[t]@,
            self.slots@[s]@ == before.slots@[s]@.update(
                i,
                (before.entry(s, i).0, self.entry(s, i).1),
            ),
        ensures
            self.wf(hasher),
            self@ == before@.insert(before.entry(s, i).0, self.entry(s, i).1),
            replaced_in_place(
                before.walk(),
                self.walk(),
                before.entry(s, i).0,
                self.entry(s, i).1,
            ),
    {
        lemma_walk_replaced(before, self, hasher, s, i);
        before.lemma_view(hasher);
        let key = before.entry(s, i).0;
        let map = before@.insert(key, self.entry(s, i).1);
        assert forall|t: int, j: int| #[trigger] self.filled(t, j) implies before.filled(t, j)
            && self.entry(t, j).0 == before.entry(t, j).0 && (self.entry(t, j) == before.entry(t, j)
            || (t == s && j == i)) by {}
        assert forall|k: K| #[trigger] map.contains_key(k) implies self.holds(k, map[k]) by {
            if k == key {
                assert(self.filled(s, i));
            } else {
                let t = slot_of(hasher.hash_of(k), before.slots.len());
                let j = choose|j: int| #[trigger]
                    before.filled(t, j) && before.entry(t, j) == (k, before@[k]);
                assert(self.filled(t, j));
            }
        }
        assert forall|t: int, j: int| #[trigger] self.filled(t, j) implies map.contains_key(
            self.entry(t, j).0,
        ) && map[self.entry(t, j).0] == self.entry(t, j).1 by {
            assert(before.filled(t, j));
            if !(t == s && j == i) && before.entry(t, j).0 == key {
                assert(t == s);
                assert(before.filled(s, i));
            }
        }
        self.lemma_view_is(map);
    }

    /// Access to the value of `key`.
    pub fn get_mut<S: KeyHasher<K>>(&mut self, hasher: &S, key: &K) -> (value: Option<&mut V>)
        requires
            vstd::laws_eq::obeys_concrete_eq::<K>(),
            old(self).wf(*hasher),
            old(self).spec_size() > 0,
        ensures
            final(self).wf(*hasher),
            final(self).spec_size() == old(self).spec_size(),
            value is Some == old(self)@.contains_key(*key),
            value is None ==> final(self)@ == old(self)@ && final(self).walk() == old(self).walk(),
            value matches Some(v) ==> *v == old(self)@[*key] && final(self)@ == old(self)@.insert(
                *key,
                *final(v),
            ) && replaced_in_place(old(self).walk(), final(self).walk(), *key, *final(v)),
    {
        let slot: usize = self.slot_index(hasher, key);
        match self.find_in(hasher, slot, key) {
            Some(i) => {
                let ghost before = *self;
                let v: &mut V = &mut self.slots[slot][i].1;
                proof {
                    after_borrow(*self).lemma_replaced(before, *hasher, slot as int, i as int);
                }
                Some(v)
            },
            None => None,
        }
    }

    /// Taking one entry out of its chain takes its key out of the map.
    proof fn lemma_removed<S: KeyHasher<K>>(self, before: Self, hasher: S, s: int, i: int)
        requires
            before.wf(hasher),
            before.filled(s, i),
            self.slots@.len() == before.slots@.len(),
            forall|t: int| 0 <= t < before.slots@.len() && t != s ==> self.slots@[t]@
                == before.slots@[t]@,
            self.slots@[s]@ == before.slots@[s]@.remove(i),
        ensures
            self.wf(hasher),
            self@ == before@.remove(before.entry(s, i).0),
    {
        before.lemma_view(hasher);
        let key = before.entry(s, i).0;
        let map = before@.remove(key);
        assert forall|t: int, j: int| #[trigger] self.filled(t, j) implies {
            let j0 = if t == s && j >= i {
                j + 1
            } else {
                j
            };
            before.filled(t, j0) && self.entry(t, j) == before.entry(t, j0)
        } by {}
        assert forall|k: K| #[trigger] map.contains_key(k) implies self.holds(k, map[k]) by {
            let t = slot_of(hasher.hash_of(k), before.slots.len());
            let j = choose|j: int| #[trigger]
                before.filled(t, j) && before.entry(t, j) == (k, before@[k]);
            let j1 = if t == s && j > i {
                j - 1
            } else {
                j
            };
            assert(self.filled(t, j1));
            assert(self.entry(t, j1) == (k, map[k]));
        }
        assert forall|t: int, j: int| #[trigger] self.filled(t, j) implies map.contains_key(
            self.entry(t, j).0,
        ) && map[self.entry(t, j).0] == self.entry(t, j).1 && slot_of(
            hasher.hash_of(self.entry(t, j).0),
            self.slots.len(),
        ) == t by {
            let j0 = if t == s && j >= i {
                j + 1
            } else {
                j
            };
            assert(before.filled(t, j0));
            if before.entry(t, j0).0 == key {
                assert(t == s);
                assert(before.filled(s, i));
            }
        }
        assert forall|t: int, j: int, l: int|
            #![trigger self.filled(t, j), self.filled(t, l)]
            self.filled(t, j) && self.filled(t, l) && j != l implies self.entry(t, j).0
            != self.entry(t, l).0 by {
            let j0 = if t == s && j >= i {
                j + 1
            } else {
                j
            };
            let l0 = if t == s && l >= i {
                l + 1
            } else {
                l
            };
            assert(before.filled(t, j0) && before.filled(t, l0));
        }
        self.lemma_view_is(map);
    }

    /// Removes `key`; returns the value that it had.
    pub fn remove<S: KeyHasher<K>>(&mut self, hasher: &S, key: &K) -> (had: Option<V>)
        requires
            vstd::laws_eq::obeys_concrete_eq::<K>(),
            old(self).wf(*hasher),
            old(self).spec_size() > 0,
        ensures
            final(self).wf(*hasher),
            final(self).spec_size() == old(self).spec_size(),
            final(self)@ == old(self)@.remove(*key),
            had == (if old(self)@.contains_key(*key) {
                Some(old(self)@[*key])
            } else {
                None
            }),
            old(self)@.contains_key(*key) ==> taken_out(
                old(self).walk(),
                final(self).walk(),
                *key,
            ),
            !old(self)@.contains_key(*key) ==> final(self).walk() == old(self).walk(),
    {
        let slot: usize = self.slot_index(hasher, key);
        match self.find_in(hasher, slot, key) {
            Some(i) => {
                let ghost before = *self;
                let (_, value): (K, V) = self.slots[slot].remove(i);
                proof {
                    self.lemma_removed(before, *hasher, slot as int, i as int);
                    lemma_walk_without(before, *self, slot as int, i as int);
                }
                Some(value)
            },
            None => {
                assert(self@.remove(*key) =~= self@);
                None
            },
        }
    }

    /// Takes the head out of chain `slot`.
    fn detach<S: KeyHasher<K>>(&mut self, hasher: &S, slot: usize) -> (head: Option<(K, V)>)
        requires
            old(self).wf(*hasher),
            slot < old(self).slots@.len(),
        ensures
            final(self).wf(*hasher),
            final(self).slots@.len() == old(self).slots@.len(),
            forall|t: int| 0 <= t < old(self).slots@.len() && t != slot ==> final(self).slots@[t]@
                == old(self).slots@[t]@,
            head is None == (old(self).slots@[slot as int]@.len() == 0),
            head is None ==> *final(self) == *old(self),
            head matches Some((k, v)) ==> {
                &&& old(self)@.contains_key(k)
                &&& old(self)@[k] == v
                &&& final(self)@ == old(self)@.remove(k)
                &&& final(self).slots@[slot as int]@.len() == old(self).slots@[slot as int]@.len()
                    - 1
                &&& (forall|t: int| 0 <= t < slot ==> (#[trigger] old(self).slots@[t])@.len() == 0)
                    ==> old(self).walk().len() > 0 && old(self).walk()[0] == (k, v)
                    && final(self).walk() == old(self).walk().skip(1)
            },
    {
        let ghost before = *self;
        if self.slots[slot].len() == 0 {
            return None;
        }
        let head: Option<(K, V)> = self.slots[slot].pop();
        proof {
            let s = slot as int;
            let i = before.slots@[s]@.len() - 1;
            assert(before.filled(s, i));
            before.lemma_view(*hasher);
            assert(self.slots@[s]@ =~= before.slots@[s]@.remove(i));
            self.lemma_removed(before, *hasher, s, i);
            lemma_walk_without_entry(before.slots@, self.slots@, s, i, before.slots@.len());
            if forall|t: int| 0 <= t < slot ==> (#[trigger] before.slots@[t])@.len() == 0 {
                lemma_walk_over_nothing(before.slots@, slot as nat);
                assert(before.walk().remove(0) =~= before.walk().skip(1));
            }
        }
        head
    }

    /// Moves every entry into `new_size` new chains. Each key keeps its value. A
    /// table without chains has no entry to move.
    pub fn rehash<S: KeyHasher<K>>(&mut self, hasher: &S, new_size: usize)
        requires
            old(self).wf(*hasher),
            new_size > 0 || old(self).spec_size() == 0,
        ensures
            final(self).wf(*hasher),
            final(self).spec_size() == new_size,
            final(self)@ == old(self)@,
            moved_in_order(old(self).walk(), final(self).walk(), *hasher, new_size),
    {
        let ghost whole = self@;
        let ghost walk = self.walk();
        let mut moved: Table<K, V> = Table::new(hasher, new_size);
        let old_size: usize = self.slots.len();
        let mut slot: usize = 0;
        let ghost mut done: nat = 0;
        assert(self@.union_prefer_right(moved@) =~= whole);
        proof {
            assert forall|t: int| 0 <= t < new_size implies (#[trigger] moved.slots@[t])@.len()
                == 0 by {
                if moved.slots@[t]@.len() > 0 {
                    moved.lemma_view(*hasher);
                    assert(moved.filled(t, 0));
                    assert(moved@.contains_key(moved.entry(t, 0).0));
                }
            }
            lemma_walk_over_nothing(moved.slots@, new_size as nat);
            assert(walk.skip(0) =~= walk);
            assert(walk.take(0) =~= Seq::empty());
        }
        while slot < old_size
            invariant
                slot <= old_size,
                old_size == self.slots@.len(),
                self.wf(*hasher),
                moved.wf(*hasher),
                moved.spec_size() == new_size,
                new_size > 0 || old_size == 0,
                self@.dom().disjoint(moved@.dom()),
                self@.union_prefer_right(moved@) == whole,
                forall|t: int| 0 <= t < slot ==> (#[trigger] self.slots@[t])@.len() == 0,
                done <= walk.len(),
                self.walk() == walk.skip(done as int),
                moved_in_order(walk.take(done as int), moved.walk(), *hasher, new_size),
            decreases old_size - slot,
        {
            loop
                invariant
                    slot < old_size,
                    old_size == self.slots@.len(),
                    self.wf(*hasher),
                    moved.wf(*hasher),
                    moved.spec_size() == new_size,
                    new_size > 0,
                    self@.dom().disjoint(moved@.dom()),
                    self@.union_prefer_right(moved@) == whole,
                    forall|t: int| 0 <= t < slot ==> (#[trigger] self.slots@[t])@.len() == 0,
                    done <= walk.len(),
                    self.walk() == walk.skip(done as int),
                    moved_in_order(walk.take(done as int), moved.walk(), *hasher, new_size),
                ensures
                    self.slots@[slot as int]@.len() == 0,
                decreases self.slots@[slot as int]@.len(),
            {
                let ghost rest = self@;
                let ghost so_far = moved@;
                let ghost built = moved.walk();
                match self.detach(hasher, slot) {
                    Some((key, value)) => {
                        let new_slot: usize = moved.slot_index(hasher, &key);
                        moved.attach(hasher, new_slot, key, value);
                        proof {
                            assert(self@.union_prefer_right(moved@) =~= rest.union_prefer_right(
                                so_far,
                            ));
                            let entry = walk[done as int];
                            assert(walk.skip(done as int).skip(1) =~= walk.skip(done as int + 1));
                            assert(walk.take(done as int + 1) =~= walk.take(done as int).push(entry));
                            lemma_moved_one_more(
                                walk.take(done as int),
                                built,
                                moved.walk(),
                                entry,
                                *hasher,
                                new_size,
                            );
                            done = done + 1;
                        }
                    },
                    None => {
                        break;
                    },
                }
            }
            slot = slot + 1;
        }
        proof {
            self.lemma_view(*hasher);
            assert forall|k: K| !self@.contains_key(k) by {
                if self@.contains_key(k) {
                    let t = slot_of(hasher.hash_of(k), self.slots.len());
                    let i = choose|i: int| #[trigger] self.filled(t, i);
                    assert(self.slots@[t]@.len() == 0);
                }
            }
            assert(moved@ =~= whole);
            lemma_walk_over_nothing(self.slots@, old_size as nat);
            assert(walk.take(done as int) =~= walk);
        }
        std::mem::swap(&mut self.slots, &mut moved.slots);
    }
}

/// The entries of the first `n` chains belong there, and those from chain `m` on
/// stand behind the entries of the first `m` chains.
proof fn lemma_walk_is_by_chain<K, V, S: KeyHasher<K>>(
    table: Table<K, V>,
    hasher: S,
    m: nat,
    n: nat,
)
    requires
        table.wf(hasher),
        m <= n <= table.slots@.len(),
    ensures
        walked(table.slots@, m).len() <= walked(table.slots@, n).len(),
        forall|q: int|
            0 <= q < walked(table.slots@, m).len() ==> slot_of(
                hasher.hash_of((#[trigger] walked(table.slots@, n)[q]).0),
                table.slots.len(),
            ) < m,
        forall|q: int|
            walked(table.slots@, m).len() <= q < walked(table.slots@, n).len() ==> slot_of(
                hasher.hash_of((#[trigger] walked(table.slots@, n)[q]).0),
                table.slots.len(),
            ) >= m,
    decreases n,
{
    if n > 0 {
        let chain = table.slots@[n - 1]@;
        let front = walked(table.slots@, (n - 1) as nat);
        let all = walked(table.slots@, n);
        assert forall|q: int| front.len() <= q < all.len() implies slot_of(
            hasher.hash_of((#[trigger] all[q]).0),
            table.slots.len(),
        ) == n - 1 by {
            let i = chain.len() - 1 - (q - front.len());
            assert(table.filled(n - 1, i));
            assert(table.entry(n - 1, i) == all[q]);
        }
        if m < n {
            lemma_walk_is_by_chain(table, hasher, m, (n - 1) as nat);
        } else {
            lemma_walk_is_by_chain(table, hasher, (n - 1) as nat, (n - 1) as nat);
        }
        assert forall|q: int| 0 <= q < front.len() implies #[trigger] all[q] == front[q] by {}
    }
}

/// A new head of chain `b` comes in front of the entries of its chain when the
/// first `n` chains are walked.
proof fn lemma_walk_with_head<K, V>(
    before: Seq<Vec<(K, V)>>,
    after: Seq<Vec<(K, V)>>,
    b: int,
    entry: (K, V),
    n: nat,
)
    requires
        before.len() == after.len(),
        0 <= b < before.len(),
        n <= before.len(),
        after[b]@ == before[b]@.push(entry),
        forall|t: int| 0 <= t < before.len() && t != b ==> after[t] == before[t],
    ensures
        n <= b ==> walked(after, n) == walked(before, n),
        n > b ==> walked(before, b as nat).len() <= walked(before, n).len() && walked(after, n)
            == walked(before, n).insert(walked(before, b as nat).len() as int, entry),
    decreases n,
{
    if n > 0 {
        lemma_walk_with_head(before, after, b, entry, (n - 1) as nat);
        if n > b {
            let p = walked(before, b as nat).len() as int;
            if n == b + 1 {
                assert(after[b]@.reverse() =~= seq![entry] + before[b]@.reverse());
            }
            assert(walked(after, n) =~= walked(before, n).insert(p, entry));
        }
    }
}

/// A table with a new head in chain `s` is walked with the new entry in front of
/// its chain.
proof fn lemma_attached<K, V, S: KeyHasher<K>>(
    before: Table<K, V>,
    after: Table<K, V>,
    hasher: S,
    s: int,
    entry: (K, V),
)
    requires
        before.wf(hasher),
        0 <= s < before.slots@.len(),
        s == slot_of(hasher.hash_of(entry.0), before.slots.len()),
        after.slots@.len() == before.slots@.len(),
        after.slots@[s]@ == before.slots@[s]@.push(entry),
        forall|t: int| 0 <= t < before.slots@.len() && t != s ==> after.slots@[t]
            == before.slots@[t],
    ensures
        heads_its_chain(before.walk(), after.walk(), entry, hasher, before.spec_size()),
{
    let n = before.slots@.len();
    lemma_walk_is_by_chain(before, hasher, s as nat, n);
    lemma_walk_with_head(before.slots@, after.slots@, s, entry, n);
    let p = walked(before.slots@, s as nat).len() as int;
    assert(after.walk() == before.walk().insert(p, entry));
}

/// Chains without entries are walked without meeting any.
proof fn lemma_walk_over_nothing<K, V>(slots: Seq<Vec<(K, V)>>, n: nat)
    requires
        n <= slots.len(),
        forall|t: int| 0 <= t < n ==> (#[trigger] slots[t])@.len() == 0,
    ensures
        walked(slots, n).len() == 0,
        walked(slots, n) == Seq::<(K, V)>::empty(),
    decreases n,
{
    if n > 0 {
        lemma_walk_over_nothing(slots, (n - 1) as nat);
        assert(slots[n - 1]@.len() == 0);
    }
    assert(walked(slots, n) =~= Seq::<(K, V)>::empty());
}

/// Moving the next entry to the head of its chain keeps the order of the move.
proof fn lemma_moved_one_more<K, V, S: KeyHasher<K>>(
    before: Seq<(K, V)>,
    built: Seq<(K, V)>,
    after: Seq<(K, V)>,
    entry: (K, V),
    hasher: S,
    size: usize,
)
    requires
        moved_in_order(before, built, hasher, size),
        heads_its_chain(built, after, entry, hasher, size),
    ensures
        moved_in_order(before.push(entry), after, hasher, size),
{
    let all = before.push(entry);
    let at = choose|p: int|
        #![trigger built.insert(p, entry)]
        {
            &&& 0 <= p <= built.len()
            &&& after == built.insert(p, entry)
            &&& forall|q: int|
                0 <= q < p ==> slot_of(hasher.hash_of((#[trigger] built[q]).0), size) < slot_of(
                    hasher.hash_of(entry.0),
                    size,
                )
            &&& forall|q: int|
                p <= q < built.len() ==> slot_of(hasher.hash_of((#[trigger] built[q]).0), size)
                    >= slot_of(hasher.hash_of(entry.0), size)
        };
    assert forall|i: int| 0 <= i < after.len() && i != at implies #[trigger] after[i] == (if i < at {
        built[i]
    } else {
        built[i - 1]
    }) by {}
    assert(after[at] == entry);
    assert(all[before.len() as int] == entry);
    assert forall|i: int| 0 <= i < built.len() implies exists|p: int|
        0 <= p < before.len() && #[trigger] before[p] == #[trigger] built[i] by {
        assert(before.contains(built[i]));
    }
    assert forall|i: int| 0 <= i < after.len() implies all.contains(#[trigger] after[i]) by {
        if i != at {
            let k = if i < at { i } else { i - 1 };
            let p = choose|p: int| 0 <= p < before.len() && #[trigger] before[p] == built[k];
            assert(all[p] == after[i]);
        }
    }
    assert forall|i: int, j: int|
        0 <= i < j < after.len() && slot_of(hasher.hash_of((#[trigger] after[i]).0), size)
            == slot_of(hasher.hash_of((#[trigger] after[j]).0), size) implies exists|
        p: int,
        q: int,
    |
        0 <= p < q < all.len() && #[trigger] all[p] == after[j] && #[trigger] all[q] == after[i] by {
        let y = if j < at { j } else { j - 1 };
        if i == at {
            let p = choose|p: int| 0 <= p < before.len() && #[trigger] before[p] == built[y];
            assert(all[p] == after[j] && all[before.len() as int] == after[i]);
        } else if j == at {
            assert(after[i] == built[i]);
        } else {
            let x = if i < at { i } else { i - 1 };
            assert(built[x] == after[i] && built[y] == after[j]);
            let (p, q) = choose|p: int, q: int|
                0 <= p < q < before.len() && #[trigger] before[p] == built[y] && #[trigger] before[q]
                    == built[x];
            assert(all[p] == after[j] && all[q] == after[i]);
        }
    }
}

/// The walk over `n` chains after an entry of chain `b` has been replaced.
proof fn lemma_walk_with_entry<K, V>(
    before: Seq<Vec<(K, V)>>,
    after: Seq<Vec<(K, V)>>,
    b: int,
    i: int,
    entry: (K, V),
    n: nat,
)
    requires
        before.len() == after.len(),
        0 <= b < before.len(),
        0 <= i < before[b]@.len(),
        n <= before.len(),
        after[b]@ == before[b]@.update(i, entry),
        forall|t: int| 0 <= t < before.len() && t != b ==> after[t]@ == before[t]@,
    ensures
        n <= b ==> walked(after, n) == walked(before, n),
        n > b ==> walked(before, b as nat).len() + before[b]@.len() <= walked(before, n).len()
            && walked(after, n) == walked(before, n).update(
            walked(before, b as nat).len() + (before[b]@.len() - 1 - i),
            entry,
        ),
    decreases n,
{
    if n > 0 {
        lemma_walk_with_entry(before, after, b, i, entry, (n - 1) as nat);
        if n > b {
            if n == b + 1 {
                assert(after[b]@.reverse() =~= before[b]@.reverse().update(
                    before[b]@.len() - 1 - i,
                    entry,
                ));
            }
            assert(walked(after, n) =~= walked(before, n).update(
                walked(before, b as nat).len() + (before[b]@.len() - 1 - i),
                entry,
            ));
        }
    }
}

/// The walk over `n` chains after an entry of chain `b` has been taken out.
proof fn lemma_walk_without_entry<K, V>(
    before: Seq<Vec<(K, V)>>,
    after: Seq<Vec<(K, V)>>,
    b: int,
    i: int,
    n: nat,
)
    requires
        before.len() == after.len(),
        0 <= b < before.len(),
        0 <= i < before[b]@.len(),
        n <= before.len(),
        after[b]@ == before[b]@.remove(i),
        forall|t: int| 0 <= t < before.len() && t != b ==> after[t]@ == before[t]@,
    ensures
        n <= b ==> walked(after, n) == walked(before, n),
        n > b ==> walked(before, b as nat).len() + before[b]@.len() <= walked(before, n).len()
            && walked(after, n) == walked(before, n).remove(
            walked(before, b as nat).len() + (before[b]@.len() - 1 - i),
        ) && walked(before, n)[walked(before, b as nat).len() + (before[b]@.len() - 1 - i)]
            == before[b]@[i],
    decreases n,
{
    if n > 0 {
        lemma_walk_without_entry(before, after, b, i, (n - 1) as nat);
        if n > b {
            if n == b + 1 {
                assert(after[b]@.reverse() =~= before[b]@.reverse().remove(
                    before[b]@.len() - 1 - i,
                ));
            }
            assert(walked(after, n) =~= walked(before, n).remove(
                walked(before, b as nat).len() + (before[b]@.len() - 1 - i),
            ));
        }
    }
}

/// A replaced value stands where the one before it stood.
proof fn lemma_walk_replaced<K, V, S: KeyHasher<K>>(
    before: Table<K, V>,
    after: Table<K, V>,
    hasher: S,
    s: int,
    i: int,
)
    requires
        before.wf(hasher),
        before.filled(s, i),
        after.slots@.len() == before.slots@.len(),
        forall|t: int| 0 <= t < before.slots@.len() && t != s ==> after.slots@[t]@
            == before.slots@[t]@,
        after.slots@[s]@ == before.slots@[s]@.update(
            i,
            (before.entry(s, i).0, after.entry(s, i).1),
        ),
    ensures
        replaced_in_place(
            before.walk(),
            after.walk(),
            before.entry(s, i).0,
            after.entry(s, i).1,
        ),
{
    let n = before.slots@.len();
    let entry = (before.entry(s, i).0, after.entry(s, i).1);
    lemma_walk_with_entry(before.slots@, after.slots@, s, i, entry, n);
    lemma_walk_position(before.slots@, s as nat, n);
    lemma_walked(before, hasher, n);
    let chain = before.slots@[s]@;
    let pos = walked(before.slots@, s as nat).len() + (chain.len() - 1 - i);
    assert(chain.reverse()[chain.len() - 1 - i] == chain[i]);
    assert(before.walk()[pos] == before.entry(s, i));
}

/// Taking an entry out leaves the walk as it is but for that entry.
proof fn lemma_walk_without<K, V>(before: Table<K, V>, after: Table<K, V>, s: int, i: int)
    requires
        before.filled(s, i),
        after.slots@.len() == before.slots@.len(),
        forall|t: int| 0 <= t < before.slots@.len() && t != s ==> after.slots@[t]@
            == before.slots@[t]@,
        after.slots@[s]@ == before.slots@[s]@.remove(i),
    ensures
        taken_out(before.walk(), after.walk(), before.entry(s, i).0),
{
    let n = before.slots@.len();
    lemma_walk_without_entry(before.slots@, after.slots@, s, i, n);
    let pos = walked(before.slots@, s as nat).len() + (before.slots@[s]@.len() - 1 - i);
    assert(after.walk() == before.walk().remove(pos));
}

/// The entries of the first `n` chains: what each of them is, and that they come
/// in the order of their chains.
proof fn lemma_walked<K, V, S: KeyHasher<K>>(table: Table<K, V>, hasher: S, n: nat)
    requires
        table.wf(hasher),
        n <= table.slots@.len(),
    ensures
        forall|p: int|
            0 <= p < walked(table.slots@, n).len() ==> table.within(
                n,
                #[trigger] walked(table.slots@, n)[p],
            ),
        forall|s: int, i: int|
            s < n && #[trigger] table.filled(s, i) ==> walked(table.slots@, n).contains(
                table.entry(s, i),
            ),
        forall|p: int, q: int|
            0 <= p < q < walked(table.slots@, n).len() ==> (#[trigger] walked(table.slots@, n)[p]).0
                != (#[trigger] walked(table.slots@, n)[q]).0,
    decreases n,
{
    if n > 0 {
        let m = (n - 1) as nat;
        let chain = table.slots@[m as int]@;
        let before = walked(table.slots@, m);
        let after = walked(table.slots@, n);
        lemma_walked(table, hasher, m);
        assert(after == before + chain.reverse());
        assert forall|p: int| 0 <= p < after.len() implies table.within(n, #[trigger] after[p]) by {
            if p < before.len() {
                assert(after[p] == before[p]);
                let (s, i) = choose|s: int, i: int|
                    s < m && #[trigger] table.filled(s, i) && table.entry(s, i) == before[p];
                assert(s < n && table.filled(s, i));
            } else {
                let i = chain.len() - 1 - (p - before.len());
                assert(table.filled(m as int, i));
                assert(table.entry(m as int, i) == after[p]);
            }
        }
        assert forall|s: int, i: int| s < n && #[trigger] table.filled(s, i) implies after.contains(
            table.entry(s, i),
        ) by {
            if s < m {
                let p = choose|p: int| 0 <= p < before.len() && before[p] == table.entry(s, i);
                assert(after[p] == table.entry(s, i));
            } else {
                let p = before.len() + (chain.len() - 1 - i);
                assert(after[p] == table.entry(s, i));
            }
        }
        assert forall|p: int, q: int| 0 <= p < q < after.len() implies (#[trigger] after[p]).0 != (
        #[trigger] after[q]).0 by {
            if q < before.len() {
                assert(before[p].0 != before[q].0);
            } else {
                let j = chain.len() - 1 - (q - before.len());
                assert(table.filled(m as int, j) && table.entry(m as int, j) == after[q]);
                if p < before.len() {
                    assert(after[p] == before[p]);
                    let (s, i) = choose|s: int, i: int|
                        s < m && #[trigger] table.filled(s, i) && table.entry(s, i) == before[p];
                    assert(slot_of(hasher.hash_of(table.entry(s, i).0), table.slots.len()) == s);
                } else {
                    let i = chain.len() - 1 - (p - before.len());
                    assert(table.filled(m as int, i) && table.entry(m as int, i) == after[p]);
                }
            }
        }
    }
}

impl<K, V> Table<K, V> {
    /// Walking the chains meets every key of the map once, with its value.
    pub proof fn lemma_walk_enumerates<S: KeyHasher<K>>(self, hasher: S)
        requires
            self.wf(hasher),
        ensures
            enumerates(self@, self.walk()),
    {
        let n = self.slots@.len();
        let e = self.walk();
        lemma_walked(self, hasher, n);
        self.lemma_view(hasher);
        assert forall|p: int| 0 <= p < e.len() implies self@.contains_key((#[trigger] e[p]).0)
            && self@[e[p].0] == e[p].1 by {
            let (s, i) = choose|s: int, i: int|
                s < n && #[trigger] self.filled(s, i) && self.entry(s, i) == e[p];
            assert(self.filled(s, i));
        }
        assert forall|k: K| self@.contains_key(k) implies exists|p: int|
            0 <= p < e.len() && (#[trigger] e[p]).0 == k by {
            let s = slot_of(hasher.hash_of(k), self.slots.len());
            let i = choose|i: int| #[trigger] self.filled(s, i) && self.entry(s, i) == (k, self@[k]);
            let p = choose|p: int| 0 <= p < e.len() && e[p] == self.entry(s, i);
            assert(e[p].0 == k);
        }
        let keys = Seq::new(e.len(), |p: int| e[p].0);
        assert(keys.no_duplicates());
        keys.unique_seq_to_set();
        assert(keys.to_set() =~= self@.dom()) by {
            assert forall|k: K| keys.to_set().contains(k) <==> self@.dom().contains(k) by {
                if self@.contains_key(k) {
                    let p = choose|p: int| 0 <= p < e.len() && (#[trigger] e[p]).0 == k;
                    assert(keys[p] == k);
                }
                if keys.to_set().contains(k) {
                    let p = choose|p: int| 0 <= p < keys.len() && keys[p] == k;
                    assert(e[p].0 == k);
                }
            }
        }
    }

    /// Every entry, in the order of the chains.
    pub fn entries(&self) -> (entries: Vec<(&K, &V)>)
        ensures
            entries@.len() == self.walk().len(),
            forall|p: int|
                0 <= p < entries@.len() ==> *(#[trigger] entries@[p]).0 == self.walk()[p].0
                    && *entries@[p].1 == self.walk()[p].1,
    {
        let mut entries: Vec<(&K, &V)> = Vec::new();
        let mut slot: usize = 0;
        while slot < self.slots.len()
            invariant
                slot <= self.slots@.len(),
                entries@.len() == walked(self.slots@, slot as nat).len(),
                forall|p: int|
                    0 <= p < entries@.len() ==> *(#[trigger] entries@[p]).0 == walked(
                        self.slots@,
                        slot as nat,
                    )[p].0 && *entries@[p].1 == walked(self.slots@, slot as nat)[p].1,
            decreases self.slots@.len() - slot,
        {
            let chain: &Vec<(K, V)> = &self.slots[slot];
            let ghost before = walked(self.slots@, slot as nat);
            let mut i: usize = chain.len();
            while i > 0
                invariant
                    i <= chain@.len(),
                    entries@.len() == before.len() + (chain@.len() - i),
                    forall|p: int|
                        0 <= p < entries@.len() ==> *(#[trigger] entries@[p]).0 == (before
                            + chain@.reverse())[p].0 && *entries@[p].1 == (before
                            + chain@.reverse())[p].1,
                decreases i,
            {
                i = i - 1;
                entries.push((&chain[i].0, &chain[i].1));
            }
            slot = slot + 1;
        }
        entries
    }
}

/// The entries of the first `b` chains come first in a walk, and those of chain
/// `b` follow.
proof fn lemma_walk_position<K, V>(slots: Seq<Vec<(K, V)>>, b: nat, n: nat)
    requires
        b < n <= slots.len(),
    ensures
        walked(slots, b).len() + slots[b as int]@.len() <= walked(slots, n).len(),
        forall|j: int|
            0 <= j < slots[b as int]@.len() ==> walked(slots, n)[walked(slots, b).len() + j]
                == #[trigger] slots[b as int]@.reverse()[j],
    decreases n,
{
    if b < n - 1 {
        lemma_walk_position(slots, b, (n - 1) as nat);
    }
}

/// A walk over the entries of a table, from the head of the first chain on.
pub struct Iter<'a, K, V> {
    table: &'a Table<K, V>,
    bucket_idx: usize,
    /// Entries of the chain that are still to come.
    current: usize,
}

impl<'a, K, V> Iter<'a, K, V> {
    /// The walk stands at an entry, or is over.
    pub closed spec fn wf(&self) -> bool {
        &&& self.bucket_idx <= self.table.slots@.len()
        &&& self.bucket_idx < self.table.slots@.len() ==> 0 < self.current
            <= self.table.slots@[self.bucket_idx as int]@.len()
    }

    /// The number of entries that the walk has met.
    closed spec fn met(&self) -> int {
        if self.bucket_idx < self.table.slots@.len() {
            walked(self.table.slots@, self.bucket_idx as nat).len() + (
            self.table.slots@[self.bucket_idx as int]@.len() - self.current)
        } else {
            self.table.walk().len() as int
        }
    }

    /// The entries that are still to come.
    pub closed spec fn remaining(&self) -> Seq<(K, V)> {
        self.table.walk().skip(self.met())
    }

    /// The table that is walked.
    pub closed spec fn spec_table(&self) -> Table<K, V> {
        *self.table
    }

    /// The chain at which the walk stands.
    pub closed spec fn at_chain(&self) -> Option<usize> {
        if self.bucket_idx < self.table.slots@.len() {
            Some(self.bucket_idx)
        } else {
            None
        }
    }

    /// A walk that stands at the first entry.
    pub fn new(table: &'a Table<K, V>) -> (iter: Self)
        ensures
            iter.wf(),
            iter.spec_table() == *table,
            iter.remaining() == table.walk(),
    {
        let mut iter: Iter<'a, K, V> = Iter { table, bucket_idx: 0, current: 0 };
        iter.advance_bucket();
        proof {
            assert(iter.table.walk().skip(0) =~= table.walk());
        }
        iter
    }

    /// Stands at the head of the next chain that is not empty, from
    /// `bucket_idx` on.
    fn advance_bucket(&mut self)
        requires
            old(self).bucket_idx <= old(self).table.slots@.len(),
        ensures
            final(self).wf(),
            final(self).table == old(self).table,
            final(self).met() == walked(
                old(self).table.slots@,
                old(self).bucket_idx as nat,
            ).len(),
    {
        let ghost before = walked(self.table.slots@, self.bucket_idx as nat).len();
        self.current = 0;
        while self.bucket_idx < self.table.slots.len()
            invariant
                self.table == old(self).table,
                self.bucket_idx <= self.table.slots@.len(),
                before == walked(self.table.slots@, self.bucket_idx as nat).len(),
                before == walked(old(self).table.slots@, old(self).bucket_idx as nat).len(),
            decreases self.table.slots@.len() - self.bucket_idx,
        {
            let chain_len: usize = self.table.slots[self.bucket_idx].len();
            if chain_len > 0 {
                self.current = chain_len;
                return;
            }
            self.bucket_idx = self.bucket_idx + 1;
        }
    }

    /// The next entry.
    pub fn next(&mut self) -> (entry: Option<(&'a K, &'a V)>)
        requires
            old(self).wf(),
        ensures
            final(self).wf(),
            final(self).spec_table() == old(self).spec_table(),
            entry is Some == (old(self).remaining().len() > 0),
            entry is None ==> final(self).remaining() == old(self).remaining(),
            entry matches Some((k, v)) ==> (*k, *v) == old(self).remaining()[0]
                && final(self).remaining() == old(self).remaining().skip(1),
    {
        let table: &'a Table<K, V> = self.table;
        if self.bucket_idx >= table.slots.len() {
            return None;
        }
        let ghost b = self.bucket_idx as int;
        let ghost walk = table.walk();
        let ghost met = self.met();
        let ghost chain = table.slots@[b]@;
        proof {
            lemma_walk_position(table.slots@, b as nat, table.slots@.len());
            let j = chain.len() - self.current;
            assert(chain.reverse()[j] == chain[self.current - 1]);
            assert(walk[met] == chain[self.current - 1]);
        }
        self.current = self.current - 1;
        let entry: &'a (K, V) = &table.slots[self.bucket_idx][self.current];
        if self.current == 0 {
            self.bucket_idx = self.bucket_idx + 1;
            self.advance_bucket();
        }
        proof {
            assert(self.met() == met + 1);
            assert(walk.skip(met).skip(1) =~= walk.skip(met + 1));
        }
        Some((&entry.0, &entry.1))
    }

    /// The chain at which the walk stands, which is to be kept from changing.
    pub fn locked_bucket(&self) -> (chain: Option<usize>)
        ensures
            chain == self.at_chain(),
    {
        if self.bucket_idx < self.table.slots.len() {
            Some(self.bucket_idx)
        } else {
            None
        }
    }

    /// While entries are to come, the walk stands at the chain that the key of
    /// the next one selects; after the last one it stands at none.
    pub proof fn law_walk_stands_at_next_key<S: KeyHasher<K>>(&self, hasher: S)
        requires
            self.wf(),
            self.spec_table().wf(hasher),
        ensures
            self.remaining().len() == 0 ==> self.at_chain() is None,
            self.remaining().len() > 0 ==> self.at_chain() is Some && self.at_chain()->0
                == slot_of(
                hasher.hash_of(self.remaining()[0].0),
                self.spec_table().spec_size(),
            ),
    {
        if self.bucket_idx < self.table.slots@.len() {
            let b = self.bucket_idx as int;
            let chain = self.table.slots@[b]@;
            lemma_walk_position(self.table.slots@, b as nat, self.table.slots@.len());
            let j = chain.len() - self.current;
            assert(chain.reverse()[j] == chain[self.current - 1]);
            assert(self.table.filled(b, self.current - 1));
            assert(self.remaining()[0] == self.table.entry(b, self.current - 1));
        }
    }
}

/// Keys share a chain exactly if their hashes leave the same remainder, so the
/// chains are used evenly; every chain index is one of the table.
pub proof fn law_chains_split_by_hash(first: u64, second: u64, size: usize)
    requires
        size > 0,
    ensures
        0 <= slot_of(first, size) < size,
        slot_of(first, size) == slot_of(second, size) <==> (first as usize as int) % (size as int)
            == (second as usize as int) % (size as int),
        first < size ==> slot_of(first, size) == first,
{
    if first < size {
        vstd::arithmetic::div_mod::lemma_small_mod(first as nat, size as nat);
    }
}

/// A list that enumerates a map has every key of it exactly once, with its value,
/// and nothing else: it is as long as the map is large.
pub proof fn law_enumeration_is_complete<K, V>(map: Map<K, V>, entries: Seq<(K, V)>, key: K)
    requires
        enumerates(map, entries),
    ensures
        map.contains_key(key) <==> exists|i: int|
            0 <= i < entries.len() && (#[trigger] entries[i]).0 == key,
        forall|i: int|
            0 <= i < entries.len() && (#[trigger] entries[i]).0 == key ==> entries[i].1
                == map[key],
        forall|i: int, j: int|
            0 <= i < entries.len() && 0 <= j < entries.len() && (#[trigger] entries[i]).0 == (
            #[trigger] entries[j]).0 ==> i == j,
        map.dom().finite() && map.len() == entries.len(),
{
    let keys = Seq::new(entries.len(), |i: int| entries[i].0);
    assert(keys.no_duplicates());
    keys.unique_seq_to_set();
    assert(keys.to_set() =~= map.dom()) by {
        assert forall|k: K| keys.to_set().contains(k) == map.dom().contains(k) by {
            if map.contains_key(k) {
                let i = choose|i: int| 0 <= i < entries.len() && (#[trigger] entries[i]).0 == k;
                assert(keys[i] == k);
            }
            if keys.contains(k) {
                let i = choose|i: int| 0 <= i < keys.len() && keys[i] == k;
                assert(map.contains_key(entries[i].0));
            }
        }
    }
    vstd::seq_lib::seq_to_set_is_finite(keys);
}

/// A new key is walked before every other key of its chain, and the walk is
/// otherwise what it was.
pub proof fn law_a_new_key_is_walked_first<K, V, S: KeyHasher<K>>(
    before: Seq<(K, V)>,
    after: Seq<(K, V)>,
    entry: (K, V),
    hasher: S,
    size: usize,
)
    requires
        heads_its_chain(before, after, entry, hasher, size),
    ensures
        after.len() == before.len() + 1,
        exists|p: int|
            #![trigger after[p]]
            {
                &&& 0 <= p < after.len()
                &&& after[p] == entry
                &&& after.remove(p) == before
                &&& forall|q: int|
                    0 <= q < p ==> slot_of(hasher.hash_of((#[trigger] after[q]).0), size)
                        != slot_of(hasher.hash_of(entry.0), size)
            },
{
    let p = choose|p: int|
        #![trigger before.insert(p, entry)]
        {
            &&& 0 <= p <= before.len()
            &&& after == before.insert(p, entry)
            &&& forall|q: int|
                0 <= q < p ==> slot_of(hasher.hash_of((#[trigger] before[q]).0), size) < slot_of(
                    hasher.hash_of(entry.0),
                    size,
                )
            &&& forall|q: int|
                p <= q < before.len() ==> slot_of(hasher.hash_of((#[trigger] before[q]).0), size)
                    >= slot_of(hasher.hash_of(entry.0), size)
        };
    assert(after[p] == entry);
    assert(after.remove(p) =~= before);
    assert forall|q: int| 0 <= q < p implies slot_of(
        hasher.hash_of((#[trigger] after[q]).0),
        size,
    ) != slot_of(hasher.hash_of(entry.0), size) by {
        assert(after[q] == before[q]);
    }
}

/// A value that is replaced, and a key that is taken out, leave the other entries
/// where they stand.
pub proof fn law_other_entries_stay_in_place<K, V>(
    before: Seq<(K, V)>,
    after: Seq<(K, V)>,
    key: K,
    value: V,
    p: int,
)
    requires
        forall|i: int, j: int|
            0 <= i < j < before.len() ==> (#[trigger] before[i]).0 != (#[trigger] before[j]).0,
        0 <= p < before.len(),
    ensures
        replaced_in_place(before, after, key, value) ==> after.len() == before.len()
            && after[p].0 == before[p].0 && (before[p].0 != key ==> after[p] == before[p]) && (
        before[p].0 == key ==> after[p].1 == value),
        taken_out(before, after, key) ==> after.len() + 1 == before.len() && (before[p].0 == key
            ==> after == before.take(p) + before.skip(p + 1)),
{
    if taken_out(before, after, key) && before[p].0 == key {
        let q = choose|q: int|
            #![trigger before.remove(q)]
            0 <= q < before.len() && before[q].0 == key && after == before.remove(q);
        if q != p {
            assert(before[q].0 != before[p].0);
        }
        assert(after =~= before.take(p) + before.skip(p + 1));
    }
}

impl<K, V> Table<K, V> {
    /// A walk meets the chains in their order: of two entries, the one that comes
    /// first belongs to no later chain than the other.
    pub proof fn law_walk_goes_by_chain<S: KeyHasher<K>>(self, hasher: S, p: int, q: int)
        requires
            self.wf(hasher),
            0 <= p < q < self.walk().len(),
        ensures
            slot_of(hasher.hash_of(self.walk()[p].0), self.spec_size()) <= slot_of(
                hasher.hash_of(self.walk()[q].0),
                self.spec_size(),
            ),
    {
        let n = self.slots@.len();
        let chain = slot_of(hasher.hash_of(self.walk()[q].0), self.spec_size());
        lemma_walk_is_by_chain(self, hasher, n, n);
        assert(0 <= chain < n);
        lemma_walk_is_by_chain(self, hasher, (chain + 1) as nat, n);
        assert(q < walked(self.slots@, (chain + 1) as nat).len());
        assert(walked(self.slots@, n)[p] == self.walk()[p]);
    }
}

/// A move to other chains loses and adds nothing, and turns the order of two
/// entries round that share a chain after it.
pub proof fn law_a_move_turns_chains_round<K, V, S: KeyHasher<K>>(
    before: Seq<(K, V)>,
    after: Seq<(K, V)>,
    hasher: S,
    size: usize,
    p: int,
    q: int,
    i: int,
    j: int,
)
    requires
        moved_in_order(before, after, hasher, size),
        forall|a: int, b: int|
            0 <= a < b < before.len() ==> (#[trigger] before[a]).0 != (#[trigger] before[b]).0,
        0 <= p < before.len(),
        0 <= q < before.len(),
        0 <= i < after.len(),
        0 <= j < after.len(),
        after[i] == before[p],
        after[j] == before[q],
        slot_of(hasher.hash_of(after[i].0), size) == slot_of(hasher.hash_of(after[j].0), size),
    ensures
        after.len() == before.len(),
        exists|r: int| 0 <= r < before.len() && #[trigger] before[r] == after[i],
        i < j ==> q < p,
{
    if i < j {
        let (x, y) = choose|x: int, y: int|
            0 <= x < y < before.len() && #[trigger] before[x] == after[j] && #[trigger] before[y]
                == after[i];
        if x < q {
            assert(before[x].0 != before[q].0);
        }
        if q < x {
            assert(before[q].0 != before[x].0);
        }
        if y < p {
            assert(before[y].0 != before[p].0);
        }
        if p < y {
            assert(before[p].0 != before[y].0);
        }
    }
}

} // verus!
