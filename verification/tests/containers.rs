use castbox::atomic::array::{AtomicArray, Lookup, DEFAULT_ARRAY_CAP};
use castbox::atomic::buffer::AtomicBuffer;
use castbox::atomic::cell::AtomicCell;
use castbox::atomic::hashmap::{AtomicHashMap, Shard, DEFAULT_SHARD_SIZE, NUM_SHARDS};
use castbox::atomic::list::AtomicList;
use castbox::atomic::val::Atomic;
use castbox::atomic::vec::{block_index, index_in_block, AtomicVec as BlockVec, BLOCK_CAP};
use castbox::channels::mpmc::{Mpmc, Received};
use castbox::collections::atomic_hashmap::{AtomicHashMap as BucketMap, DEFAULT_BUCKETS};
use castbox::collections::atomic_vec::AtomicVec as SlotQueue;
use castbox::collections::hasher::{fast_hash, FastHasher, FnvKeys, KeyHasher, OFFSET_BASIS};
use castbox::mutex::atomic_vec::AtomicVec as FlagQueue;
use castbox::mutex::mutex::MutexWake;
use castbox::primitives::attempt::{Attempt, Notify};

/// Sends every key to the same place.
struct OneHash;

impl KeyHasher<u32> for OneHash {
    fn hash_of(&self, _key: u32) -> u64 {
        3
    }

    fn hash_key(&self, key: &u32) -> u64 {
        self.hash_of(*key)
    }
}

/// Takes the key itself for its hash.
struct OwnHash;

impl KeyHasher<u32> for OwnHash {
    fn hash_of(&self, key: u32) -> u64 {
        key as u64
    }

    fn hash_key(&self, key: &u32) -> u64 {
        self.hash_of(*key)
    }
}

#[test]
fn fnv1a_reference_values() {
    assert_eq!(fast_hash(b""), OFFSET_BASIS);
    assert_eq!(fast_hash(b"a"), 0xaf63dc4c8601ec8c);
    assert_eq!(fast_hash(b"foobar"), 0x85944171f73967e8);
}

#[test]
fn hashing_in_pieces_is_hashing_the_whole() {
    let mut h = FastHasher::default();
    h.write(b"foo");
    h.write(b"bar");
    assert_eq!(h.finish(), fast_hash(b"foobar"));
    assert_eq!(FnvKeys.hash_key(&0x0102), fast_hash(&[2, 1, 0, 0, 0, 0, 0, 0]));
}

#[test]
fn sharded_map_reads_back_what_was_written() {
    let mut map = AtomicHashMap::new();
    assert!(map.is_empty());
    for k in 0..500u64 {
        assert_eq!(map.insert(k, k * 10), None);
    }
    assert_eq!(map.len(), 500);
    for k in 0..500u64 {
        assert_eq!(map.get(&k), Some(&(k * 10)));
        assert!(map.contains_key(&k));
    }
    assert_eq!(map.insert(7, 1), Some(70));
    assert_eq!(map.len(), 500);
    *map.get_mut(&7).unwrap() += 1;
    assert_eq!(map.remove(&7), Some(2));
    assert_eq!(map.remove(&7), None);
    assert_eq!(map.get(&7), None);
    assert!(map.get_mut(&7).is_none());
    assert!(!map.contains_key(&7));
    assert_eq!(map.len(), 499);
    let info = map.info();
    assert_eq!((info.shards, info.len, info.ref_count), (NUM_SHARDS, 499, 1));
}

#[test]
fn sharded_map_snapshot_has_every_entry_once() {
    let mut map = AtomicHashMap::with_shard_size(1);
    for k in 0..100u64 {
        map.insert(k, k + 1);
    }
    let mut copies = map.snapshot();
    copies.sort();
    let expected: Vec<(u64, u64)> = (0..100).map(|k| (k, k + 1)).collect();
    assert_eq!(copies, expected);
}

#[test]
fn sharded_map_with_colliding_keys() {
    let mut map = AtomicHashMap::with_hasher_and_shard_size(OneHash, 4);
    for k in 0..20u32 {
        assert_eq!(map.insert(k, k), None);
    }
    assert_eq!(map.hasher().hash_key(&9), 3);
    // Within a chain the newest entry comes first, and a move to new chains
    // turns the order around.
    let order: Vec<u32> = map.snapshot().into_iter().map(|e| e.0).collect();
    assert_eq!(order.len(), 20);
    assert_eq!(order[0], 19);
    for k in 0..20u32 {
        assert_eq!(map.remove(&k), Some(k));
    }
    assert!(map.is_empty());
}

#[test]
fn shard_doubles_at_three_quarters() {
    let mut shard: Shard<u32, u32> = Shard::new(&OwnHash, 4);
    for k in 0..2u32 {
        shard.insert(&OwnHash, k, k);
    }
    assert!(!shard.maybe_resize(&OwnHash));
    shard.insert(&OwnHash, 2, 2);
    assert!(shard.maybe_resize(&OwnHash));
    assert_eq!((shard.size(), shard.len()), (8, 3));
    assert_eq!(shard.get(&OwnHash, &2), Some(&2));
    assert!(shard.contains(&OwnHash, &0));
    assert_eq!(shard.remove(&OwnHash, &1), Some(1));
    assert_eq!(shard.len(), 2);
    let keys: Vec<u32> = shard.entries().iter().map(|e| *e.0).collect();
    assert_eq!(keys, vec![0, 2]);
}

#[test]
fn sharded_map_handles() {
    let mut map: AtomicHashMap<u64, u64, FnvKeys> = AtomicHashMap::with_shard_size(
        DEFAULT_SHARD_SIZE,
    );
    map.clone_ref();
    assert_eq!(map.get_ref_count(), 2);
    assert!(!map.drop_ref());
    assert!(map.drop_ref());
}

#[test]
fn bucket_map_grows_and_walks() {
    let mut map = BucketMap::with_hasher_and_capacity(OwnHash, 2);
    for k in 0..3u32 {
        map.insert(k, k * 2);
    }
    assert_eq!(map.info().buckets, 2);
    map.insert(3, 6);
    assert_eq!(map.info().buckets, 4);
    map.insert(3, 7);
    assert_eq!((map.len(), map.info().buckets), (4, 4));
    assert_eq!(map.get(&3), Some(&7));
    *map.get_mut(&3).unwrap() = 8;
    let mut seen = Vec::new();
    let mut iter = map.iter();
    assert_eq!(iter.locked_bucket(), Some(0));
    while let Some((k, v)) = iter.next() {
        seen.push((*k, *v));
    }
    assert_eq!(iter.locked_bucket(), None);
    assert_eq!(seen, vec![(0, 0), (1, 2), (2, 4), (3, 8)]);
    assert_eq!(map.remove(&0), Some(0));
    assert_eq!(map.remove(&0), None);
    assert_eq!(map.len(), 3);
}

#[test]
fn bucket_map_defaults() {
    let mut map = BucketMap::new();
    map.insert(1u64, "uno");
    map.insert(2, "due");
    assert_eq!(map.len(), 2);
    assert_eq!(map.remove(&1), Some("uno"));
    assert_eq!(map.remove(&99), None);
    assert_eq!(map.info().buckets, DEFAULT_BUCKETS);
    map.clone_ref();
    assert!(!map.drop_ref());
    assert!(map.drop_ref());
    assert_eq!(map.hasher().hash_key(&1), FnvKeys.hash_key(&1));
    let empty: BucketMap<u64, u64, FnvKeys> = BucketMap::with_capacity(3);
    assert!(empty.iter().next().is_none());
}

#[test]
fn array_fills_and_refuses() {
    let mut a = AtomicArray::with_capacity(2);
    assert_eq!(a.push(1), Ok(()));
    assert_eq!(a.push(2), Ok(()));
    assert_eq!(a.push(3), Err(3));
    assert_eq!((a.len(), a.capacity()), (2, 2));
    assert_eq!(a.get(1), Some(&2));
    assert_eq!(a.get(2), None);
    assert_eq!(a.info(), (2, 2));
    assert_eq!(a.as_vec(), vec![1, 2]);
    assert_eq!(a.info(), (0, 2));
    assert_eq!(a.get(0), None);
    assert_eq!(a.push(4), Ok(()));
    assert_eq!(a.get(0), Some(&4));
}

#[test]
fn array_resets_with_a_new_capacity() {
    let mut a = AtomicArray::init_with(3, || 7);
    assert_eq!(a.as_vec(), vec![7, 7, 7]);
    assert_eq!(a.reset_with(5, || 1), Ok(5));
    assert_eq!(a.capacity(), 5);
    assert_eq!(a.push(2), Err(2));
    assert_eq!(a.as_vec(), vec![1; 5]);
}

#[test]
fn array_claims_and_publishes_in_turn() {
    let mut a = AtomicArray::new();
    assert_eq!(a.capacity(), DEFAULT_ARRAY_CAP);
    assert!(a.is_empty());
    let first = a.claim().unwrap();
    let second = a.claim().unwrap();
    a.publish(second, "b");
    assert!(matches!(a.poll(0), Lookup::Pending));
    assert!(matches!(a.poll(1), Lookup::Absent));
    a.publish(first, "a");
    assert!(matches!(a.poll(0), Lookup::Ready(&"a")));
    assert_eq!(a.as_vec(), vec!["a", "b"]);
}

#[test]
fn array_lock_word() {
    let mut a: AtomicArray<u8> = AtomicArray::default();
    assert_eq!(a.wait_lock_shared(), Attempt::Acquired);
    assert_eq!(a.wait_lock_exclusive(), Attempt::MustWait);
    a.release_lock_shared();
    assert_eq!(a.wait_lock_exclusive(), Attempt::Acquired);
    assert_eq!(a.wait_lock_shared(), Attempt::MustWait);
    assert_eq!(a.retry_lock_shared(), Attempt::MustWait);
    a.release_lock_exclusive();
    assert_eq!(a.retry_lock_shared(), Attempt::Acquired);
    assert_eq!(a.wait_lock_exclusive(), Attempt::MustWait);
    a.release_lock_shared();
    assert_eq!(a.wait_lock_exclusive(), Attempt::Acquired);
}

#[test]
fn array_from_items_keeps_what_fits() {
    let a = AtomicArray::from_items(0, (0..70).collect::<Vec<i32>>());
    assert_eq!((a.capacity(), a.len()), (64, 64));
    let mut b = AtomicArray::from_items(70, (0..70).collect::<Vec<i32>>());
    assert_eq!((b.capacity(), b.len()), (70, 70));
    b.clone_ref();
    assert_eq!(b.get_ref_count(), 2);
    assert!(!b.drop_ref());
    assert!(b.drop_ref());
}

#[test]
fn buffer_is_a_ring() {
    let mut b = AtomicBuffer::with_capacity(2);
    for round in 1..10usize {
        assert_eq!(b.push(round), Ok(()));
        assert_eq!(b.push(round + 100), Ok(()));
        assert_eq!(b.push(9), Err(9));
        assert_eq!(b.pop(), Some(round));
        assert_eq!(b.pop(), Some(round + 100));
        assert_eq!(b.pop(), None);
    }
    assert_eq!(AtomicBuffer::new().capacity(), 32);
}

#[test]
fn buffer_stops_at_a_null_address() {
    let mut b = AtomicBuffer::with_capacity(4);
    assert_eq!(b.push(0), Ok(()));
    assert_eq!(b.push(5), Ok(()));
    assert_eq!(b.pop(), None);
    assert_eq!(b.pop(), None);
}

#[test]
fn cell_operations() {
    let mut c = AtomicCell::new(1);
    assert_eq!(c.load(), 1);
    assert_eq!(c.store(2), MutexWake::Nobody);
    assert_eq!(c.swap(3), (2, MutexWake::Nobody));
    assert!(matches!(c.compare_exchange(3, 4), Ok((3, MutexWake::Nobody))));
    {
        let mut held = c.compare_exchange(3, 5).err().unwrap();
        assert_eq!(*held.deref(), 4);
        *held.deref_mut() = 6;
        held.unlock();
    }
    let first = c.get().unwrap();
    assert_eq!(*first.deref(), 6);
    first.unlock();
    let mut guard = c.get_mut().unwrap();
    *guard.deref_mut() += 1;
    guard.unlock();
    c.clone_ref();
    assert!(!c.drop_ref());
    assert_eq!(c.into_inner(), 7);
}

#[test]
fn shared_value_operations() {
    let mut v = Atomic::new(10u32);
    v.store(20);
    assert_eq!(v.swap(30).0, 20);
    assert!(matches!(v.compare_exchange(30, 40), Ok((30, MutexWake::Nobody))));
    let mut guard = v.compare_exchange(30, 50).err().unwrap();
    assert_eq!(*guard.deref(), 40);
    *guard.deref_mut() += 2;
    guard.unlock();
    let guard = v.get().unwrap();
    assert_eq!(*guard.deref(), 42);
    guard.unlock();
    v.clone_ref();
    assert!(!v.drop_ref());
    assert!(v.drop_ref());
}

#[test]
fn list_is_a_queue() {
    let mut l = AtomicList::new();
    for i in 0..5 {
        l.push(i);
    }
    assert_eq!(l.pop(), Some(0));
    assert_eq!(l.len(), 4);
    let mut seen = Vec::new();
    let mut iter = l.iter();
    while let Some(v) = iter.next() {
        seen.push(*v);
    }
    assert_eq!(seen, vec![1, 2, 3, 4]);
    let mut d = l.drain().unwrap();
    assert_eq!(d.next(), Some(1));
    l.push(9);
    assert_eq!(d.collect(), vec![2, 3, 4]);
    assert_eq!(l.to_vec(), vec![9]);
    assert!(l.is_empty());
    assert!(l.drain().is_none());
    assert_eq!(l.to_vec(), Vec::<i32>::new());
    l.clone_ref();
    assert!(!l.drop_ref());
    assert!(l.drop_ref());
}

#[test]
fn list_reuses_the_places_of_its_nodes() {
    let mut l = AtomicList::new();
    for round in 0..50 {
        l.push(round);
        l.push(round + 1000);
        assert_eq!(l.pop(), Some(round));
        assert_eq!(l.pop(), Some(round + 1000));
        assert_eq!(l.pop(), None);
    }
}

#[test]
fn block_vec_grows_beyond_a_block() {
    let mut v = BlockVec::new();
    for i in 0..100 {
        v.push(i);
    }
    assert_eq!((v.len(), v.capacity()), (100, 128));
    for i in 0..60 {
        assert_eq!(v.pop(), Some(i));
    }
    for i in 100..160 {
        v.push(i);
    }
    assert_eq!(v.get(0), Some(&60));
    assert_eq!(v.get(99), Some(&159));
    assert_eq!(v.get(100), None);
    assert_eq!(v.as_vec(), (60..160).collect::<Vec<i32>>());
    assert!(v.is_empty());
    assert_eq!(v.pop(), None);
    assert_eq!((block_index(70), index_in_block(70)), (2, 6));
}

#[test]
fn block_vec_keeps_a_free_slot() {
    let mut v = BlockVec::default();
    for i in 0..BLOCK_CAP - 1 {
        v.push(i);
    }
    assert_eq!(v.capacity(), BLOCK_CAP);
    v.push(31);
    assert_eq!(v.capacity(), 2 * BLOCK_CAP);
}

#[test]
fn block_vec_resets_and_initialises() {
    let mut v = BlockVec::init_with(40, || 'a');
    assert_eq!(v.info(), (40, 64));
    assert_eq!(v.reset_with(3, || 'b'), 3);
    assert_eq!(v.as_vec(), vec!['b', 'b', 'b']);
    let mut w = BlockVec::from_items(vec![1, 2, 3]);
    assert_eq!(w.pop(), Some(1));
    w.clone_ref();
    assert!(!w.drop_ref());
    assert!(w.drop_ref());
}

#[test]
fn flag_queue_is_first_in_first_out() {
    let mut q = FlagQueue::new();
    q.push(10);
    q.push(20);
    q.push(30);
    assert_eq!(q.pop(), Some(10));
    assert_eq!(q.pop(), Some(20));
    assert_eq!(q.len(), 1);
    assert_eq!(q.pop(), Some(30));
    assert_eq!(q.pop(), None);
    assert!(q.is_empty());
    assert_eq!(q.lock(), Attempt::Acquired);
    assert_eq!(q.lock(), Attempt::MustWait);
    q.release();
    q.clone_ref();
    assert!(!q.drop_ref());
    assert!(q.drop_ref());
}

#[test]
fn slot_queue_keeps_a_value_that_comes_while_it_is_busy() {
    let mut q = SlotQueue::new();
    q.push(1).unwrap();
    assert_eq!(q.lock(), Attempt::Acquired);
    assert!(q.is_busy());
    assert_eq!(q.push(2), Ok(()));
    assert_eq!(q.push(3), Err(3));
    assert_eq!(q.len(), 1);
    q.release();
    assert_eq!(q.len(), 2);
    assert_eq!(q.pop(), Some(1));
    assert_eq!(q.pop(), Some(2));
    assert_eq!(q.pop(), None);
    assert!(q.is_empty());
}

#[test]
fn slot_queue_drains_in_order() {
    let mut q = SlotQueue::from_vec(vec![1, 2, 3]);
    let mut d = q.drain().unwrap();
    assert_eq!(d.next(), Some(1));
    assert_eq!(d.collect(), vec![2, 3]);
    assert!(q.drain().is_none());
    let mut q = SlotQueue::from_slice(&[4, 5]);
    let mut iter = q.iter();
    assert_eq!(iter.next(), Some(&4));
    assert_eq!(iter.next(), Some(&5));
    assert_eq!(iter.next(), None);
    assert_eq!(q.to_vec(), vec![4, 5]);
    let q = SlotQueue::from_vec(vec![6, 7]);
    let mut owned = q.into_iter();
    assert_eq!(owned.next(), Some(6));
    assert_eq!(owned.collect(), vec![7]);
    let mut q: SlotQueue<u8> = SlotQueue::new();
    q.clone_ref();
    assert!(!q.drop_ref());
    assert!(q.drop_ref());
}

#[test]
fn channel_delivers_in_order() {
    let mut c = Mpmc::new();
    assert_eq!(c.recv(), Received::MustWait);
    for i in 0..3 {
        assert_eq!(c.send(i), Ok(()));
    }
    assert_eq!(c.try_recv(), Some(0));
    assert_eq!(c.recv(), Received::Message(1));
    assert_eq!(c.close(), Notify::All);
    assert_eq!(c.send(9), Err(9));
    assert_eq!(c.recv(), Received::Message(2));
    assert_eq!(c.recv(), Received::Closed);
    assert_eq!(c.try_recv(), None);
}

#[test]
fn bounded_channel_is_full() {
    let mut c = Mpmc::bounded(2);
    assert_eq!(c.send('a'), Ok(()));
    assert!(c.admits());
    assert_eq!(c.enqueue('b'), Notify::One);
    assert_eq!(c.send('c'), Err('c'));
    assert_eq!(c.try_recv(), Some('a'));
    assert_eq!(c.send('c'), Ok(()));
    c.clone_ref();
    assert!(!c.drop_ref());
    assert!(c.drop_ref());
}

#[test]
fn slot_queue_is_first_in_first_out() {
    let mut q = SlotQueue::new();
    assert_eq!(q.push(1), Ok(()));
    assert_eq!(q.push(2), Ok(()));
    assert_eq!(q.pop(), Some(1));
    assert_eq!(q.push(3), Ok(()));
    assert_eq!(q.pop(), Some(2));
    assert_eq!(q.pop(), Some(3));
    assert_eq!(q.pop(), None);
}

#[test]
fn bucket_map_load_stays_bounded() {
    let mut map = BucketMap::with_hasher_and_capacity(OwnHash, 1);
    for k in 0..100u32 {
        map.insert(k, k);
        assert!(map.len() < 2 * map.info().buckets);
    }
    assert_eq!(map.info().buckets, 64);
    map.insert(200, 1);
    map.remove(&200);
    assert_eq!((map.get(&200), map.get(&7), map.len()), (None, Some(&7), 100));
}

#[test]
fn one_thread_at_a_time_resizes_a_shard() {
    let mut shard: Shard<u32, u32> = Shard::new(&OwnHash, 4);
    for k in 0..3u32 {
        shard.insert(&OwnHash, k, k);
    }
    assert!(!shard.is_resizing());
    assert!(shard.begin_resize(&OwnHash));
    assert!(shard.is_resizing());
    assert!(!shard.begin_resize(&OwnHash));
    assert!(!shard.maybe_resize(&OwnHash));
    assert_eq!(shard.size(), 4);
    assert!(shard.finish_resize(&OwnHash));
    assert!(!shard.is_resizing());
    assert_eq!((shard.size(), shard.get(&OwnHash, &1)), (8, Some(&1)));
}

#[test]
fn block_vec_turns_are_claimed_before_they_are_filled() {
    let mut v = BlockVec::new();
    let a = v.claim();
    let b = v.claim();
    assert_eq!((a, b, v.len()), (0, 1, 2));
    v.publish(b, 'b');
    let first = v.claim_read().unwrap();
    let second = v.claim_read().unwrap();
    assert_eq!((first, second), (0, 1));
    assert_eq!(v.claim_read(), None);
    assert_eq!(v.take(first), None);
    assert_eq!(v.take(second), Some('b'));
    for _ in 0..40 {
        v.push('c');
    }
    assert_eq!(v.capacity(), 64);
    v.publish(a, 'a');
    assert_eq!(v.take(first), Some('a'));
    assert_eq!((v.len(), v.claim()), (40, 42));
    assert_eq!(v.pop(), Some('c'));
}

#[test]
fn initializers_may_count_their_calls() {
    let mut next = 0;
    let mut a = AtomicArray::init_with(3, || {
        next += 1;
        next
    });
    assert_eq!(a.as_vec(), vec![1, 2, 3]);
    let mut next = 10;
    assert_eq!(
        a.reset_with(2, || {
            next += 1;
            next
        }),
        Ok(2)
    );
    assert_eq!(a.as_vec(), vec![11, 12]);
    let mut next = 0;
    let mut v = BlockVec::init_with(3, || {
        next += 2;
        next
    });
    assert_eq!(v.as_vec(), vec![2, 4, 6]);
}

#[test]
fn made_values_fill_an_array_and_a_queue() {
    let mut a = AtomicArray::init_with(2, || 0);
    assert_eq!(a.reset_from(vec![5, 6, 7]), Ok(3));
    assert_eq!((a.capacity(), a.push(8)), (3, Err(8)));
    assert_eq!(a.as_vec(), vec![5, 6, 7]);
    let mut v = BlockVec::from_items(vec![1, 2]);
    assert_eq!(v.reset_from(vec![3, 4, 5]), 3);
    assert_eq!(v.pop(), Some(3));
    assert_eq!(v.as_vec(), vec![4, 5]);
}

#[test]
fn a_bucket_map_without_chains_is_empty() {
    let map: BucketMap<u32, u32, OwnHash> = BucketMap::with_hasher_and_capacity(OwnHash, 0);
    assert_eq!((map.len(), map.info().buckets), (0, 0));
    assert!(map.iter().next().is_none());
}

#[test]
fn a_new_key_heads_its_chain() {
    let mut shard: Shard<u32, u32> = Shard::new(&OwnHash, 4);
    for k in [1, 5, 2, 9] {
        shard.insert(&OwnHash, k, k);
    }
    let keys: Vec<u32> = shard.entries().iter().map(|e| *e.0).collect();
    assert_eq!(keys, vec![9, 5, 1, 2]);
}

#[test]
fn a_guard_that_is_out_makes_the_others_wait() {
    let mut c = AtomicCell::new(1);
    // The guard goes away without giving the mutex back, as one that another
    // thread still has.
    let _ = c.get_mut().unwrap();
    assert!(c.get().is_none());
    assert!(c.get_mut().is_none());
    let mut v = Atomic::new(1);
    let _ = v.get().unwrap();
    assert!(v.get_mut().is_none());
    assert!(v.get().is_some());
}

#[test]
fn buffer_steps_interleave() {
    let mut b = AtomicBuffer::with_capacity(2);
    let mine = b.load_tail();
    let other = b.load_tail();
    assert!(b.put(mine, 11));
    assert!(!b.put(other, 12));
    assert_eq!(b.pop(), None);
    assert_eq!(b.push(13), Err(13));
    b.store_tail(mine);
    let mine = b.load_head();
    let other = b.load_head();
    assert_eq!(b.take(mine), Some(11));
    assert_eq!(b.take(other), None);
    assert_eq!(b.push(14), Ok(()));
    assert_eq!(b.push(15), Err(15));
    b.store_head(mine);
    assert_eq!(b.push(15), Ok(()));
    assert_eq!(b.pop(), Some(14));
    assert_eq!(b.pop(), Some(15));
}
