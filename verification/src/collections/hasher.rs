//! Hashing of keys: the 64-bit FNV-1a hash, and the interface through which the
//! hash maps hash their keys.
use vstd::prelude::*;

verus! {

/// The hash of no bytes.
pub const OFFSET_BASIS: u64 = 0xcbf29ce484222325;

/// The factor by which each byte spreads over the hash.
pub const PRIME: u64 = 0x100000001b3;

/// The FNV-1a hash of `bytes`, starting from `hash`: each byte is mixed into the
/// low bits, and the product by the prime spreads it.
pub open spec fn fnv1a(hash: u64, bytes: Seq<u8>) -> u64
    decreases bytes.len(),
{
    if bytes.len() == 0 {
        hash
    } else {
        (fnv1a(hash, bytes.drop_last()) ^ (bytes.last() as u64)).wrapping_mul(PRIME)
    }
}

/// A running FNV-1a hash.
#[derive(Debug, Clone, Copy, PartialEq, Eq, Structural)]
pub struct FastHasher {
    hash: u64,
}

impl View for FastHasher {
    type V = u64;

    closed spec fn view(&self) -> u64 {
        self.hash
    }
}

impl Default for FastHasher {
    #[inline]
    fn default() -> (hasher: Self)
        ensures
            hasher@ == OFFSET_BASIS,
    {
        FastHasher { hash: OFFSET_BASIS }
    }
}

impl FastHasher {
    /// The hash of what has been written.
    #[inline]
    pub fn finish(&self) -> (hash: u64)
        ensures
            hash == self@,
    {
        self.hash
    }

    /// Mixes `bytes` into the hash.
    #[inline]
    pub fn write(&mut self, bytes: &[u8])
        ensures
            final(self)@ == fnv1a(old(self)@, bytes@),
    {
        let mut hash: u64 = self.hash;
        let mut i: usize = 0;
        proof {
            assert(bytes@.take(0) =~= Seq::<u8>::empty());
        }
        while i < bytes.len()
            invariant
                0 <= i <= bytes@.len(),
                self.hash == old(self)@,
                hash == fnv1a(old(self)@, bytes@.take(i as int)),
            decreases bytes@.len() - i,
        {
            let b: u8 = bytes[i];
            hash = hash ^ (b as u64);
            hash = hash.wrapping_mul(PRIME);
            proof {
                assert(bytes@.take(i + 1).drop_last() =~= bytes@.take(i as int));
            }
            i = i + 1;
        }
        proof {
            assert(bytes@.take(i as int) =~= bytes@);
        }
        self.hash = hash;
    }
}

/// The FNV-1a hash of `bytes`.
#[inline]
pub fn fast_hash(bytes: &[u8]) -> (hash: u64)
    ensures
        hash == fnv1a(OFFSET_BASIS, bytes@),
{
    let mut h: FastHasher = FastHasher::default();
    h.write(bytes);
    h.finish()
}

/// Writing two pieces one after the other hashes as writing them joined.
pub proof fn law_writes_join(hash: u64, first: Seq<u8>, second: Seq<u8>)
    ensures
        fnv1a(fnv1a(hash, first), second) == fnv1a(hash, first + second),
    decreases second.len(),
{
    if second.len() == 0 {
        assert(first + second =~= first);
    } else {
        law_writes_join(hash, first, second.drop_last());
        assert((first + second).drop_last() =~= first + second.drop_last());
    }
}

/// How a hash map hashes its keys: equal keys have equal hashes.
pub trait KeyHasher<K> {
    /// The hash of `key`.
    spec fn hash_of(&self, key: K) -> u64;

    /// Computes the hash of `key`.
    fn hash_key(&self, key: &K) -> (hash: u64)
        ensures
            hash == self.hash_of(*key),
    ;
}

/// Hashes integer keys by FNV-1a, over their bytes from the lowest to the
/// highest.
#[derive(Debug, Clone, Copy, PartialEq, Eq, Structural)]
pub struct FnvKeys;

/// The bytes of `key` from the lowest to the highest.
pub open spec fn low_bytes(key: u64) -> Seq<u8> {
    Seq::new(8, |i: int| ((key >> ((8 * i) as u64)) & 0xff) as u8)
}

impl KeyHasher<u64> for FnvKeys {
    open spec fn hash_of(&self, key: u64) -> u64 {
        fnv1a(OFFSET_BASIS, low_bytes(key))
    }

    fn hash_key(&self, key: &u64) -> (hash: u64) {
        let mut bytes: Vec<u8> = Vec::new();
        let mut i: u64 = 0;
        while i < 8
            invariant
                i <= 8,
                bytes@.len() == i,
                forall|j: int| 0 <= j < i ==> bytes@[j] == low_bytes(*key)[j],
            decreases 8 - i,
        {
            bytes.push(((*key >> (8 * i)) & 0xff) as u8);
            i = i + 1;
        }
        proof {
            assert(bytes@ =~= low_bytes(*key));
        }
        fast_hash(bytes.as_slice())
    }
}

/// Each byte is mixed in by an exclusive or and a multiplication by the prime,
/// modulo the machine word; no byte leaves the hash as it is.
pub proof fn law_bytes_are_mixed_one_by_one(hash: u64, bytes: Seq<u8>, byte: u8)
    ensures
        fnv1a(hash, Seq::empty()) == hash,
        fnv1a(hash, bytes.push(byte)) == ((fnv1a(hash, bytes) ^ (byte as u64)) * 0x100000001b3)
            % 0x10000000000000000,
{
    assert(bytes.push(byte).drop_last() =~= bytes);
}

/// The bytes of a key, from the lowest on, make the key up again.
pub proof fn law_bytes_make_up_the_key(key: u64)
    ensures
        low_bytes(key).len() == 8,
        key == low_bytes(key)[0] + 0x100 * low_bytes(key)[1] + 0x10000 * low_bytes(key)[2]
            + 0x1000000 * low_bytes(key)[3] + 0x100000000 * low_bytes(key)[4] + 0x10000000000
            * low_bytes(key)[5] + 0x1000000000000 * low_bytes(key)[6] + 0x100000000000000
            * low_bytes(key)[7],
{
    assert(key == ((key >> 0u64) & 0xff) + 0x100 * ((key >> 8u64) & 0xff) + 0x10000 * ((key
        >> 16u64) & 0xff) + 0x1000000 * ((key >> 24u64) & 0xff) + 0x100000000 * ((key >> 32u64)
        & 0xff) + 0x10000000000 * ((key >> 40u64) & 0xff) + 0x1000000000000 * ((key >> 48u64)
        & 0xff) + 0x100000000000000 * ((key >> 56u64) & 0xff)) by (bit_vector);
    assert(forall|x: u64| #[trigger] (x & 0xff) <= 0xff) by (bit_vector);
}

} // verus!
