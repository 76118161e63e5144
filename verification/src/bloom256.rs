//! Bloom filter (256-bit, k=5) for transaction account keys.
use vstd::prelude::*;

use crate::bytes::get_u32;
use crate::bytes::read_u32;

verus! {

/// How many bits a key sets.
const K: u32 = 5;

/// How many bits the filter has.
const M: u32 = 256;

/// The bit that the `i`-th hash function gives `key`: the `i`-th group of four bytes, read as
/// a little-endian integer, modulo 256.
pub open spec fn key_bit(key: Seq<u8>, i: int) -> int {
    (get_u32(key, 4 * i) % 256) as int
}

/// Bit `h` of the filter is set.
pub open spec fn bit_set(filter: Seq<u8>, h: int) -> bool {
    filter[h / 8] & (1u8 << ((h % 8) as u8)) != 0
}

/// `h` is one of the five bits of `key`.
pub open spec fn is_key_bit(key: Seq<u8>, h: int) -> bool {
    exists|i: int| 0 <= i < 5 && h == #[trigger] key_bit(key, i)
}

/// All five bits of `key` are set.
pub open spec fn contains_key(filter: Seq<u8>, key: Seq<u8>) -> bool {
    forall|i: int| 0 <= i < 5 ==> bit_set(filter, #[trigger] key_bit(key, i))
}

/// `after` is `before` with the bits of `key` set and no other change.
pub open spec fn key_inserted(before: Seq<u8>, after: Seq<u8>, key: Seq<u8>) -> bool {
    &&& after.len() == before.len()
    &&& forall|h: int|
        0 <= h < 256 ==> (#[trigger] bit_set(after, h) <==> bit_set(before, h) || is_key_bit(
            key,
            h,
        ))
}

/// `filter` has exactly the bits of the keys in `keys`.
pub open spec fn filter_of(filter: Seq<u8>, keys: Seq<[u8; 32]>) -> bool {
    &&& filter.len() == 32
    &&& forall|h: int|
        0 <= h < 256 ==> (#[trigger] bit_set(filter, h) <==> exists|k: int|
            0 <= k < keys.len() && is_key_bit(#[trigger] keys[k]@, h))
}

/// Insert a 32-byte key into a 256-bit bloom filter.
/// Uses 5 hash functions derived from non-overlapping 4-byte slices of the key.
pub fn insert(filter: &mut [u8; 32], key: &[u8; 32])
    ensures
        key_inserted(old(filter)@, final(filter)@, key@),
{
    let ghost before = filter@;
    let mut i: usize = 0;
    while i < K as usize
        invariant
            i <= 5,
            before == old(filter)@,
            forall|h: int|
                0 <= h < 256 ==> (#[trigger] bit_set(filter@, h) <==> bit_set(before, h) || exists|
                    t: int,
                |
                    0 <= t < i && h == #[trigger] key_bit(key@, t)),
        decreases K - i,
    {
        let h: u32 = read_u32(key.as_slice(), i * 4) % M;
        let ghost mid = filter@;
        let slot: usize = (h / 8) as usize;
        let byte: u8 = filter[slot];
        let shift: u8 = (h % 8) as u8;
        let mask: u8 = 1u8 << shift;
        filter[slot] = byte | mask;
        i += 1;
        assert forall|g: int| 0 <= g < 256 implies (#[trigger] bit_set(filter@, g) <==> bit_set(
            before,
            g,
        ) || exists|t: int| 0 <= t < i && g == #[trigger] key_bit(key@, t)) by {
            let other: u8 = (g % 8) as u8;
            assert(bit_set(mid, g) <==> bit_set(before, g) || exists|t: int|
                0 <= t < i - 1 && g == #[trigger] key_bit(key@, t));
            assert(h == key_bit(key@, i - 1));
            if g / 8 == slot {
                lemma_or_bit(byte, shift, other);
                if g == h {
                    assert(bit_set(filter@, g));
                } else {
                    assert(other != shift);
                    assert(bit_set(filter@, g) <==> bit_set(mid, g));
                }
            } else {
                assert(filter@[g / 8] == mid[g / 8]);
                assert(g != h);
            }
        }
    }
}

/// Check if a 32-byte key may be in the bloom filter.
/// Returns `false` if the key is definitely not present (no false negatives).
/// Returns `true` if the key might be present (possible false positives).
pub fn may_contain(filter: &[u8; 32], key: &[u8; 32]) -> (r: bool)
    ensures
        r == contains_key(filter@, key@),
{
    let mut i: usize = 0;
    while i < K as usize
        invariant
            i <= 5,
            forall|t: int| 0 <= t < i ==> bit_set(filter@, #[trigger] key_bit(key@, t)),
        decreases K - i,
    {
        let h: u32 = read_u32(key.as_slice(), i * 4) % M;
        assert(h == key_bit(key@, i as int));
        let shift: u8 = (h % 8) as u8;
        if filter[(h / 8) as usize] & (1u8 << shift) == 0 {
            return false;
        }
        i += 1;
    }
    true
}

proof fn lemma_or_bit(byte: u8, shift: u8, other: u8)
    requires
        shift < 8,
        other < 8,
    ensures
        (byte | (1u8 << shift)) & (1u8 << other) != 0 <==> (byte & (1u8 << other) != 0 || shift
            == other),
{
    assert((byte | (1u8 << shift)) & (1u8 << other) != 0 <==> (byte & (1u8 << other) != 0 || shift
        == other)) by (bit_vector)
        requires
            shift < 8,
            other < 8,
    ;
}

/// No false negatives: a key that was inserted is found.
pub proof fn lemma_inserted_key_found(before: Seq<u8>, after: Seq<u8>, key: Seq<u8>)
    requires
        key_inserted(before, after, key),
    ensures
        contains_key(after, key),
{
    assert forall|i: int| 0 <= i < 5 implies bit_set(after, #[trigger] key_bit(key, i)) by {
        assert(is_key_bit(key, key_bit(key, i)));
    }
}

/// Inserting a key never makes the filter forget another one.
pub proof fn lemma_insert_keeps_keys(
    before: Seq<u8>,
    after: Seq<u8>,
    key: Seq<u8>,
    other: Seq<u8>,
)
    requires
        key_inserted(before, after, key),
        contains_key(before, other),
    ensures
        contains_key(after, other),
{
}

/// The empty filter contains no key.
pub proof fn lemma_empty_filter_contains_nothing(filter: Seq<u8>, key: Seq<u8>)
    requires
        filter.len() == 32,
        forall|i: int| 0 <= i < 32 ==> filter[i] == 0,
    ensures
        !contains_key(filter, key),
{
    let h = key_bit(key, 0);
    lemma_zero_bits(filter, h);
}

/// No bit of an all-zero filter is set.
pub proof fn lemma_zero_bits(filter: Seq<u8>, h: int)
    requires
        filter.len() == 32,
        forall|i: int| 0 <= i < 32 ==> filter[i] == 0,
        0 <= h < 256,
    ensures
        !bit_set(filter, h),
{
    let mask: u8 = 1u8 << ((h % 8) as u8);
    assert(0u8 & mask == 0) by (bit_vector);
    assert(filter[h / 8] == 0);
}

/// A filter built from `keys` finds every one of them.
pub proof fn lemma_filter_finds_its_keys(filter: Seq<u8>, keys: Seq<[u8; 32]>, k: int)
    requires
        filter_of(filter, keys),
        0 <= k < keys.len(),
    ensures
        contains_key(filter, keys[k]@),
{
    assert forall|i: int| 0 <= i < 5 implies bit_set(filter, #[trigger] key_bit(
        keys[k]@,
        i,
    )) by {
        assert(is_key_bit(keys[k]@, key_bit(keys[k]@, i)));
    }
}

/// Two bytes with the same bits are the same.
proof fn lemma_same_bits_same_byte(a: u8, b: u8)
    requires
        forall|i: u8| 0 <= i < 8 ==> (#[trigger] (a & (1u8 << i)) != 0 <==> b & (1u8 << i) != 0),
    ensures
        a == b,
{
    assert(a & (1u8 << 0u8) != 0 <==> b & (1u8 << 0u8) != 0);
    assert(a & (1u8 << 1u8) != 0 <==> b & (1u8 << 1u8) != 0);
    assert(a & (1u8 << 2u8) != 0 <==> b & (1u8 << 2u8) != 0);
    assert(a & (1u8 << 3u8) != 0 <==> b & (1u8 << 3u8) != 0);
    assert(a & (1u8 << 4u8) != 0 <==> b & (1u8 << 4u8) != 0);
    assert(a & (1u8 << 5u8) != 0 <==> b & (1u8 << 5u8) != 0);
    assert(a & (1u8 << 6u8) != 0 <==> b & (1u8 << 6u8) != 0);
    assert(a & (1u8 << 7u8) != 0 <==> b & (1u8 << 7u8) != 0);
    assert(a == b) by (bit_vector)
        requires
            a & (1u8 << 0u8) != 0 <==> b & (1u8 << 0u8) != 0,
            a & (1u8 << 1u8) != 0 <==> b & (1u8 << 1u8) != 0,
            a & (1u8 << 2u8) != 0 <==> b & (1u8 << 2u8) != 0,
            a & (1u8 << 3u8) != 0 <==> b & (1u8 << 3u8) != 0,
            a & (1u8 << 4u8) != 0 <==> b & (1u8 << 4u8) != 0,
            a & (1u8 << 5u8) != 0 <==> b & (1u8 << 5u8) != 0,
            a & (1u8 << 6u8) != 0 <==> b & (1u8 << 6u8) != 0,
            a & (1u8 << 7u8) != 0 <==> b & (1u8 << 7u8) != 0,
    ;
}

/// The order in which keys are inserted, and inserting one twice, make no difference: two
/// filters built from keys that make up the same set are the same filter.
pub proof fn lemma_filter_depends_on_key_set(
    f: Seq<u8>,
    keys_f: Seq<[u8; 32]>,
    g: Seq<u8>,
    keys_g: Seq<[u8; 32]>,
)
    requires
        filter_of(f, keys_f),
        filter_of(g, keys_g),
        forall|k: [u8; 32]| keys_f.contains(k) <==> keys_g.contains(k),
    ensures
        f == g,
{
    assert forall|h: int| 0 <= h < 256 implies (#[trigger] bit_set(f, h) <==> bit_set(g, h)) by {
        if bit_set(f, h) {
            let k = choose|k: int| 0 <= k < keys_f.len() && is_key_bit(#[trigger] keys_f[k]@, h);
            assert(keys_f.contains(keys_f[k]));
            assert(keys_g.contains(keys_f[k]));
        }
        if bit_set(g, h) {
            let k = choose|k: int| 0 <= k < keys_g.len() && is_key_bit(#[trigger] keys_g[k]@, h);
            assert(keys_g.contains(keys_g[k]));
            assert(keys_f.contains(keys_g[k]));
        }
    }
    assert forall|n: int| 0 <= n < 32 implies #[trigger] f[n] == g[n] by {
        assert forall|i: u8| 0 <= i < 8 implies (#[trigger] (f[n] & (1u8 << i)) != 0 <==> g[n] & (
        1u8 << i) != 0) by {
            let h = 8 * n + i;
            assert(h / 8 == n && h % 8 == i);
            assert(bit_set(f, h) <==> bit_set(g, h));
        }
        lemma_same_bits_same_byte(f[n], g[n]);
    }
    assert(f =~= g);
}

} // verus!
