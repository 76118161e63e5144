//! Little-endian integers inside byte sequences.
use vstd::prelude::*;

verus! {

/// The unsigned 64-bit integer whose little-endian bytes start at `off`.
pub open spec fn get_u64(s: Seq<u8>, off: int) -> u64 {
    (s[off] + 0x100 * s[off + 1] + 0x1_0000 * s[off + 2] + 0x100_0000 * s[off + 3]
        + 0x1_0000_0000 * s[off + 4] + 0x100_0000_0000 * s[off + 5]
        + 0x1_0000_0000_0000 * s[off + 6] + 0x100_0000_0000_0000 * s[off + 7]) as u64
}

/// The unsigned 32-bit integer whose little-endian bytes start at `off`.
pub open spec fn get_u32(s: Seq<u8>, off: int) -> u32 {
    (s[off] + 0x100 * s[off + 1] + 0x1_0000 * s[off + 2] + 0x100_0000 * s[off + 3]) as u32
}

/// The unsigned 16-bit integer whose little-endian bytes start at `off`.
pub open spec fn get_u16(s: Seq<u8>, off: int) -> u16 {
    (s[off] + 0x100 * s[off + 1]) as u16
}

/// The 64-bit two's complement reading of `x`: the value that a cast to `i64` gives.
pub open spec fn signed(x: u64) -> i64 {
    if x < 0x8000_0000_0000_0000 {
        x as i64
    } else {
        (x - 0x1_0000_0000_0000_0000) as i64
    }
}

/// The signed 64-bit integer whose little-endian bytes start at `off`.
pub open spec fn get_i64(s: Seq<u8>, off: int) -> i64 {
    signed(get_u64(s, off))
}

/// `a` and `b` have the same length and differ at most at the positions `lo..hi`.
pub open spec fn same_outside(a: Seq<u8>, b: Seq<u8>, lo: int, hi: int) -> bool {
    &&& a.len() == b.len()
    &&& forall|i: int| 0 <= i < a.len() && !(lo <= i < hi) ==> #[trigger] b[i] == a[i]
}

/// `a` and `b` agree at the positions `lo..hi`.
pub open spec fn same_inside(a: Seq<u8>, b: Seq<u8>, lo: int, hi: int) -> bool {
    forall|i: int| lo <= i < hi ==> #[trigger] b[i] == a[i]
}

/// Two different unsigned integers have different two's complement readings.
pub proof fn lemma_signed_injective(x: u64, y: u64)
    ensures
        signed(x) == signed(y) <==> x == y,
{
}

/// A number made of a low part and of a multiple of `base` falls apart into the two.
proof fn lemma_split(low: int, high: int, base: int)
    requires
        0 <= low < base,
    ensures
        (low + base * high) / base == high,
        (low + base * high) % base == low,
{
    assert(low + base * high == high * base + low) by (nonlinear_arith);
    vstd::arithmetic::div_mod::lemma_fundamental_div_mod_converse(
        low + base * high,
        base,
        high,
        low,
    );
}

/// The bytes of an integer are its digits to base 256, least significant first.
pub proof fn lemma_little_endian(s: Seq<u8>, off: int)
    ensures
        get_u64(s, off) as int % 0x100 == s[off],
        get_u64(s, off) as int / 0x100 % 0x100 == s[off + 1],
        get_u64(s, off) as int / 0x1_0000 % 0x100 == s[off + 2],
        get_u64(s, off) as int / 0x100_0000 % 0x100 == s[off + 3],
        get_u64(s, off) as int / 0x1_0000_0000 % 0x100 == s[off + 4],
        get_u64(s, off) as int / 0x100_0000_0000 % 0x100 == s[off + 5],
        get_u64(s, off) as int / 0x1_0000_0000_0000 % 0x100 == s[off + 6],
        get_u64(s, off) as int / 0x100_0000_0000_0000 == s[off + 7],
{
    let x7: int = s[off + 7] as int;
    let x6: int = s[off + 6] + 0x100 * x7;
    let x5: int = s[off + 5] + 0x100 * x6;
    let x4: int = s[off + 4] + 0x100 * x5;
    let x3: int = s[off + 3] + 0x100 * x4;
    let x2: int = s[off + 2] + 0x100 * x3;
    let x1: int = s[off + 1] + 0x100 * x2;
    let x0: int = s[off] + 0x100 * x1;
    assert(get_u64(s, off) == x0);
    lemma_split(s[off] as int, x1, 0x100);
    lemma_split(s[off + 1] as int, x2, 0x100);
    lemma_split(s[off + 2] as int, x3, 0x100);
    lemma_split(s[off + 3] as int, x4, 0x100);
    lemma_split(s[off + 4] as int, x5, 0x100);
    lemma_split(s[off + 5] as int, x6, 0x100);
    lemma_split(s[off + 6] as int, x7, 0x100);
    let l1: int = s[off] + 0x100 * s[off + 1];
    let l2: int = l1 + 0x1_0000 * s[off + 2];
    let l3: int = l2 + 0x100_0000 * s[off + 3];
    let l4: int = l3 + 0x1_0000_0000 * s[off + 4];
    let l5: int = l4 + 0x100_0000_0000 * s[off + 5];
    let l6: int = l5 + 0x1_0000_0000_0000 * s[off + 6];
    lemma_split(l1, x2, 0x1_0000);
    lemma_split(l2, x3, 0x100_0000);
    lemma_split(l3, x4, 0x1_0000_0000);
    lemma_split(l4, x5, 0x100_0000_0000);
    lemma_split(l5, x6, 0x1_0000_0000_0000);
    lemma_split(l6, x7, 0x100_0000_0000_0000);
}

/// The bytes of shorter integers are their digits too, and a signed integer has the bytes of the
/// unsigned one that it is congruent to.
pub proof fn lemma_little_endian_short(s: Seq<u8>, off: int)
    ensures
        get_u32(s, off) as int % 0x100 == s[off],
        get_u32(s, off) as int / 0x100 % 0x100 == s[off + 1],
        get_u32(s, off) as int / 0x1_0000 % 0x100 == s[off + 2],
        get_u32(s, off) as int / 0x100_0000 == s[off + 3],
        get_u16(s, off) as int % 0x100 == s[off],
        get_u16(s, off) as int / 0x100 == s[off + 1],
        get_i64(s, off) as int % 0x1_0000_0000_0000_0000 == get_u64(s, off),
{
}

/// An unsigned integer cast to `i64`.
pub(crate) fn to_signed(x: u64) -> (r: i64)
    ensures
        r == signed(x),
{
    assert(x < 0x8000_0000_0000_0000u64 ==> x as i64 == x) by (bit_vector);
    assert(x >= 0x8000_0000_0000_0000u64 ==> x as i64 == x - 0x1_0000_0000_0000_0000)
        by (bit_vector);
    x as i64
}

/// The unsigned integer whose two's complement reading is `x`.
pub(crate) fn to_unsigned(x: i64) -> (r: u64)
    ensures
        signed(r) == x,
{
    assert(x >= 0i64 ==> x as u64 == x) by (bit_vector);
    assert(x < 0i64 ==> x as u64 == x + 0x1_0000_0000_0000_0000) by (bit_vector);
    x as u64
}

pub(crate) fn read_u64(s: &[u8], off: usize) -> (r: u64)
    requires
        off + 8 <= s.len(),
    ensures
        r == get_u64(s@, off as int),
{
    (s[off] as u64) + 0x100 * (s[off + 1] as u64) + 0x1_0000 * (s[off + 2] as u64) + 0x100_0000 * (
    s[off + 3] as u64) + 0x1_0000_0000 * (s[off + 4] as u64) + 0x100_0000_0000 * (
    s[off + 5] as u64) + 0x1_0000_0000_0000 * (s[off + 6] as u64) + 0x100_0000_0000_0000 * (
    s[off + 7] as u64)
}

pub(crate) fn read_i64(s: &[u8], off: usize) -> (r: i64)
    requires
        off + 8 <= s.len(),
    ensures
        r == get_i64(s@, off as int),
{
    to_signed(read_u64(s, off))
}

pub(crate) fn read_u32(s: &[u8], off: usize) -> (r: u32)
    requires
        off + 4 <= s.len(),
    ensures
        r == get_u32(s@, off as int),
{
    (s[off] as u32) + 0x100 * (s[off + 1] as u32) + 0x1_0000 * (s[off + 2] as u32) + 0x100_0000 * (
    s[off + 3] as u32)
}

pub(crate) fn read_u16(s: &[u8], off: usize) -> (r: u16)
    requires
        off + 2 <= s.len(),
    ensures
        r == get_u16(s@, off as int),
{
    (s[off] as u16) + 0x100 * (s[off + 1] as u16)
}

pub(crate) fn write_u32(s: &mut [u8], off: usize, x: u32)
    requires
        off + 4 <= old(s).len(),
    ensures
        get_u32(final(s)@, off as int) == x,
        same_outside(old(s)@, final(s)@, off as int, off + 4),
{
    let x1: u32 = x / 0x100;
    let x2: u32 = x1 / 0x100;
    let x3: u32 = x2 / 0x100;
    s[off] = (x % 0x100) as u8;
    s[off + 1] = (x1 % 0x100) as u8;
    s[off + 2] = (x2 % 0x100) as u8;
    s[off + 3] = x3 as u8;
}

pub(crate) fn write_u16(s: &mut [u8], off: usize, x: u16)
    requires
        off + 2 <= old(s).len(),
    ensures
        get_u16(final(s)@, off as int) == x,
        same_outside(old(s)@, final(s)@, off as int, off + 2),
{
    let x1: u16 = x / 0x100;
    s[off] = (x % 0x100) as u8;
    s[off + 1] = x1 as u8;
}

pub(crate) fn write_u64(s: &mut [u8], off: usize, x: u64)
    requires
        off + 8 <= old(s).len(),
    ensures
        get_u64(final(s)@, off as int) == x,
        same_outside(old(s)@, final(s)@, off as int, off + 8),
{
    let low: u32 = (x % 0x1_0000_0000) as u32;
    let high: u32 = (x / 0x1_0000_0000) as u32;
    write_u32(s, off, low);
    let ghost mid = s@;
    write_u32(s, off + 4, high);
    assert(get_u32(s@, off as int) == get_u32(mid, off as int));
}

pub(crate) fn write_i64(s: &mut [u8], off: usize, x: i64)
    requires
        off + 8 <= old(s).len(),
    ensures
        get_i64(final(s)@, off as int) == x,
        same_outside(old(s)@, final(s)@, off as int, off + 8),
{
    write_u64(s, off, to_unsigned(x));
}

/// Copies `len` bytes of `src` starting at `from` to `dst` starting at `to`.
pub(crate) fn copy_bytes(dst: &mut [u8], to: usize, src: &[u8], from: usize, len: usize)
    requires
        to + len <= old(dst).len(),
        from + len <= src.len(),
    ensures
        same_outside(old(dst)@, final(dst)@, to as int, to + len),
        final(dst)@.subrange(to as int, to + len) == src@.subrange(from as int, from + len),
{
    let mut i: usize = 0;
    while i < len
        invariant
            i <= len,
            to + len <= dst.len(),
            from + len <= src.len(),
            dst.len() == old(dst).len(),
            same_outside(old(dst)@, dst@, to as int, to + i),
            forall|j: int| to <= j < to + i ==> #[trigger] dst@[j] == src@[from + (j - to)],
        decreases len - i,
    {
        dst[to + i] = src[from + i];
        i += 1;
    }
    assert(dst@.subrange(to as int, to + len) =~= src@.subrange(from as int, from + len));
}

/// Sets the `len` bytes of `dst` from `to` on to zero.
pub(crate) fn zero_bytes(dst: &mut [u8], to: usize, len: usize)
    requires
        to + len <= old(dst).len(),
    ensures
        same_outside(old(dst)@, final(dst)@, to as int, to + len),
        forall|j: int| to <= j < to + len ==> #[trigger] final(dst)@[j] == 0,
{
    let mut i: usize = 0;
    while i < len
        invariant
            i <= len,
            to + len <= dst.len(),
            dst.len() == old(dst).len(),
            same_outside(old(dst)@, dst@, to as int, to + i),
            forall|j: int| to <= j < to + i ==> #[trigger] dst@[j] == 0,
        decreases len - i,
    {
        dst[to + i] = 0;
        i += 1;
    }
}

} // verus!
