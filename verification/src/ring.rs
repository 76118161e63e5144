//! Copying in and out of a circular byte buffer.
use vstd::prelude::*;

use crate::bytes::copy_bytes;

verus! {

/// The `len` bytes found when reading `ring` from `offset` on, going round its end.
pub open spec fn ring_read(ring: Seq<u8>, offset: int, len: nat) -> Seq<u8> {
    Seq::new(len, |i: int| ring[(offset + i) % (ring.len() as int)])
}

/// `ring` after `src` was laid into it from `offset` on, going round its end. Where `src` is
/// longer than the ring, its later bytes win.
pub open spec fn ring_write(ring: Seq<u8>, offset: int, src: Seq<u8>) -> Seq<u8> {
    Seq::new(
        ring.len(),
        |j: int|
            if j + ring.len() < offset + src.len() {
                src[j + ring.len() - offset]
            } else if offset <= j < offset + src.len() {
                src[j - offset]
            } else {
                ring[j]
            },
    )
}

/// Copy `len` bytes from a ring buffer starting at `offset` into `dst`.
/// Handles wrap-around when `offset + len > ring.len()`.
pub fn copy_from_ring(ring: &[u8], offset: usize, len: usize, dst: &mut [u8])
    requires
        offset < ring.len(),
        len <= old(dst).len(),
        offset + len <= 2 * ring.len(),
    ensures
        final(dst)@ == ring_read(ring@, offset as int, len as nat) + old(dst)@.skip(len as int),
{
    let first: usize = ring.len() - offset;
    if first >= len {
        copy_bytes(dst, 0, ring, offset, len);
        assert forall|i: int| 0 <= i < len implies #[trigger] dst@[i] == ring_read(
            ring@,
            offset as int,
            len as nat,
        )[i] by {
            assert(dst@.subrange(0, len as int)[i] == ring@.subrange(
                offset as int,
                offset + len,
            )[i]);
            lemma_wrapped(offset + i, ring.len() as int);
        }
    } else {
        copy_bytes(dst, 0, ring, offset, first);
        let ghost mid = dst@;
        copy_bytes(dst, first, ring, 0, len - first);
        assert forall|i: int| 0 <= i < len implies #[trigger] dst@[i] == ring_read(
            ring@,
            offset as int,
            len as nat,
        )[i] by {
            lemma_wrapped(offset + i, ring.len() as int);
            if i < first {
                assert(mid.subrange(0, first as int)[i] == ring@.subrange(
                    offset as int,
                    offset + first,
                )[i]);
            } else {
                assert(dst@.subrange(first as int, len as int)[i - first] == ring@.subrange(
                    0,
                    len - first,
                )[i - first]);
            }
        }
    }
    assert(dst@ =~= ring_read(ring@, offset as int, len as nat) + old(dst)@.skip(len as int));
}

/// Copy `src` into a ring buffer starting at `offset`.
/// Handles wrap-around when `offset + src.len() > ring.len()`.
pub fn copy_to_ring(ring: &mut [u8], offset: usize, src: &[u8])
    requires
        offset < old(ring).len(),
        offset + src.len() <= 2 * old(ring).len(),
    ensures
        final(ring)@ == ring_write(old(ring)@, offset as int, src@),
{
    let ghost before = ring@;
    let first: usize = ring.len() - offset;
    if first >= src.len() {
        copy_bytes(ring, offset, src, 0, src.len());
        assert forall|j: int| offset <= j < offset + src.len() implies #[trigger] ring@[j]
            == src@[j - offset] by {
            assert(ring@.subrange(offset as int, offset + src.len())[j - offset] == src@.subrange(
                0,
                src.len() as int,
            )[j - offset]);
        }
    } else {
        copy_bytes(ring, offset, src, 0, first);
        let ghost mid = ring@;
        copy_bytes(ring, 0, src, first, src.len() - first);
        assert forall|j: int| 0 <= j < src.len() - first implies #[trigger] ring@[j] == src@[first
            + j] by {
            assert(ring@.subrange(0, src.len() - first)[j] == src@.subrange(
                first as int,
                src.len() as int,
            )[j]);
        }
        assert forall|j: int| offset <= j < ring.len() implies #[trigger] mid[j] == src@[j
            - offset] by {
            assert(mid.subrange(offset as int, offset + first)[j - offset] == src@.subrange(
                0,
                first as int,
            )[j - offset]);
        }
    }
    assert(ring@ =~= ring_write(before, offset as int, src@));
}

/// A position at most one round past the start of a ring of `n` bytes, brought back into it.
pub proof fn lemma_wrapped(x: int, n: int)
    requires
        0 < n,
        0 <= x < 2 * n,
    ensures
        x % n == if x < n {
            x
        } else {
            x - n
        },
{
    if x < n {
        vstd::arithmetic::div_mod::lemma_small_mod(x as nat, n as nat);
    } else {
        vstd::arithmetic::div_mod::lemma_mod_sub_multiples_vanish(x, n);
        vstd::arithmetic::div_mod::lemma_small_mod((x - n) as nat, n as nat);
    }
}

/// What was written to a ring that can hold it is what a read at the same place gives back.
pub proof fn lemma_ring_round_trip(ring: Seq<u8>, offset: int, src: Seq<u8>)
    requires
        0 <= offset < ring.len(),
        src.len() <= ring.len(),
    ensures
        ring_read(ring_write(ring, offset, src), offset, src.len()) == src,
{
    let written = ring_write(ring, offset, src);
    assert forall|i: int| 0 <= i < src.len() implies #[trigger] ring_read(
        written,
        offset,
        src.len(),
    )[i] == src[i] by {
        lemma_wrapped(offset + i, ring.len() as int);
    }
    assert(ring_read(written, offset, src.len()) =~= src);
}

/// Two regions of the ring that do not meet do not disturb each other: a write of `src` at
/// `offset` leaves what is read at the `len` bytes that follow it.
pub proof fn lemma_ring_write_elsewhere(ring: Seq<u8>, offset: int, src: Seq<u8>, len: nat)
    requires
        0 <= offset < ring.len(),
        src.len() + len <= ring.len(),
    ensures
        ring_read(ring_write(ring, offset, src), offset + src.len(), len) == ring_read(
            ring,
            offset + src.len(),
            len,
        ),
{
    let written = ring_write(ring, offset, src);
    assert forall|i: int| 0 <= i < len implies #[trigger] ring_read(
        written,
        offset + src.len(),
        len,
    )[i] == ring_read(ring, offset + src.len(), len)[i] by {
        lemma_wrapped(offset + src.len() + i, ring.len() as int);
    }
    assert(ring_read(written, offset + src.len(), len) =~= ring_read(
        ring,
        offset + src.len(),
        len,
    ));
}

} // verus!
