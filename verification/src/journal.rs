//! What a region records: the messages written to it, as far as the rings still hold them.
use vstd::prelude::*;

use crate::bytes::get_i64;
use crate::bytes::get_u16;
use crate::bytes::get_u32;
use crate::bytes::get_u64;
use crate::bytes::same_inside;
use crate::bytes::signed;
use crate::layout::header_at;
use crate::layout::ShmHeader;
use crate::layout::ShmLayout;
use crate::layout::HEADER_SIZE;
use crate::layout::INDEX_ENTRY_SIZE;
use crate::layout::INDEX_ENTRY_SIZE_V2;
use crate::ring::ring_write;

verus! {

/// A message and what its index entry says of it. The message type, the flags and the metadata
/// are kept by V2 regions only.
pub struct Record {
    pub data: Seq<u8>,
    pub slot: u64,
    pub msg_type: u8,
    pub flags: u8,
    pub meta: Seq<u8>,
}

/// All message bytes of `log`, one message after the other.
pub open spec fn stream(log: Seq<Record>) -> Seq<u8>
    decreases log.len(),
{
    if log.len() == 0 {
        Seq::empty()
    } else {
        stream(log.drop_last()) + log.last().data
    }
}

/// Where message `p` of `log` starts in the stream of message bytes.
pub open spec fn start_of(log: Seq<Record>, p: int) -> nat {
    stream(log.take(p)).len()
}

impl ShmLayout {
    /// The index entry for position `p` describes `m`, whose bytes start at `data_off` of the
    /// stream. Nothing is said of the commit flag. Message lengths are kept modulo 2^32.
    pub open spec fn describes(self, r: Seq<u8>, p: int, data_off: int, m: Record) -> bool {
        let off = self.entry_off(self.slot_of(p));
        &&& get_u64(r, off + 8) == data_off
        &&& get_u32(r, off + 16) == m.data.len() % 0x1_0000_0000
        &&& get_u64(r, off + 24) == m.slot
        &&& self.entry_size == INDEX_ENTRY_SIZE_V2 ==> {
            &&& r[off + 20] == m.msg_type
            &&& r[off + 21] == m.flags
            &&& get_u16(r, off + 22) == 0
            &&& r.subrange(off + 32, off + 128) == m.meta
        }
    }

    /// The index entry for position `p` is committed and describes `m`.
    pub open spec fn committed(self, r: Seq<u8>, p: int, data_off: int, m: Record) -> bool {
        &&& get_i64(r, self.entry_off(self.slot_of(p))) == signed(p as u64)
        &&& self.describes(r, p, data_off, m)
    }

    /// Outside the index entry for position `p`, the index ring of `r1` is that of `r0`, and so
    /// is whatever lies behind the data ring. Bytes 20 to 24 of a V1 entry stay too.
    pub open spec fn other_bytes_kept(self, r0: Seq<u8>, r1: Seq<u8>, p: int) -> bool {
        let off = self.entry_off(self.slot_of(p));
        &&& r1.len() == r0.len()
        &&& same_inside(r0, r1, HEADER_SIZE as int, off)
        &&& same_inside(r0, r1, off + self.entry_size, self.data_base())
        &&& same_inside(r0, r1, self.total(), r0.len() as int)
        &&& self.entry_size == INDEX_ENTRY_SIZE ==> same_inside(r0, r1, off + 20, off + 24)
    }

    /// `r1` is `r0` with the bytes of `m` laid into the data ring at `data_off` and the index
    /// entry for position `p` filled in, but not committed: the header and the commit flag are
    /// as they were.
    pub open spec fn staged(
        self,
        r0: Seq<u8>,
        r1: Seq<u8>,
        p: int,
        data_off: int,
        m: Record,
    ) -> bool {
        let off = self.entry_off(self.slot_of(p));
        &&& self.other_bytes_kept(r0, r1, p)
        &&& same_inside(r0, r1, 0, HEADER_SIZE as int)
        &&& same_inside(r0, r1, off, off + 8)
        &&& self.describes(r1, p, data_off, m)
        &&& self.data_ring(r1) == ring_write(
            self.data_ring(r0),
            data_off % (self.data_capacity as int),
            m.data,
        )
    }

    /// `r1` is `r0` after `m` was written at position `p`, its bytes starting at `data_off` of
    /// the stream: the entry for `p` is committed and the header counts the message.
    pub open spec fn written(
        self,
        r0: Seq<u8>,
        r1: Seq<u8>,
        p: int,
        data_off: int,
        m: Record,
    ) -> bool {
        &&& self.other_bytes_kept(r0, r1, p)
        &&& header_at(r1) == (ShmHeader {
            tail: (p + 1) as u64,
            data_tail: (data_off + m.data.len()) as u64,
            ..header_at(r0)
        })
        &&& self.committed(r1, p, data_off, m)
        &&& self.data_ring(r1) == ring_write(
            self.data_ring(r0),
            data_off % (self.data_capacity as int),
            m.data,
        )
    }

    /// Region `r` records `log`: its header counts the messages and their bytes, the index ring
    /// has an entry for each of the last `idx_capacity` messages and is empty where no message
    /// came yet, and the data ring has the last `data_capacity` bytes of the stream.
    pub open spec fn records(self, r: Seq<u8>, log: Seq<Record>) -> bool {
        let bytes = stream(log);
        &&& self.wf()
        &&& r.len() >= self.total()
        &&& log.len() <= u64::MAX
        &&& bytes.len() <= u64::MAX
        &&& header_at(r) == (ShmHeader {
            tail: log.len() as u64,
            data_tail: bytes.len() as u64,
            closed: header_at(r).closed,
            ..self.fresh_header()
        })
        &&& forall|p: int|
            0 <= p < log.len() && log.len() - p <= self.idx_capacity ==> self.committed(
                r,
                p,
                start_of(log, p) as int,
                #[trigger] log[p],
            )
        &&& forall|i: int|
            log.len() <= i < self.idx_capacity ==> #[trigger] self.entry_empty(r, i)
        &&& self.ring_holds(r, bytes)
    }

    /// The data ring of `r` has the last `data_capacity` bytes of `bytes`, each in its place.
    pub open spec fn ring_holds(self, r: Seq<u8>, bytes: Seq<u8>) -> bool {
        forall|d: int|
            0 <= d < bytes.len() && bytes.len() - d <= self.data_capacity ==> self.data_ring(
                r,
            )[d % (self.data_capacity as int)] == #[trigger] bytes[d]
    }
}

/// Two positions less than `n` apart fall on different slots of a ring of `n` slots.
pub proof fn lemma_slots_differ(p: int, q: int, n: int)
    requires
        0 < n,
        p < q < p + n,
    ensures
        p % n != q % n,
{
    if p % n == q % n {
        vstd::arithmetic::div_mod::lemma_fundamental_div_mod(p, n);
        vstd::arithmetic::div_mod::lemma_fundamental_div_mod(q, n);
        let a = p / n;
        let b = q / n;
        assert(q - p == n * b - n * a);
        assert(n * b - n * a == n * (b - a)) by (nonlinear_arith);
        assert(false) by (nonlinear_arith)
            requires
                n > 0,
                0 < n * (b - a) < n,
        ;
    }
}

/// A remainder moves along with the number: `x + i` falls `i` bytes after `x`, going round.
pub proof fn lemma_remainder_moves(x: int, i: int, n: int)
    requires
        0 < n,
    ensures
        (x + i) % n == (x % n + i) % n,
        0 <= x % n < n,
{
    vstd::arithmetic::div_mod::lemma_fundamental_div_mod(x, n);
    vstd::arithmetic::div_mod::lemma_mod_bound(x, n);
    vstd::arithmetic::div_mod::lemma_mod_multiples_vanish(x / n, x % n + i, n);
}

} // verus!
