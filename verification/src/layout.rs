//! The shared region: a header, a ring of index entries, a ring of message bytes.
//!
//! All integers are stored little-endian. The header takes the first 64 bytes, the index
//! entries follow it without gaps, and the data ring follows the last entry.
use vstd::prelude::*;

use crate::bytes::copy_bytes;
use crate::bytes::get_i64;
use crate::bytes::get_u16;
use crate::bytes::get_u32;
use crate::bytes::get_u64;
use crate::bytes::read_i64;
use crate::bytes::read_u16;
use crate::bytes::read_u32;
use crate::bytes::read_u64;
use crate::bytes::same_inside;
use crate::bytes::same_outside;
use crate::bytes::write_i64;
use crate::bytes::write_u16;
use crate::bytes::write_u32;
use crate::bytes::write_u64;
use crate::bytes::zero_bytes;
use crate::capacity::capacity_limit;
use crate::capacity::is_power_of_two;
use crate::capacity::lemma_power_at_least;
use crate::capacity::next_power_of_two;
use crate::capacity::power_at_least;

verus! {

pub const MAGIC: u64 = 0x52494348_41545348; // "RICHATSH"

pub const VERSION: u64 = 1;

pub const VERSION_V2: u64 = 2;

pub const HEADER_SIZE: usize = 64;

pub const INDEX_ENTRY_SIZE: usize = 32;

pub const INDEX_ENTRY_SIZE_V2: usize = 128;

// --- Message types ---

pub const MSG_TYPE_SLOT: u8 = 0;

pub const MSG_TYPE_ACCOUNT: u8 = 1;

pub const MSG_TYPE_TRANSACTION: u8 = 2;

pub const MSG_TYPE_ENTRY: u8 = 3;

pub const MSG_TYPE_BLOCK_META: u8 = 4;

// --- Flags ---
// Transaction: bit0=is_vote, bit1=failed

pub const FLAG_TX_IS_VOTE: u8 = 0x01;

pub const FLAG_TX_FAILED: u8 = 0x02;

// Account: bit0=executable, bit1=nonempty_txn_sig, bit2=is_startup

pub const FLAG_ACC_EXECUTABLE: u8 = 0x01;

pub const FLAG_ACC_HAS_TXN_SIG: u8 = 0x02;

pub const FLAG_ACC_IS_STARTUP: u8 = 0x04;

// --- Header ---

/// Offset of the header's `tail` field.
pub const TAIL_OFFSET: usize = 32;

/// Offset of the header's `data_tail` field.
pub const DATA_TAIL_OFFSET: usize = 40;

/// Offset of the header's `closed` field.
pub const CLOSED_OFFSET: usize = 48;

/// Shared memory file header (64 bytes): the values its fields hold at one moment.
#[derive(Debug, Clone, Copy, PartialEq, Eq, Structural)]
pub struct ShmHeader {
    pub magic: u64,
    pub version: u64,
    pub idx_capacity: u64,
    pub data_capacity: u64,
    /// Number of messages written so far
    pub tail: u64,
    /// Number of message bytes written so far
    pub data_tail: u64,
    /// Nonzero once the writer has shut down
    pub closed: u64,
    pub index_entry_size: u64,
}

/// The header held by the first 64 bytes of `r`.
pub open spec fn header_at(r: Seq<u8>) -> ShmHeader {
    ShmHeader {
        magic: get_u64(r, 0),
        version: get_u64(r, 8),
        idx_capacity: get_u64(r, 16),
        data_capacity: get_u64(r, 24),
        tail: get_u64(r, 32),
        data_tail: get_u64(r, 40),
        closed: get_u64(r, 48),
        index_entry_size: get_u64(r, 56),
    }
}

impl ShmHeader {
    /// Reads the header of a region.
    pub fn from_bytes(region: &[u8]) -> (header: ShmHeader)
        requires
            region.len() >= HEADER_SIZE,
        ensures
            header == header_at(region@),
    {
        ShmHeader {
            magic: read_u64(region, 0),
            version: read_u64(region, 8),
            idx_capacity: read_u64(region, 16),
            data_capacity: read_u64(region, 24),
            tail: read_u64(region, TAIL_OFFSET),
            data_tail: read_u64(region, DATA_TAIL_OFFSET),
            closed: read_u64(region, CLOSED_OFFSET),
            index_entry_size: read_u64(region, 56),
        }
    }

    /// Stores the header at the start of a region.
    pub fn write_to(&self, region: &mut [u8])
        requires
            old(region).len() >= HEADER_SIZE,
        ensures
            header_at(final(region)@) == *self,
            same_outside(old(region)@, final(region)@, 0, HEADER_SIZE as int),
    {
        write_u64(region, 0, self.magic);
        write_u64(region, 8, self.version);
        write_u64(region, 16, self.idx_capacity);
        write_u64(region, 24, self.data_capacity);
        write_u64(region, TAIL_OFFSET, self.tail);
        write_u64(region, DATA_TAIL_OFFSET, self.data_tail);
        write_u64(region, CLOSED_OFFSET, self.closed);
        write_u64(region, 56, self.index_entry_size);
    }
}

// --- Index Entry ---

/// Index ring entry (32 bytes).
#[derive(Debug, Clone, Copy, PartialEq, Eq, Structural)]
pub struct ShmIndexEntry {
    /// Commit flag: -1 = empty, >=0 = committed position
    pub seq: i64,
    /// Byte offset in data ring (monotonic, use % data_capacity)
    pub data_off: u64,
    /// Length of the message in bytes
    pub data_len: u32,
    pub _reserved: u32,
    /// Solana slot number (0 = not tracked)
    pub slot: u64,
}

/// The index entry held by the 32 bytes of `r` that start at `off`.
pub open spec fn entry_at(r: Seq<u8>, off: int) -> ShmIndexEntry {
    ShmIndexEntry {
        seq: get_i64(r, off),
        data_off: get_u64(r, off + 8),
        data_len: get_u32(r, off + 16),
        _reserved: get_u32(r, off + 20),
        slot: get_u64(r, off + 24),
    }
}

impl ShmIndexEntry {
    /// Reads the index entry that starts at `off`.
    pub fn from_bytes(region: &[u8], off: usize) -> (entry: ShmIndexEntry)
        requires
            off + INDEX_ENTRY_SIZE <= region.len(),
        ensures
            entry == entry_at(region@, off as int),
    {
        ShmIndexEntry {
            seq: read_i64(region, off),
            data_off: read_u64(region, off + 8),
            data_len: read_u32(region, off + 16),
            _reserved: read_u32(region, off + 20),
            slot: read_u64(region, off + 24),
        }
    }

    /// Stores the index entry at `off`.
    pub fn write_to(&self, region: &mut [u8], off: usize)
        requires
            off + INDEX_ENTRY_SIZE <= old(region).len(),
        ensures
            entry_at(final(region)@, off as int) == *self,
            same_outside(old(region)@, final(region)@, off as int, off + INDEX_ENTRY_SIZE),
    {
        write_i64(region, off, self.seq);
        write_u64(region, off + 8, self.data_off);
        write_u32(region, off + 16, self.data_len);
        write_u32(region, off + 20, self._reserved);
        write_u64(region, off + 24, self.slot);
    }
}

// --- Index Entry V2 (128 bytes) ---

/// V2 index ring entry with inline metadata for zero-parse filtering.
#[derive(Debug, Clone, Copy)]
pub struct ShmIndexEntryV2 {
    // --- Base (32B, same layout as V1) ---
    /// Commit flag: -1 = empty, >=0 = committed position
    pub seq: i64,
    /// Byte offset in data ring (monotonic, use % data_capacity)
    pub data_off: u64,
    /// Length of the message in bytes
    pub data_len: u32,
    /// Message type (MSG_TYPE_*)
    pub msg_type: u8,
    /// Bit flags (interpretation depends on msg_type)
    pub flags: u8,
    pub _pad0: u16,
    /// Solana slot number
    pub slot: u64,
    // --- Type-specific metadata (96B) ---
    // Account: pubkey[32] + owner[32] + lamports[8] + pad[24]
    // Transaction: signature[64] + account_bloom[32]
    // Slot: parent[8] + pad[88]
    // Entry: index[8] + executed_tx_count[8] + pad[80]
    // BlockMeta: pad[96]
    pub meta: [u8; 96],
}

/// What a V2 index entry says.
#[verifier::ext_equal]
pub struct IndexEntryV2View {
    pub seq: i64,
    pub data_off: u64,
    pub data_len: u32,
    pub msg_type: u8,
    pub flags: u8,
    pub pad0: u16,
    pub slot: u64,
    pub meta: Seq<u8>,
}

impl View for ShmIndexEntryV2 {
    type V = IndexEntryV2View;

    open spec fn view(&self) -> IndexEntryV2View {
        IndexEntryV2View {
            seq: self.seq,
            data_off: self.data_off,
            data_len: self.data_len,
            msg_type: self.msg_type,
            flags: self.flags,
            pad0: self._pad0,
            slot: self.slot,
            meta: self.meta@,
        }
    }
}

/// The V2 index entry held by the 128 bytes of `r` that start at `off`.
pub open spec fn entry_v2_at(r: Seq<u8>, off: int) -> IndexEntryV2View {
    IndexEntryV2View {
        seq: get_i64(r, off),
        data_off: get_u64(r, off + 8),
        data_len: get_u32(r, off + 16),
        msg_type: r[off + 20],
        flags: r[off + 21],
        pad0: get_u16(r, off + 22),
        slot: get_u64(r, off + 24),
        meta: r.subrange(off + 32, off + 128),
    }
}

/// The `N` bytes of `s` that start at `from`, as an array.
pub(crate) fn to_array<const N: usize>(s: &[u8], from: usize) -> (r: [u8; N])
    requires
        from + N <= s.len(),
    ensures
        r@ == s@.subrange(from as int, from + N),
{
    let mut r: [u8; N] = vstd::array::array_fill_for_copy_types(0u8);
    let mut i: usize = 0;
    while i < N
        invariant
            i <= N,
            from + N <= s.len(),
            forall|j: int| 0 <= j < i ==> #[trigger] r@[j] == s@[from + j],
        decreases N - i,
    {
        r[i] = s[from + i];
        i += 1;
    }
    assert(r@ =~= s@.subrange(from as int, from + N));
    r
}

impl ShmIndexEntryV2 {
    /// Reads the V2 index entry that starts at `off`.
    pub fn from_bytes(region: &[u8], off: usize) -> (entry: ShmIndexEntryV2)
        requires
            off + INDEX_ENTRY_SIZE_V2 <= region.len(),
        ensures
            entry@ == entry_v2_at(region@, off as int),
    {
        ShmIndexEntryV2 {
            seq: read_i64(region, off),
            data_off: read_u64(region, off + 8),
            data_len: read_u32(region, off + 16),
            msg_type: region[off + 20],
            flags: region[off + 21],
            _pad0: read_u16(region, off + 22),
            slot: read_u64(region, off + 24),
            meta: to_array::<96>(region, off + 32),
        }
    }

    /// Stores everything but the commit flag: the bytes from `off + 8` on.
    pub(crate) fn write_body_to(&self, region: &mut [u8], off: usize)
        requires
            off + INDEX_ENTRY_SIZE_V2 <= old(region).len(),
        ensures
            entry_v2_at(final(region)@, off as int) == (IndexEntryV2View {
                seq: get_i64(old(region)@, off as int),
                ..self@
            }),
            same_outside(old(region)@, final(region)@, off + 8, off + INDEX_ENTRY_SIZE_V2),
    {
        write_u64(region, off + 8, self.data_off);
        write_u32(region, off + 16, self.data_len);
        region[off + 20] = self.msg_type;
        region[off + 21] = self.flags;
        write_u16(region, off + 22, self._pad0);
        write_u64(region, off + 24, self.slot);
        copy_bytes(region, off + 32, self.meta.as_slice(), 0, 96);
        assert(self.meta@.subrange(0, 96) =~= self.meta@);
    }

    /// Stores the V2 index entry at `off`.
    pub fn write_to(&self, region: &mut [u8], off: usize)
        requires
            off + INDEX_ENTRY_SIZE_V2 <= old(region).len(),
        ensures
            entry_v2_at(final(region)@, off as int) == self@,
            same_outside(old(region)@, final(region)@, off as int, off + INDEX_ENTRY_SIZE_V2),
    {
        write_i64(region, off, self.seq);
        self.write_body_to(region, off);
    }

    /// Account pubkey (first 32 bytes of meta). Only valid when msg_type == MSG_TYPE_ACCOUNT.
    pub fn account_pubkey(&self) -> (r: [u8; 32])
        ensures
            r@ == self.meta@.subrange(0, 32),
    {
        to_array::<32>(self.meta.as_slice(), 0)
    }

    /// Account owner (bytes 32..64 of meta). Only valid when msg_type == MSG_TYPE_ACCOUNT.
    pub fn account_owner(&self) -> (r: [u8; 32])
        ensures
            r@ == self.meta@.subrange(32, 64),
    {
        to_array::<32>(self.meta.as_slice(), 32)
    }

    /// Account lamports (bytes 64..72 of meta). Only valid when msg_type == MSG_TYPE_ACCOUNT.
    pub fn account_lamports(&self) -> (r: u64)
        ensures
            r == get_u64(self.meta@, 64),
    {
        read_u64(self.meta.as_slice(), 64)
    }

    /// Transaction signature (first 64 bytes of meta). Only valid when msg_type == MSG_TYPE_TRANSACTION.
    pub fn tx_signature(&self) -> (r: [u8; 64])
        ensures
            r@ == self.meta@.subrange(0, 64),
    {
        to_array::<64>(self.meta.as_slice(), 0)
    }

    /// Transaction account bloom filter (bytes 64..96 of meta). Only valid when msg_type == MSG_TYPE_TRANSACTION.
    pub fn tx_account_bloom(&self) -> (r: [u8; 32])
        ensures
            r@ == self.meta@.subrange(64, 96),
    {
        to_array::<32>(self.meta.as_slice(), 64)
    }

    /// Slot parent (first 8 bytes of meta). Only valid when msg_type == MSG_TYPE_SLOT.
    pub fn slot_parent(&self) -> (r: u64)
        ensures
            r == get_u64(self.meta@, 0),
    {
        read_u64(self.meta.as_slice(), 0)
    }

    /// Entry index (first 8 bytes of meta). Only valid when msg_type == MSG_TYPE_ENTRY.
    pub fn entry_index(&self) -> (r: u64)
        ensures
            r == get_u64(self.meta@, 0),
    {
        read_u64(self.meta.as_slice(), 0)
    }

    /// Entry executed_transaction_count (bytes 8..16 of meta). Only valid when msg_type == MSG_TYPE_ENTRY.
    pub fn entry_exec_tx_count(&self) -> (r: u64)
        ensures
            r == get_u64(self.meta@, 8),
    {
        read_u64(self.meta.as_slice(), 8)
    }
}

// --- ShmWriteMeta ---

/// Metadata to be written into a V2 index entry alongside the data.
#[derive(Debug, Clone, Copy)]
pub struct ShmWriteMeta {
    pub msg_type: u8,
    pub flags: u8,
    pub slot: u64,
    pub meta: [u8; 96],
}

impl Default for ShmWriteMeta {
    fn default() -> (r: Self)
        ensures
            r.msg_type == 0,
            r.flags == 0,
            r.slot == 0,
            r.meta@ == Seq::new(96, |i: int| 0u8),
    {
        let r = ShmWriteMeta { msg_type: 0, flags: 0, slot: 0, meta: [0u8; 96] };
        assert(r.meta@ =~= Seq::new(96, |i: int| 0u8));
        r
    }
}

// --- Layout ---

/// The size of an index entry in a region of the given version.
pub open spec fn entry_size_of(version: u64) -> usize {
    if version >= VERSION_V2 {
        INDEX_ENTRY_SIZE_V2
    } else {
        INDEX_ENTRY_SIZE
    }
}

/// The sizes of a region's parts.
#[derive(Debug, Clone, Copy, PartialEq, Eq, Structural)]
pub struct ShmLayout {
    pub version: u64,
    pub idx_capacity: usize,
    pub data_capacity: usize,
    pub entry_size: usize,
}

/// Which size of a requested region does not fit the address space.
#[derive(Debug, Clone, Copy, PartialEq, Eq, Structural)]
pub enum LayoutError {
    /// The next power of two of a requested capacity
    Capacity,
    /// The size of the index region
    IndexRegion,
    /// The total size
    Total,
}

/// The layout of a region for that many messages and message bytes: both are rounded up to powers
/// of two. The sizes must fit the address space; the error names the first that does not.
pub open spec fn planned(max_messages: usize, max_bytes: usize, version: u64) -> Result<
    ShmLayout,
    LayoutError,
> {
    let idx = power_at_least(max_messages as nat);
    let data = power_at_least(max_bytes as nat);
    let index_size = idx * entry_size_of(version);
    if max_messages > capacity_limit() || max_bytes > capacity_limit() {
        Err(LayoutError::Capacity)
    } else if index_size > usize::MAX {
        Err(LayoutError::IndexRegion)
    } else if HEADER_SIZE + index_size + data > usize::MAX {
        Err(LayoutError::Total)
    } else {
        Ok(
            ShmLayout {
                version,
                idx_capacity: idx as usize,
                data_capacity: data as usize,
                entry_size: entry_size_of(version),
            },
        )
    }
}

impl ShmLayout {
    /// Where the `i`-th index entry starts.
    pub open spec fn entry_off(self, i: int) -> int {
        HEADER_SIZE + i * self.entry_size
    }

    /// Where the data ring starts.
    pub open spec fn data_base(self) -> int {
        HEADER_SIZE + self.idx_capacity * self.entry_size
    }

    /// The size of the whole region.
    pub open spec fn total(self) -> int {
        self.data_base() + self.data_capacity
    }

    /// The slot of position `p` in the index ring.
    pub open spec fn slot_of(self, p: int) -> int {
        p % (self.idx_capacity as int)
    }

    /// The data ring of region `r`.
    pub open spec fn data_ring(self, r: Seq<u8>) -> Seq<u8> {
        r.subrange(self.data_base(), self.total())
    }

    /// Both capacities are powers of two, the entry size goes with the version, and the region
    /// fits the address space.
    pub open spec fn wf(self) -> bool {
        &&& is_power_of_two(self.idx_capacity as int)
        &&& is_power_of_two(self.data_capacity as int)
        &&& self.idx_capacity > 0
        &&& self.data_capacity > 0
        &&& self.entry_size == entry_size_of(self.version)
        &&& self.total() <= usize::MAX
    }

    /// The header of a region of this layout to which nothing was written yet.
    pub open spec fn fresh_header(self) -> ShmHeader {
        ShmHeader {
            magic: MAGIC,
            version: self.version,
            idx_capacity: self.idx_capacity as u64,
            data_capacity: self.data_capacity as u64,
            tail: 0,
            data_tail: 0,
            closed: 0,
            index_entry_size: self.entry_size as u64,
        }
    }

    /// Index entry `i` of `r` is empty: its commit flag is -1 and all else is zero.
    pub open spec fn entry_empty(self, r: Seq<u8>, i: int) -> bool {
        &&& get_i64(r, self.entry_off(i)) == -1
        &&& forall|j: int|
            self.entry_off(i) + 8 <= j < self.entry_off(i) + self.entry_size ==> #[trigger] r[j]
                == 0
    }

    /// An entry lies between the header and the data ring.
    pub proof fn lemma_entry_inside(self, i: int)
        requires
            0 <= i < self.idx_capacity,
        ensures
            HEADER_SIZE <= self.entry_off(i),
            self.entry_off(i) + self.entry_size <= self.data_base(),
    {
        let es = self.entry_size as int;
        let n = self.idx_capacity as int;
        assert(i * es >= 0 && i * es + es <= n * es) by (nonlinear_arith)
            requires
                0 <= i < n,
                es >= 0,
        ;
    }

    /// Different entries do not overlap.
    pub proof fn lemma_entries_apart(self, i: int, j: int)
        requires
            i < j,
        ensures
            self.entry_off(i) + self.entry_size <= self.entry_off(j),
    {
        let es = self.entry_size as int;
        assert(i * es + es <= j * es) by (nonlinear_arith)
            requires
                i < j,
                es >= 0,
        ;
    }

    /// Plans the region for the requested number of messages and message bytes: both are
    /// rounded up to powers of two.
    pub fn plan(max_messages: usize, max_bytes: usize, version: u64) -> (r: Result<
        ShmLayout,
        LayoutError,
    >)
        ensures
            r == planned(max_messages, max_bytes, version),
            r matches Ok(layout) ==> layout.wf(),
    {
        let limit: usize = usize::MAX / 2 + 1;
        if max_messages > limit || max_bytes > limit {
            return Err(LayoutError::Capacity);
        }
        let idx_capacity: usize = next_power_of_two(max_messages);
        let data_capacity: usize = next_power_of_two(max_bytes);
        proof {
            lemma_power_at_least(max_messages as nat);
            lemma_power_at_least(max_bytes as nat);
        }
        let entry_size: usize = if version >= VERSION_V2 {
            INDEX_ENTRY_SIZE_V2
        } else {
            INDEX_ENTRY_SIZE
        };
        let index_size: usize = match idx_capacity.checked_mul(entry_size) {
            Some(size) => size,
            None => {
                return Err(LayoutError::IndexRegion);
            },
        };
        let data_base: usize = match HEADER_SIZE.checked_add(index_size) {
            Some(size) => size,
            None => {
                return Err(LayoutError::Total);
            },
        };
        match data_base.checked_add(data_capacity) {
            Some(_) => Ok(ShmLayout { version, idx_capacity, data_capacity, entry_size }),
            None => Err(LayoutError::Total),
        }
    }

    /// The size of the whole region.
    pub fn total_size(&self) -> (r: usize)
        requires
            self.wf(),
        ensures
            r == self.total(),
    {
        self.data_base_offset() + self.data_capacity
    }

    /// Where the data ring starts.
    pub fn data_base_offset(&self) -> (r: usize)
        requires
            self.wf(),
        ensures
            r == self.data_base(),
    {
        assert(self.idx_capacity * self.entry_size >= 0) by (nonlinear_arith);
        HEADER_SIZE + self.idx_capacity * self.entry_size
    }

    /// Where the `i`-th index entry starts.
    pub fn entry_offset(&self, i: usize) -> (r: usize)
        requires
            self.wf(),
            i < self.idx_capacity,
        ensures
            r == self.entry_off(i as int),
    {
        proof {
            self.lemma_entry_inside(i as int);
        }
        assert(i * self.entry_size >= 0) by (nonlinear_arith);
        HEADER_SIZE + i * self.entry_size
    }

    /// Initializes a region: a fresh header, and every index entry empty. The data ring keeps
    /// its bytes.
    pub fn init_region(&self, region: &mut [u8])
        requires
            self.wf(),
            old(region).len() >= self.total(),
        ensures
            header_at(final(region)@) == self.fresh_header(),
            forall|i: int|
                0 <= i < self.idx_capacity ==> #[trigger] self.entry_empty(final(region)@, i),
            same_outside(old(region)@, final(region)@, 0, self.data_base()),
    {
        let header = ShmHeader {
            magic: MAGIC,
            version: self.version,
            idx_capacity: self.idx_capacity as u64,
            data_capacity: self.data_capacity as u64,
            tail: 0,
            data_tail: 0,
            closed: 0,
            index_entry_size: self.entry_size as u64,
        };
        proof {
            assert(self.idx_capacity * self.entry_size >= 0) by (nonlinear_arith);
        }
        header.write_to(region);
        let mut i: usize = 0;
        while i < self.idx_capacity
            invariant
                self.wf(),
                i <= self.idx_capacity,
                region.len() >= self.total(),
                header_at(region@) == self.fresh_header(),
                forall|k: int| 0 <= k < i ==> #[trigger] self.entry_empty(region@, k),
                same_outside(old(region)@, region@, 0, self.data_base()),
            decreases self.idx_capacity - i,
        {
            let ghost before = region@;
            let off: usize = self.entry_offset(i);
            proof {
                self.lemma_entry_inside(i as int);
            }
            // Zero out the entire entry first (handles V2 meta region too)
            zero_bytes(region, off, self.entry_size);
            // Set seq = -1 at the start of each entry (same offset for V1 and V2)
            write_i64(region, off, -1);
            assert forall|k: int| 0 <= k < i + 1 implies #[trigger] self.entry_empty(
                region@,
                k,
            ) by {
                if k < i {
                    self.lemma_entries_apart(k, i as int);
                    self.lemma_entry_inside(k);
                    assert(self.entry_empty(before, k));
                    assert(same_inside(
                        before,
                        region@,
                        self.entry_off(k),
                        self.entry_off(k) + self.entry_size,
                    ));
                }
            }
            i += 1;
        }
    }
}

/// The numbers that writers and readers of all builds agree on.
pub proof fn lemma_shared_numbers()
    ensures
        MAGIC == 0x52494348_41545348,
        VERSION == 1,
        VERSION_V2 == 2,
        HEADER_SIZE == 64,
        INDEX_ENTRY_SIZE == 32,
        INDEX_ENTRY_SIZE_V2 == 128,
        MSG_TYPE_SLOT == 0,
        MSG_TYPE_ACCOUNT == 1,
        MSG_TYPE_TRANSACTION == 2,
        MSG_TYPE_ENTRY == 3,
        MSG_TYPE_BLOCK_META == 4,
        FLAG_TX_IS_VOTE == 1,
        FLAG_TX_FAILED == 2,
        FLAG_ACC_EXECUTABLE == 1,
        FLAG_ACC_HAS_TXN_SIG == 2,
        FLAG_ACC_IS_STARTUP == 4,
        TAIL_OFFSET == 32,
        DATA_TAIL_OFFSET == 40,
        CLOSED_OFFSET == 48,
{
}

} // verus!
