//! The writers: one for V2 regions that is called directly, one for V1 regions that is fed by
//! the server task.
//!
//! A write happens in two steps. Staging fills the data ring and the index entry; publishing
//! makes the message visible. Where readers share the region while it is written to, the
//! publishing stores are atomic and ordered, and the application makes them; `write` makes both
//! steps on a region that nobody else reads meanwhile.
use vstd::prelude::*;

use crate::bytes::get_i64;
use crate::bytes::same_inside;
use crate::bytes::same_outside;
use crate::bytes::signed;
use crate::bytes::to_signed;
use crate::bytes::write_i64;
use crate::bytes::write_u32;
use crate::bytes::write_u64;
use crate::capacity::lemma_mask_is_remainder;
use crate::config::ConfigShmServer;
use crate::journal::Record;
use crate::layout::header_at;
use crate::layout::planned;
use crate::layout::LayoutError;
use crate::layout::ShmHeader;
use crate::layout::ShmIndexEntryV2;
use crate::layout::ShmLayout;
use crate::layout::ShmWriteMeta;
use crate::layout::CLOSED_OFFSET;
use crate::layout::DATA_TAIL_OFFSET;
use crate::layout::HEADER_SIZE;
use crate::layout::INDEX_ENTRY_SIZE_V2;
use crate::layout::TAIL_OFFSET;
use crate::layout::VERSION;
use crate::layout::VERSION_V2;
use crate::ring::copy_to_ring;
use crate::ring::ring_write;

verus! {

/// The stores that make a staged message visible, in the order in which they are made: the
/// header's `data_tail`, the entry's commit flag, the header's `tail`.
#[derive(Debug, Clone, Copy, PartialEq, Eq, Structural)]
pub struct Publication {
    pub data_tail: u64,
    /// Where the index entry, and with it the commit flag, starts
    pub entry_offset: usize,
    pub seq: i64,
    pub tail: u64,
}

impl ShmLayout {
    /// The header of `r` is one of this layout, and counts `pos` messages and `data_pos` bytes.
    pub open spec fn counts(self, r: Seq<u8>, pos: u64, data_pos: u64) -> bool {
        &&& r.len() >= self.total()
        &&& header_at(r) == (ShmHeader {
            tail: pos,
            data_tail: data_pos,
            closed: header_at(r).closed,
            ..self.fresh_header()
        })
    }
}

/// The publication of a message of `len` bytes at position `pos`, data position `data_pos`.
pub open spec fn publication(layout: ShmLayout, pos: u64, data_pos: u64, len: nat) -> Publication {
    Publication {
        data_tail: (data_pos + len) as u64,
        entry_offset: layout.entry_off(layout.slot_of(pos as int)) as usize,
        seq: signed(pos),
        tail: (pos + 1) as u64,
    }
}

/// A message of `len` bytes can be laid into the data ring from `data_pos` on, and the counters
/// can take it.
pub open spec fn message_fits(layout: ShmLayout, pos: u64, data_pos: u64, len: nat) -> bool {
    &&& data_pos as int % layout.data_capacity as int + len <= 2 * layout.data_capacity
    &&& data_pos + len <= u64::MAX
    &&& pos < u64::MAX
}

/// Whether a message of `len` bytes fits.
fn fits_at(layout: &ShmLayout, pos: u64, data_pos: u64, len: usize) -> (r: bool)
    requires
        layout.wf(),
    ensures
        r == message_fits(*layout, pos, data_pos, len as nat),
{
    let offset: u64 = data_pos % layout.data_capacity as u64;
    if offset as u128 + len as u128 > 2 * (layout.data_capacity as u128) {
        return false;
    }
    data_pos as u128 + len as u128 <= u64::MAX as u128 && pos < u64::MAX
}

/// The slot of position `pos` in the index ring.
fn slot_index(layout: &ShmLayout, pos: u64) -> (r: usize)
    requires
        layout.wf(),
    ensures
        r == layout.slot_of(pos as int),
        r < layout.idx_capacity,
{
    let idx_mask: u64 = (layout.idx_capacity - 1) as u64;
    proof {
        lemma_mask_is_remainder(pos, layout.idx_capacity as u64);
    }
    (pos & idx_mask) as usize
}

/// Lays `data` into the data ring of the region.
fn write_data(layout: &ShmLayout, region: &mut [u8], data_pos: u64, data: &[u8])
    requires
        layout.wf(),
        old(region).len() >= layout.total(),
        data_pos as int % layout.data_capacity as int + data.len() <= 2 * layout.data_capacity,
    ensures
        same_outside(old(region)@, final(region)@, layout.data_base(), layout.total()),
        layout.data_ring(final(region)@) == ring_write(
            layout.data_ring(old(region)@),
            data_pos as int % layout.data_capacity as int,
            data@,
        ),
{
    let ghost before = region@;
    let offset: usize = (data_pos % layout.data_capacity as u64) as usize;
    let base: usize = layout.data_base_offset();
    let (_front, back) = region.split_at_mut(base);
    let (ring, _rest) = back.split_at_mut(layout.data_capacity);
    assert(ring@ =~= layout.data_ring(before));
    copy_to_ring(ring, offset, data);
    assert(layout.data_ring(region@) =~= ring_write(
        layout.data_ring(before),
        offset as int,
        data@,
    ));
}

/// Publishes a staged message in a region that nobody else accesses.
pub fn publish(region: &mut [u8], publication: &Publication)
    requires
        HEADER_SIZE <= publication.entry_offset,
        publication.entry_offset + 8 <= old(region).len(),
    ensures
        final(region).len() == old(region).len(),
        header_at(final(region)@) == (ShmHeader {
            data_tail: publication.data_tail,
            tail: publication.tail,
            ..header_at(old(region)@)
        }),
        get_i64(final(region)@, publication.entry_offset as int) == publication.seq,
        same_inside(
            old(region)@,
            final(region)@,
            HEADER_SIZE as int,
            publication.entry_offset as int,
        ),
        same_inside(
            old(region)@,
            final(region)@,
            publication.entry_offset + 8,
            old(region).len() as int,
        ),
{
    write_u64(region, DATA_TAIL_OFFSET, publication.data_tail);
    write_i64(region, publication.entry_offset, publication.seq);
    write_u64(region, TAIL_OFFSET, publication.tail);
}

/// Staging and then publishing is writing.
proof fn lemma_staged_and_published(
    layout: ShmLayout,
    r0: Seq<u8>,
    r1: Seq<u8>,
    r2: Seq<u8>,
    pos: u64,
    data_pos: u64,
    m: Record,
)
    requires
        layout.wf(),
        r0.len() >= layout.total(),
        pos < u64::MAX,
        data_pos + m.data.len() <= u64::MAX,
        layout.staged(r0, r1, pos as int, data_pos as int, m),
        r2.len() == r1.len(),
        ({
            let c = publication(layout, pos, data_pos, m.data.len());
            &&& header_at(r2) == (ShmHeader { data_tail: c.data_tail, tail: c.tail, ..header_at(r1) })
            &&& get_i64(r2, c.entry_offset as int) == c.seq
            &&& same_inside(r1, r2, HEADER_SIZE as int, c.entry_offset as int)
            &&& same_inside(r1, r2, c.entry_offset + 8, r1.len() as int)
        }),
    ensures
        layout.written(r0, r2, pos as int, data_pos as int, m),
{
    let p = pos as int;
    let slot = layout.slot_of(p);
    vstd::arithmetic::div_mod::lemma_mod_bound(p, layout.idx_capacity as int);
    layout.lemma_entry_inside(slot);
    let off = layout.entry_off(slot);
    assert(header_at(r1) == header_at(r0));
    assert(layout.data_ring(r2) =~= layout.data_ring(r1));
    if layout.entry_size == INDEX_ENTRY_SIZE_V2 {
        assert(r2.subrange(off + 32, off + 128) =~= r1.subrange(off + 32, off + 128));
    }
}

// --- Direct writer ---

/// What became of taking the writer's lock.
#[derive(Debug, Clone, Copy, PartialEq, Eq, Structural)]
pub enum LockOutcome {
    /// The writer is open: go on
    Acquired,
    /// The writer is closed: do nothing
    Closed,
    /// The lock was poisoned and the writer is closed for it now: store 1 to the header's
    /// `closed` field and do nothing else
    ClosedByPoison,
}

/// Direct writer into a V2 ring buffer.
#[derive(Debug)]
pub struct ShmDirectWriter {
    pub layout: ShmLayout,
    pub pos: u64,
    pub data_pos: u64,
    pub closed: bool,
}

impl ShmDirectWriter {
    pub open spec fn wf(self) -> bool {
        &&& self.layout.wf()
        &&& self.layout.version == VERSION_V2
    }

    /// The region is the one that this writer has written to so far: its header counts what the
    /// writer counts, and it is marked closed just when the writer is closed.
    pub open spec fn attached(self, r: Seq<u8>) -> bool {
        &&& self.layout.counts(r, self.pos, self.data_pos)
        &&& header_at(r).closed == (if self.closed {
            1u64
        } else {
            0u64
        })
    }

    /// A message of `len` bytes is one that `write` takes: it is either dropped or fits.
    pub open spec fn can_take(self, len: nat) -> bool {
        self.closed || len > u32::MAX || message_fits(self.layout, self.pos, self.data_pos, len)
    }

    /// The record that writing this message makes.
    pub open spec fn record(data: Seq<u8>, slot: u64, write_meta: ShmWriteMeta) -> Record {
        Record {
            data,
            slot,
            msg_type: write_meta.msg_type,
            flags: write_meta.flags,
            meta: write_meta.meta@,
        }
    }

    /// A writer for a region of V2 format that has the configured sizes and is empty.
    pub fn new(config: &ConfigShmServer) -> (r: Result<Self, LayoutError>)
        ensures
            match planned(config.max_messages, config.max_bytes, VERSION_V2) {
                Ok(layout) => {
                    &&& r == Ok::<Self, LayoutError>(
                        ShmDirectWriter { layout, pos: 0, data_pos: 0, closed: false },
                    )
                    &&& r->Ok_0.wf()
                },
                Err(error) => r == Err::<Self, LayoutError>(error),
            },
    {
        match ShmLayout::plan(config.max_messages, config.max_bytes, VERSION_V2) {
            Ok(layout) => Ok(ShmDirectWriter { layout, pos: 0, data_pos: 0, closed: false }),
            Err(error) => Err(error),
        }
    }

    /// Whether `write` can take a message of `len` bytes.
    pub fn fits(&self, len: usize) -> (r: bool)
        requires
            self.wf(),
        ensures
            r == self.can_take(len as nat),
    {
        self.closed || len > u32::MAX as usize || fits_at(
            &self.layout,
            self.pos,
            self.data_pos,
            len,
        )
    }

    /// Decides on a lock that was taken, poisoned or not: a poisoned lock closes the writer.
    pub fn lock_inner(&mut self, poisoned: bool) -> (r: LockOutcome)
        ensures
            r == (if old(self).closed {
                LockOutcome::Closed
            } else if poisoned {
                LockOutcome::ClosedByPoison
            } else {
                LockOutcome::Acquired
            }),
            *final(self) == (ShmDirectWriter { closed: old(self).closed || poisoned, ..*old(self) }),
    {
        if self.closed {
            LockOutcome::Closed
        } else if poisoned {
            self.closed = true;
            LockOutcome::ClosedByPoison
        } else {
            LockOutcome::Acquired
        }
    }

    /// Stages a message and counts it. Nothing happens, and nothing is to be published, when
    /// the writer is closed or the message is longer than a 32-bit length can say.
    pub fn stage(
        &mut self,
        region: &mut [u8],
        data: &[u8],
        slot: u64,
        write_meta: &ShmWriteMeta,
    ) -> (r: Option<Publication>)
        requires
            old(self).wf(),
            old(region).len() >= old(self).layout.total(),
            old(self).can_take(data.len() as nat),
        ensures
            final(self).wf(),
            r is None <==> old(self).closed || data.len() > u32::MAX,
            r is None ==> *final(self) == *old(self) && final(region)@ == old(region)@,
            r matches Some(c) ==> {
                &&& c == publication(
                    old(self).layout,
                    old(self).pos,
                    old(self).data_pos,
                    data.len() as nat,
                )
                &&& old(self).layout.staged(
                    old(region)@,
                    final(region)@,
                    old(self).pos as int,
                    old(self).data_pos as int,
                    Self::record(data@, slot, *write_meta),
                )
                &&& *final(self) == (ShmDirectWriter {
                    pos: (old(self).pos + 1) as u64,
                    data_pos: (old(self).data_pos + data.len()) as u64,
                    ..*old(self)
                })
            },
    {
        if self.closed {
            return None;
        }
        let data_len: usize = data.len();
        // Check data length fits in u32 (index entry field)
        if data_len > u32::MAX as usize {
            return None;
        }
        let layout = self.layout;
        let idx: usize = slot_index(&layout, self.pos);
        let off: usize = layout.entry_offset(idx);
        proof {
            layout.lemma_entry_inside(idx as int);
        }
        write_data(&layout, region, self.data_pos, data);
        let ghost mid = region@;
        let entry = ShmIndexEntryV2 {
            seq: 0,
            data_off: self.data_pos,
            data_len: data_len as u32,
            msg_type: write_meta.msg_type,
            flags: write_meta.flags,
            _pad0: 0,
            slot,
            meta: write_meta.meta,
        };
        entry.write_body_to(region, off);
        assert(layout.data_ring(region@) =~= layout.data_ring(mid));
        let publication = Publication {
            data_tail: self.data_pos + data_len as u64,
            entry_offset: off,
            seq: to_signed(self.pos),
            tail: self.pos + 1,
        };
        self.data_pos = self.data_pos + data_len as u64;
        self.pos = self.pos + 1;
        Some(publication)
    }

    /// Write bytes into the ring buffer with V2 metadata.
    pub fn write(
        &mut self,
        region: &mut [u8],
        data: &[u8],
        slot: u64,
        write_meta: &ShmWriteMeta,
    )
        requires
            old(self).wf(),
            old(region).len() >= old(self).layout.total(),
            old(self).can_take(data.len() as nat),
        ensures
            final(self).wf(),
            old(self).closed || data.len() > u32::MAX ==> {
                &&& *final(self) == *old(self)
                &&& final(region)@ == old(region)@
            },
            !old(self).closed && data.len() <= u32::MAX ==> {
                &&& old(self).layout.written(
                    old(region)@,
                    final(region)@,
                    old(self).pos as int,
                    old(self).data_pos as int,
                    Self::record(data@, slot, *write_meta),
                )
                &&& *final(self) == (ShmDirectWriter {
                    pos: (old(self).pos + 1) as u64,
                    data_pos: (old(self).data_pos + data.len()) as u64,
                    ..*old(self)
                })
            },
            old(self).attached(old(region)@) ==> final(self).attached(final(region)@),
    {
        let ghost r0 = region@;
        let ghost pos = self.pos;
        let ghost data_pos = self.data_pos;
        let ghost layout = self.layout;
        if let Some(publication) = self.stage(region, data, slot, write_meta) {
            let ghost r1 = region@;
            proof {
                vstd::arithmetic::div_mod::lemma_mod_bound(
                    pos as int,
                    layout.idx_capacity as int,
                );
                layout.lemma_entry_inside(layout.slot_of(pos as int));
            }
            publish(region, &publication);
            proof {
                lemma_staged_and_published(
                    layout,
                    r0,
                    r1,
                    region@,
                    pos,
                    data_pos,
                    Self::record(data@, slot, *write_meta),
                );
            }
        }
    }

    /// Marks the writer closed. The result says whether it was open until now, and so whether
    /// the region has to be marked closed too.
    pub fn mark_closed(&mut self) -> (r: bool)
        ensures
            r == !old(self).closed,
            *final(self) == (ShmDirectWriter { closed: true, ..*old(self) }),
    {
        if self.closed {
            return false;
        }
        self.closed = true;
        true
    }

    /// Mark SHM as closed.
    pub fn close(&mut self, region: &mut [u8])
        requires
            old(region).len() >= HEADER_SIZE,
        ensures
            *final(self) == (ShmDirectWriter { closed: true, ..*old(self) }),
            old(self).closed ==> final(region)@ == old(region)@,
            !old(self).closed ==> {
                &&& header_at(final(region)@) == (ShmHeader { closed: 1, ..header_at(old(region)@) })
                &&& same_outside(old(region)@, final(region)@, 0, HEADER_SIZE as int)
            },
            old(self).attached(old(region)@) ==> final(self).attached(final(region)@),
    {
        if self.mark_closed() {
            write_u64(region, CLOSED_OFFSET, 1);
        }
    }
}

// --- Server writer ---

/// Writer into a V1 ring buffer, fed by the server task.
#[derive(Debug)]
pub struct ShmServerWriter {
    pub layout: ShmLayout,
    pub pos: u64,
    pub data_pos: u64,
}

impl ShmServerWriter {
    pub open spec fn wf(self) -> bool {
        &&& self.layout.wf()
        &&& self.layout.version == VERSION
    }

    /// The region is the one that this writer has written to so far: its header counts what the
    /// writer counts.
    pub open spec fn attached(self, r: Seq<u8>) -> bool {
        self.layout.counts(r, self.pos, self.data_pos)
    }

    /// The record that writing this message makes: the slot is not tracked.
    pub open spec fn record(data: Seq<u8>) -> Record {
        Record { data, slot: 0, msg_type: 0, flags: 0, meta: Seq::empty() }
    }

    /// A writer for a region of V1 format that has the configured sizes and is empty.
    pub fn new(config: &ConfigShmServer) -> (r: Result<Self, LayoutError>)
        ensures
            match planned(config.max_messages, config.max_bytes, VERSION) {
                Ok(layout) => {
                    &&& r == Ok::<Self, LayoutError>(
                        ShmServerWriter { layout, pos: 0, data_pos: 0 },
                    )
                    &&& r->Ok_0.wf()
                },
                Err(error) => r == Err::<Self, LayoutError>(error),
            },
    {
        match ShmLayout::plan(config.max_messages, config.max_bytes, VERSION) {
            Ok(layout) => Ok(ShmServerWriter { layout, pos: 0, data_pos: 0 }),
            Err(error) => Err(error),
        }
    }

    /// Whether `write` can take a message of `len` bytes.
    pub fn fits(&self, len: usize) -> (r: bool)
        requires
            self.wf(),
        ensures
            r == message_fits(self.layout, self.pos, self.data_pos, len as nat),
    {
        fits_at(&self.layout, self.pos, self.data_pos, len)
    }

    /// Stages a message and counts it.
    pub fn stage(&mut self, region: &mut [u8], data: &[u8]) -> (c: Publication)
        requires
            old(self).wf(),
            old(region).len() >= old(self).layout.total(),
            message_fits(old(self).layout, old(self).pos, old(self).data_pos, data.len() as nat),
        ensures
            final(self).wf(),
            c == publication(
                old(self).layout,
                old(self).pos,
                old(self).data_pos,
                data.len() as nat,
            ),
            old(self).layout.staged(
                old(region)@,
                final(region)@,
                old(self).pos as int,
                old(self).data_pos as int,
                Self::record(data@),
            ),
            *final(self) == (ShmServerWriter {
                pos: (old(self).pos + 1) as u64,
                data_pos: (old(self).data_pos + data.len()) as u64,
                ..*old(self)
            }),
    {
        let data_len: usize = data.len();
        let layout = self.layout;
        let idx: usize = slot_index(&layout, self.pos);
        let off: usize = layout.entry_offset(idx);
        proof {
            layout.lemma_entry_inside(idx as int);
        }
        write_data(&layout, region, self.data_pos, data);
        let ghost mid = region@;
        write_u64(region, off + 8, self.data_pos);
        write_u32(region, off + 16, (data_len as u64 % 0x1_0000_0000) as u32);
        write_u64(region, off + 24, 0);  // slot not tracked in shm
        assert(layout.data_ring(region@) =~= layout.data_ring(mid));
        let publication = Publication {
            data_tail: self.data_pos + data_len as u64,
            entry_offset: off,
            seq: to_signed(self.pos),
            tail: self.pos + 1,
        };
        self.data_pos = self.data_pos + data_len as u64;
        self.pos = self.pos + 1;
        publication
    }

    /// Writes a message into the ring buffer.
    pub fn write(&mut self, region: &mut [u8], data: &[u8])
        requires
            old(self).wf(),
            old(region).len() >= old(self).layout.total(),
            message_fits(old(self).layout, old(self).pos, old(self).data_pos, data.len() as nat),
        ensures
            final(self).wf(),
            old(self).layout.written(
                old(region)@,
                final(region)@,
                old(self).pos as int,
                old(self).data_pos as int,
                Self::record(data@),
            ),
            *final(self) == (ShmServerWriter {
                pos: (old(self).pos + 1) as u64,
                data_pos: (old(self).data_pos + data.len()) as u64,
                ..*old(self)
            }),
            old(self).attached(old(region)@) ==> final(self).attached(final(region)@),
    {
        let ghost r0 = region@;
        let ghost pos = self.pos;
        let ghost data_pos = self.data_pos;
        let ghost layout = self.layout;
        let publication = self.stage(region, data);
        let ghost r1 = region@;
        proof {
            vstd::arithmetic::div_mod::lemma_mod_bound(pos as int, layout.idx_capacity as int);
            layout.lemma_entry_inside(layout.slot_of(pos as int));
        }
        publish(region, &publication);
        proof {
            lemma_staged_and_published(
                layout,
                r0,
                r1,
                region@,
                pos,
                data_pos,
                Self::record(data@),
            );
        }
    }

    /// Marks the region closed once no more messages come.
    pub fn close(&self, region: &mut [u8])
        requires
            old(region).len() >= HEADER_SIZE,
        ensures
            header_at(final(region)@) == (ShmHeader { closed: 1, ..header_at(old(region)@) }),
            same_outside(old(region)@, final(region)@, 0, HEADER_SIZE as int),
            self.attached(old(region)@) ==> self.attached(final(region)@),
    {
        write_u64(region, CLOSED_OFFSET, 1);
    }
}

} // verus!
