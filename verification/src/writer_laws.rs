//! What writing does to a region, told by what the writers are called with and by the bytes that
//! are there afterwards.
use vstd::prelude::*;

use crate::bytes::get_i64;
use crate::bytes::get_u16;
use crate::bytes::get_u32;
use crate::bytes::get_u64;
use crate::bytes::signed;
use crate::capacity::lemma_mask_is_remainder;
use crate::config::ConfigShmServer;
use crate::journal::lemma_remainder_moves;
use crate::journal::Record;
use crate::layout::header_at;
use crate::layout::LayoutError;
use crate::layout::ShmLayout;
use crate::layout::ShmWriteMeta;
use crate::pre_filter::ShmEntryMeta;
use crate::pre_filter::ShmPreFilter;
use crate::reader::Found;
use crate::reader::ReadResult;
use crate::reader::ShmReader;
use crate::reader::ShmReceiveError;
use crate::reader::ShmSubscription;
use crate::ring::lemma_wrapped;
use crate::ring::ring_read;
use crate::ring::ring_write;
use crate::writer::publish;
use crate::writer::LockOutcome;
use crate::writer::Publication;
use crate::writer::ShmDirectWriter;
use crate::writer::ShmServerWriter;

verus! {

/// Where the bytes of a message are found once it was laid into a ring: each in its place after
/// `pos`, going round; where the message is longer than the ring, its last bytes. All other bytes
/// of the ring are as they were.
proof fn lemma_laid(ring: Seq<u8>, pos: int, src: Seq<u8>, i: int)
    requires
        0 < ring.len(),
        0 <= pos,
        0 <= i,
        pos % ring.len() as int + src.len() <= 2 * ring.len(),
    ensures
        ({
            let n = ring.len() as int;
            let laid = ring_write(ring, pos % n, src);
            &&& 0 <= (pos + i) % n < n
            &&& i < src.len() && src.len() - i <= n ==> laid[(pos + i) % n] == src[i]
            &&& src.len() <= i < n ==> laid[(pos + i) % n] == ring[(pos + i) % n]
        }),
{
    let n = ring.len() as int;
    lemma_remainder_moves(pos, i, n);
    vstd::arithmetic::div_mod::lemma_mod_bound(pos + i, n);
    if pos % n + i < 2 * n {
        lemma_wrapped(pos % n + i, n);
    }
}

/// The index entry and the data of a message in region `r`: the entry for position `pos`, of
/// `entry_size` bytes, says where the data is, how long it is and its slot, and the data is in
/// the ring. Of a message longer than the ring the last bytes are.
#[verifier::opaque]
pub open spec fn holds_message(
    r: Seq<u8>,
    idx_capacity: int,
    data_capacity: int,
    entry_size: int,
    pos: int,
    data_pos: int,
    slot: u64,
    data: Seq<u8>,
) -> bool {
    let off = 64 + entry_size * (pos % idx_capacity);
    let base = 64 + entry_size * idx_capacity;
    &&& get_u64(r, off + 8) == data_pos
    &&& get_u32(r, off + 16) == data.len() % 0x1_0000_0000
    &&& get_u64(r, off + 24) == slot
    &&& forall|i: int|
        0 <= i < data.len() && data.len() - i <= data_capacity ==> r[base + (data_pos + i)
            % data_capacity] == #[trigger] data[i]
}

/// What a message of `len` bytes for position `pos` leaves alone: every other index entry, the bytes
/// of the ring that it does not cover, and whatever lies behind the ring.
#[verifier::opaque]
pub open spec fn leaves_the_rest(
    r0: Seq<u8>,
    r1: Seq<u8>,
    idx_capacity: int,
    data_capacity: int,
    entry_size: int,
    pos: int,
    data_pos: int,
    len: int,
) -> bool {
    let off = 64 + entry_size * (pos % idx_capacity);
    let base = 64 + entry_size * idx_capacity;
    &&& r1.len() == r0.len()
    &&& forall|j: int| 64 <= j < base && !(off <= j < off + entry_size) ==> #[trigger] r1[j] == r0[j]
    &&& forall|i: int|
        len <= i < data_capacity ==> r1[base + #[trigger] ((data_pos + i) % data_capacity)]
            == r0[base + (data_pos + i) % data_capacity]
    &&& forall|j: int| base + data_capacity <= j < r0.len() ==> #[trigger] r1[j] == r0[j]
}

/// The numbers of the layout, in terms of its capacities.
pub proof fn lemma_layout_numbers(layout: ShmLayout, pos: int)
    requires
        layout.wf(),
        0 <= pos,
    ensures
        layout.entry_off(layout.slot_of(pos)) == 64 + layout.entry_size * (pos
            % layout.idx_capacity as int),
        layout.data_base() == 64 + layout.entry_size * layout.idx_capacity,
        0 <= pos % layout.idx_capacity as int,
        64 <= layout.entry_off(layout.slot_of(pos)),
        layout.entry_off(layout.slot_of(pos)) + layout.entry_size <= layout.data_base(),
{
    let slot = pos % layout.idx_capacity as int;
    vstd::arithmetic::div_mod::lemma_mod_bound(pos, layout.idx_capacity as int);
    layout.lemma_entry_inside(slot);
    assert(slot * layout.entry_size == layout.entry_size * slot) by (nonlinear_arith);
    assert(layout.idx_capacity * layout.entry_size == layout.entry_size * layout.idx_capacity)
        by (nonlinear_arith);
}

/// Bytes laid into the data ring, in terms of the region.
proof fn lemma_region_laid(
    layout: ShmLayout,
    r0: Seq<u8>,
    r1: Seq<u8>,
    data_pos: int,
    data: Seq<u8>,
)
    requires
        layout.wf(),
        r0.len() >= layout.total(),
        r1.len() == r0.len(),
        0 <= data_pos,
        data_pos % layout.data_capacity as int + data.len() <= 2 * layout.data_capacity,
        layout.data_ring(r1) == ring_write(
            layout.data_ring(r0),
            data_pos % (layout.data_capacity as int),
            data,
        ),
    ensures
        forall|i: int|
            0 <= i < data.len() && data.len() - i <= layout.data_capacity
                ==> r1[layout.data_base() + (data_pos + i) % layout.data_capacity as int]
                == #[trigger] data[i],
        forall|i: int|
            data.len() <= i < layout.data_capacity ==> r1[layout.data_base() + #[trigger] ((data_pos
                + i) % layout.data_capacity as int)] == r0[layout.data_base() + (data_pos + i)
                % layout.data_capacity as int],
{
    let cap = layout.data_capacity as int;
    let base = layout.data_base();
    let before = layout.data_ring(r0);
    let after = layout.data_ring(r1);
    assert(layout.idx_capacity * layout.entry_size >= 0) by (nonlinear_arith);
    assert(before.len() == cap);
    assert forall|i: int| 0 <= i < data.len() && data.len() - i <= cap implies r1[base + (data_pos
        + i) % cap] == #[trigger] data[i] by {
        lemma_laid(before, data_pos, data, i);
        assert(after[(data_pos + i) % cap] == r1[base + (data_pos + i) % cap]);
    }
    assert forall|i: int| data.len() <= i < cap implies r1[base + #[trigger] ((data_pos + i) % cap)]
        == r0[base + (data_pos + i) % cap] by {
        lemma_laid(before, data_pos, data, i);
        assert(after[(data_pos + i) % cap] == r1[base + (data_pos + i) % cap]);
        assert(before[(data_pos + i) % cap] == r0[base + (data_pos + i) % cap]);
    }
}

/// What a written region holds, in terms of its bytes.
proof fn lemma_written_bytes(
    layout: ShmLayout,
    r0: Seq<u8>,
    r1: Seq<u8>,
    pos: u64,
    data_pos: u64,
    m: Record,
    entry_size: int,
)
    requires
        layout.wf(),
        entry_size == layout.entry_size,
        r0.len() >= layout.total(),
        data_pos as int % layout.data_capacity as int + m.data.len() <= 2 * layout.data_capacity,
        layout.written(r0, r1, pos as int, data_pos as int, m),
    ensures
        ({
            let idx_capacity = layout.idx_capacity as int;
            let data_capacity = layout.data_capacity as int;
            let off = 64 + entry_size * (pos as int % idx_capacity);
            &&& holds_message(
                r1,
                idx_capacity,
                data_capacity,
                entry_size,
                pos as int,
                data_pos as int,
                m.slot,
                m.data,
            )
            &&& leaves_the_rest(
                r0,
                r1,
                idx_capacity,
                data_capacity,
                entry_size,
                pos as int,
                data_pos as int,
                m.data.len() as int,
            )
            &&& get_u64(r1, off) == pos
            &&& get_i64(r1, off) == signed(pos)
            &&& entry_size == 32 ==> forall|j: int|
                off + 20 <= j < off + 24 ==> #[trigger] r1[j] == r0[j]
            &&& entry_size == 128 ==> {
                &&& r1[off + 20] == m.msg_type
                &&& r1[off + 21] == m.flags
                &&& get_u16(r1, off + 22) == 0
                &&& m.meta.len() == 96
                &&& forall|i: int| 0 <= i < 96 ==> r1[off + 32 + i] == #[trigger] m.meta[i]
            }
            &&& 64 <= off
            &&& off + entry_size <= r1.len()
        }),
{
    reveal(holds_message);
    reveal(leaves_the_rest);
    lemma_layout_numbers(layout, pos as int);
    lemma_region_laid(layout, r0, r1, data_pos as int, m.data);
    let off = layout.entry_off(layout.slot_of(pos as int));
    crate::bytes::lemma_signed_injective(get_u64(r1, off), pos);
    if layout.entry_size == 128 {
        assert forall|i: int| 0 <= i < 96 implies r1[off + 32 + i] == #[trigger] m.meta[i] by {
            assert(r1.subrange(off + 32, off + 128)[i] == r1[off + 32 + i]);
        }
    }
}

// --- Direct writer ---

/// Region `r1` is `r0` after a message was written for position `pos` of a V2 region: the entry of
/// the position has the position as its commit flag, says where the data is, how long it is, its
/// slot, its type, its flags and its 96 bytes of metadata; the data is in the ring; and the rest
/// of both rings is as it was.
#[verifier::opaque]
pub open spec fn wrote_v2(
    r0: Seq<u8>,
    r1: Seq<u8>,
    idx_capacity: int,
    data_capacity: int,
    pos: int,
    data_pos: int,
    data: Seq<u8>,
    slot: u64,
    msg_type: u8,
    flags: u8,
    meta: Seq<u8>,
) -> bool {
    let off = 64 + 128 * (pos % idx_capacity);
    &&& holds_message(r1, idx_capacity, data_capacity, 128, pos, data_pos, slot, data)
    &&& leaves_the_rest(
        r0,
        r1,
        idx_capacity,
        data_capacity,
        128,
        pos,
        data_pos,
        data.len() as int,
    )
    &&& get_u64(r1, off) == pos
    &&& get_u32(r1, off + 16) == data.len()
    &&& get_u64(r1, off + 24) == slot
    &&& r1[off + 20] == msg_type
    &&& r1[off + 21] == flags
    &&& get_u16(r1, off + 22) == 0
    &&& meta.len() == 96
    &&& forall|i: int| 0 <= i < 96 ==> r1[off + 32 + i] == #[trigger] meta[i]
}

proof fn lemma_wrote_v2(
    layout: ShmLayout,
    r0: Seq<u8>,
    r1: Seq<u8>,
    pos: u64,
    data_pos: u64,
    m: Record,
)
    requires
        layout.wf(),
        layout.entry_size == 128,
        r0.len() >= layout.total(),
        m.data.len() <= u32::MAX,
        data_pos as int % layout.data_capacity as int + m.data.len() <= 2 * layout.data_capacity,
        layout.written(r0, r1, pos as int, data_pos as int, m),
    ensures
        wrote_v2(
            r0,
            r1,
            layout.idx_capacity as int,
            layout.data_capacity as int,
            pos as int,
            data_pos as int,
            m.data,
            m.slot,
            m.msg_type,
            m.flags,
            m.meta,
        ),
{
    reveal(wrote_v2);
    lemma_written_bytes(layout, r0, r1, pos, data_pos, m, 128);
    vstd::arithmetic::div_mod::lemma_small_mod(m.data.len(), 0x1_0000_0000);
    assert(get_u32(r1, 64 + 128 * (pos as int % layout.idx_capacity as int) + 16) == m.data.len()
        && get_u64(r1, 64 + 128 * (pos as int % layout.idx_capacity as int) + 24) == m.slot) by {
        reveal(holds_message);
    }
}

/// What a write of the direct writer leaves in the region: the entry of its position, read back,
/// has exactly the type, the flags and the 96 metadata bytes that were passed, and the slot that
/// was passed; its data is the data that was passed; and its commit flag is the position.
pub proof fn lemma_write_leaves_its_arguments(
    w: &mut ShmDirectWriter,
    region: &mut [u8],
    data: &[u8],
    slot: u64,
    write_meta: &ShmWriteMeta,
)
    requires
        call_ensures(ShmDirectWriter::write, (w, region, data, slot, write_meta), ()),
        w.wf(),
        region.len() >= w.layout.total(),
        w.can_take(data.len() as nat),
        !w.closed,
        data.len() <= u32::MAX,
    ensures
        wrote_v2(
            old(region)@,
            final(region)@,
            old(w).layout.idx_capacity as int,
            old(w).layout.data_capacity as int,
            old(w).pos as int,
            old(w).data_pos as int,
            data@,
            slot,
            write_meta.msg_type,
            write_meta.flags,
            write_meta.meta@,
        ),
{
    lemma_wrote_v2(
        old(w).layout,
        old(region)@,
        final(region)@,
        old(w).pos,
        old(w).data_pos,
        ShmDirectWriter::record(data@, slot, *write_meta),
    );
}

/// What a write of the direct writer does to the counters: the header counts the message and its
/// bytes, and so does the writer; the rest of the header stays.
pub proof fn lemma_write_counts(
    w: &mut ShmDirectWriter,
    region: &mut [u8],
    data: &[u8],
    slot: u64,
    write_meta: &ShmWriteMeta,
)
    requires
        call_ensures(ShmDirectWriter::write, (w, region, data, slot, write_meta), ()),
        w.can_take(data.len() as nat),
        !w.closed,
        data.len() <= u32::MAX,
    ensures
        get_u64(final(region)@, 32) == old(w).pos + 1,
        get_u64(final(region)@, 40) == old(w).data_pos + data.len(),
        get_u64(final(region)@, 0) == get_u64(old(region)@, 0),
        get_u64(final(region)@, 8) == get_u64(old(region)@, 8),
        get_u64(final(region)@, 16) == get_u64(old(region)@, 16),
        get_u64(final(region)@, 24) == get_u64(old(region)@, 24),
        get_u64(final(region)@, 48) == get_u64(old(region)@, 48),
        get_u64(final(region)@, 56) == get_u64(old(region)@, 56),
        final(w).pos == old(w).pos + 1,
        final(w).data_pos == old(w).data_pos + data.len(),
        final(w).layout == old(w).layout,
        !final(w).closed,
{
    let a = header_at(final(region)@);
    let b = header_at(old(region)@);
    assert(a.magic == b.magic && a.version == b.version);
}

/// A closed writer, and a message that is too long for its length to be noted, leave everything as
/// it is.
pub proof fn lemma_refused_write_does_nothing(
    w: &mut ShmDirectWriter,
    region: &mut [u8],
    data: &[u8],
    slot: u64,
    write_meta: &ShmWriteMeta,
)
    requires
        call_ensures(ShmDirectWriter::write, (w, region, data, slot, write_meta), ()),
        w.closed || data.len() > u32::MAX,
    ensures
        final(region)@ == old(region)@,
        *final(w) == *old(w),
{
}

/// Staging lays the data down and fills the entry in, with exactly what was passed, but neither
/// commits nor counts the message; what is left to do is handed back.
pub proof fn lemma_stage_leaves_its_arguments(
    w: &mut ShmDirectWriter,
    region: &mut [u8],
    data: &[u8],
    slot: u64,
    write_meta: &ShmWriteMeta,
    c: Publication,
)
    requires
        call_ensures(ShmDirectWriter::stage, (w, region, data, slot, write_meta), Some(c)),
        w.wf(),
        region.len() >= w.layout.total(),
        w.can_take(data.len() as nat),
    ensures
        !old(w).closed,
        data.len() <= u32::MAX,
        ({
            let r = final(region)@;
            let pos = old(w).pos as int;
            let data_pos = old(w).data_pos as int;
            let idx_capacity = old(w).layout.idx_capacity as int;
            let data_capacity = old(w).layout.data_capacity as int;
            let off = 64 + 128 * (pos % idx_capacity);
            &&& holds_message(r, idx_capacity, data_capacity, 128, pos, data_pos, slot, data@)
            &&& get_u32(r, off + 16) == data.len()
            &&& r[off + 20] == write_meta.msg_type
            &&& r[off + 21] == write_meta.flags
            &&& get_u16(r, off + 22) == 0
            &&& forall|i: int| 0 <= i < 96 ==> r[off + 32 + i] == #[trigger] write_meta.meta@[i]
            &&& leaves_the_rest(
                old(region)@,
                r,
                idx_capacity,
                data_capacity,
                128,
                pos,
                data_pos,
                data.len() as int,
            )
            &&& forall|j: int| 0 <= j < 64 ==> #[trigger] r[j] == old(region)@[j]
            &&& forall|j: int| off <= j < off + 8 ==> #[trigger] r[j] == old(region)@[j]
            &&& c.entry_offset == off
            &&& c.tail == pos + 1
            &&& c.data_tail == data_pos + data.len()
            &&& c.seq as int % 0x1_0000_0000_0000_0000 == pos
            &&& final(w).pos == pos + 1
            &&& final(w).data_pos == data_pos + data.len()
            &&& final(w).layout == old(w).layout
            &&& !final(w).closed
        }),
{
    reveal(holds_message);
    reveal(leaves_the_rest);
    let r = final(region)@;
    let layout = old(w).layout;
    let pos = old(w).pos as int;
    let data_pos = old(w).data_pos as int;
    lemma_layout_numbers(layout, pos);
    lemma_region_laid(layout, old(region)@, r, data_pos, data@);
    let off = layout.entry_off(layout.slot_of(pos));
    assert forall|i: int| 0 <= i < 96 implies r[off + 32 + i] == #[trigger] write_meta.meta@[i] by {
        assert(r.subrange(off + 32, off + 128)[i] == r[off + 32 + i]);
    }
}

/// Staging hands nothing back exactly if the writer is closed or the message too long, and then
/// leaves everything as it is.
pub proof fn lemma_refused_stage_does_nothing(
    w: &mut ShmDirectWriter,
    region: &mut [u8],
    data: &[u8],
    slot: u64,
    write_meta: &ShmWriteMeta,
    c: Option<Publication>,
)
    requires
        call_ensures(ShmDirectWriter::stage, (w, region, data, slot, write_meta), c),
    ensures
        c is None <==> old(w).closed || data.len() > u32::MAX,
        c is None ==> final(region)@ == old(region)@ && *final(w) == *old(w),
{
}

/// Publishing makes three stores and no other change: the byte count, the commit flag, the tail.
pub proof fn lemma_publish_makes_three_stores(region: &mut [u8], c: &Publication)
    requires
        call_ensures(publish, (region, c), ()),
        64 <= c.entry_offset,
        c.entry_offset + 8 <= region.len(),
    ensures
        final(region)@.len() == old(region)@.len(),
        get_u64(final(region)@, 40) == c.data_tail,
        get_i64(final(region)@, c.entry_offset as int) == c.seq,
        get_u64(final(region)@, 32) == c.tail,
        get_u64(final(region)@, 0) == get_u64(old(region)@, 0),
        get_u64(final(region)@, 8) == get_u64(old(region)@, 8),
        get_u64(final(region)@, 16) == get_u64(old(region)@, 16),
        get_u64(final(region)@, 24) == get_u64(old(region)@, 24),
        get_u64(final(region)@, 48) == get_u64(old(region)@, 48),
        get_u64(final(region)@, 56) == get_u64(old(region)@, 56),
        forall|j: int|
            64 <= j < old(region)@.len() && !(c.entry_offset <= j < c.entry_offset + 8)
                ==> #[trigger] final(region)@[j] == old(region)@[j],
{
    let a = header_at(final(region)@);
    let b = header_at(old(region)@);
    assert(a.magic == b.magic && a.version == b.version);
}

/// Staging and then publishing leaves what writing leaves.
pub proof fn lemma_stage_then_publish_is_write(
    w: &mut ShmDirectWriter,
    region: &mut [u8],
    data: &[u8],
    slot: u64,
    write_meta: &ShmWriteMeta,
    c: Publication,
    staged: &mut [u8],
)
    requires
        call_ensures(ShmDirectWriter::stage, (w, region, data, slot, write_meta), Some(c)),
        staged@ == final(region)@,
        call_ensures(publish, (staged, &c), ()),
        w.wf(),
        region.len() >= w.layout.total(),
        w.can_take(data.len() as nat),
    ensures
        ({
            let r = final(staged)@;
            let pos = old(w).pos as int;
            let off = 64 + 128 * (pos % old(w).layout.idx_capacity as int);
            &&& get_u64(r, off) == pos
            &&& get_u64(r, off + 8) == old(w).data_pos
            &&& get_u32(r, off + 16) == data.len()
            &&& r[off + 20] == write_meta.msg_type
            &&& r[off + 21] == write_meta.flags
            &&& get_u64(r, off + 24) == slot
            &&& forall|i: int| 0 <= i < 96 ==> r[off + 32 + i] == #[trigger] write_meta.meta@[i]
            &&& get_u64(r, 32) == pos + 1
            &&& get_u64(r, 40) == old(w).data_pos + data.len()
        }),
{
    let layout = old(w).layout;
    let pos = old(w).pos as int;
    lemma_layout_numbers(layout, pos);
    lemma_stage_leaves_its_arguments(w, region, data, slot, write_meta, c);
    reveal(holds_message);
    lemma_publish_makes_three_stores(staged, &c);
    let r1 = final(region)@;
    let r = final(staged)@;
    let off = 64 + 128 * (pos % layout.idx_capacity as int);
    crate::bytes::lemma_signed_injective(get_u64(r, off), old(w).pos);
    assert(forall|j: int| off + 8 <= j < off + 128 ==> #[trigger] r[j] == r1[j]);
}

/// A write is read back: a reader at the position that was written gets the data that was passed,
/// if its pre-filter takes a message with the type, the flags and the metadata that were passed,
/// and passes over it if not. Either way it goes on to the next position.
pub proof fn lemma_write_is_read_back(
    w: &mut ShmDirectWriter,
    region: &mut [u8],
    data: &[u8],
    slot: u64,
    write_meta: &ShmWriteMeta,
    reader: &mut ShmReader,
    written: &[u8],
    filter: &ShmPreFilter,
    result: ReadResult,
    meta: &ShmEntryMeta,
    taken: bool,
)
    requires
        call_ensures(ShmDirectWriter::write, (w, region, data, slot, write_meta), ()),
        w.wf(),
        region.len() >= w.layout.total(),
        w.can_take(data.len() as nat),
        !w.closed,
        data.len() <= u32::MAX,
        data.len() <= w.layout.data_capacity,
        written@ == final(region)@,
        call_ensures(ShmReader::try_read_next_v2, (reader, written, filter), result),
        reads_layout(reader.sub, w.layout),
        reader.next_pos == w.pos,
        meta.msg_type == write_meta.msg_type,
        meta.flags == write_meta.flags,
        meta.meta@ == write_meta.meta@,
        call_ensures(ShmPreFilter::should_accept, (filter, meta), taken),
    ensures
        taken ==> (result matches ReadResult::Message(buf) && buf@ == data@),
        !taken ==> result is Skipped,
        final(reader).next_pos == old(reader).next_pos + 1,
{
    let layout = old(w).layout;
    lemma_write_leaves_its_arguments(w, region, data, slot, write_meta);
    lemma_write_counts(w, region, data, slot, write_meta);
    lemma_reader_finds_v2(
        layout,
        old(reader).sub,
        old(region)@,
        final(region)@,
        old(w).pos,
        old(w).data_pos,
        slot,
        data@,
        write_meta.msg_type,
        write_meta.flags,
        write_meta.meta@,
        *filter,
    );
}

/// What a reader with a pre-filter finds at a position of a V2 region that was written.
proof fn lemma_reader_finds_v2(
    layout: ShmLayout,
    sub: ShmSubscription,
    r0: Seq<u8>,
    r: Seq<u8>,
    pos: u64,
    data_pos: u64,
    slot: u64,
    data: Seq<u8>,
    msg_type: u8,
    flags: u8,
    meta: Seq<u8>,
    filter: ShmPreFilter,
)
    requires
        layout.wf(),
        layout.entry_size == 128,
        r.len() >= layout.total(),
        reads_layout(sub, layout),
        data.len() <= layout.data_capacity,
        data.len() <= u32::MAX,
        pos < u64::MAX,
        wrote_v2(
            r0,
            r,
            layout.idx_capacity as int,
            layout.data_capacity as int,
            pos as int,
            data_pos as int,
            data,
            slot,
            msg_type,
            flags,
            meta,
        ),
        get_u64(r, 32) == pos + 1,
        get_u64(r, 40) == data_pos + data.len(),
    ensures
        sub.found(r, pos, Some(filter)) == if filter.accepts(msg_type, flags, meta) {
            Found::Message(data)
        } else {
            Found::Unwanted
        },
{
    reveal(wrote_v2);
    lemma_reader_finds(layout, sub, r, pos, data_pos, slot, data, 128, Some(filter));
    let off = 64 + 128 * (pos as int % layout.idx_capacity as int);
    lemma_layout_numbers(layout, pos as int);
    assert(r.subrange(off + 32, off + 128) =~= meta);
}

/// The subscription reads regions of this layout.
pub open spec fn reads_layout(sub: ShmSubscription, layout: ShmLayout) -> bool {
    &&& sub.idx_capacity == layout.idx_capacity
    &&& sub.idx_mask == layout.idx_capacity - 1
    &&& sub.data_capacity == layout.data_capacity
    &&& sub.index_base_offset == 64
    &&& sub.data_base_offset == 64 + layout.entry_size * layout.idx_capacity
    &&& sub.entry_size == layout.entry_size
}

/// What a reader finds at a position whose entry and data are there.
proof fn lemma_reader_finds(
    layout: ShmLayout,
    sub: ShmSubscription,
    r: Seq<u8>,
    pos: u64,
    data_pos: u64,
    slot: u64,
    data: Seq<u8>,
    entry_size: int,
    filter: Option<ShmPreFilter>,
)
    requires
        layout.wf(),
        r.len() >= layout.total(),
        reads_layout(sub, layout),
        entry_size == layout.entry_size,
        data.len() <= layout.data_capacity,
        data.len() <= u32::MAX,
        pos < u64::MAX,
        holds_message(
            r,
            layout.idx_capacity as int,
            layout.data_capacity as int,
            entry_size,
            pos as int,
            data_pos as int,
            slot,
            data,
        ),
        get_u64(r, 64 + entry_size * (pos as int % layout.idx_capacity as int)) == pos,
        get_u64(r, 32) == pos + 1,
        get_u64(r, 40) == data_pos + data.len(),
    ensures
        ({
            let off = 64 + entry_size * (pos as int % layout.idx_capacity as int);
            sub.found(r, pos, filter) == if crate::reader::wanted(filter, r, off) {
                Found::Message(data)
            } else {
                Found::Unwanted
            }
        }),
{
    reveal(holds_message);
    let cap = layout.data_capacity as int;
    let off = 64 + entry_size * (pos as int % layout.idx_capacity as int);
    lemma_mask_is_remainder(pos, layout.idx_capacity as u64);
    lemma_layout_numbers(layout, pos as int);
    assert(sub.entry_off(pos) == off) by {
        assert((pos & sub.idx_mask) * sub.entry_size == sub.entry_size * (pos & sub.idx_mask))
            by (nonlinear_arith);
    }
    assert(sub.data_ring(r) =~= layout.data_ring(r));
    vstd::arithmetic::div_mod::lemma_small_mod(data.len(), 0x1_0000_0000_0000_0000);
    vstd::arithmetic::div_mod::lemma_small_mod(data.len(), 0x1_0000_0000);
    let ring = sub.data_ring(r);
    let read = ring_read(ring, data_pos as int % cap, data.len());
    assert forall|i: int| 0 <= i < data.len() implies #[trigger] read[i] == data[i] by {
        lemma_remainder_moves(data_pos as int, i, cap);
        vstd::arithmetic::div_mod::lemma_mod_bound(data_pos + i, cap);
        assert(ring[(data_pos + i) % cap] == r[layout.data_base() + (data_pos + i) % cap]);
    }
    assert(read =~= data);
}

/// Closing marks the region, so that a reader who has caught up is told that no more messages
/// come, and changes nothing else; it marks the writer, so that later writes do nothing.
pub proof fn lemma_close_ends_reading(
    w: &mut ShmDirectWriter,
    region: &mut [u8],
    reader: &mut ShmReader,
    closed: &[u8],
    result: ReadResult,
)
    requires
        call_ensures(ShmDirectWriter::close, (w, region), ()),
        region.len() >= 64,
        !w.closed,
        closed@ == final(region)@,
        call_ensures(ShmReader::try_read_next, (reader, closed), result),
        get_u64(region@, 32) <= reader.next_pos,
    ensures
        final(w).closed,
        final(w).pos == old(w).pos,
        final(w).data_pos == old(w).data_pos,
        final(w).layout == old(w).layout,
        get_u64(final(region)@, 48) == 1,
        get_u64(final(region)@, 0) == get_u64(old(region)@, 0),
        get_u64(final(region)@, 8) == get_u64(old(region)@, 8),
        get_u64(final(region)@, 16) == get_u64(old(region)@, 16),
        get_u64(final(region)@, 24) == get_u64(old(region)@, 24),
        get_u64(final(region)@, 32) == get_u64(old(region)@, 32),
        get_u64(final(region)@, 40) == get_u64(old(region)@, 40),
        get_u64(final(region)@, 56) == get_u64(old(region)@, 56),
        forall|j: int|
            64 <= j < old(region)@.len() ==> #[trigger] final(region)@[j] == old(region)@[j],
        result == ReadResult::Failed(ShmReceiveError::Closed),
{
    let a = header_at(final(region)@);
    let b = header_at(old(region)@);
    assert(a.magic == b.magic && a.version == b.version);
}

/// Closing twice is closing once.
pub proof fn lemma_close_again_does_nothing(w: &mut ShmDirectWriter, region: &mut [u8])
    requires
        call_ensures(ShmDirectWriter::close, (w, region), ()),
        w.closed,
    ensures
        *final(w) == *old(w),
        final(region)@ == old(region)@,
{
}

/// A lock that is taken lets an open writer go on; a poisoned one closes it, and says so once; a
/// closed writer stays closed whatever the lock is.
pub proof fn lemma_lock_outcomes(w: &mut ShmDirectWriter, poisoned: bool, r: LockOutcome)
    requires
        call_ensures(ShmDirectWriter::lock_inner, (w, poisoned), r),
    ensures
        r is Acquired <==> !old(w).closed && !poisoned,
        r is ClosedByPoison <==> !old(w).closed && poisoned,
        r is Closed <==> old(w).closed,
        final(w).closed <==> !(r is Acquired),
        final(w).pos == old(w).pos,
        final(w).data_pos == old(w).data_pos,
        final(w).layout == old(w).layout,
{
}

/// Marking a writer closed tells once that it was open, and keeps what it counts.
pub proof fn lemma_mark_closed_once(
    w: &mut ShmDirectWriter,
    again: &mut ShmDirectWriter,
    first: bool,
    second: bool,
)
    requires
        call_ensures(ShmDirectWriter::mark_closed, (w,), first),
        *again == *final(w),
        call_ensures(ShmDirectWriter::mark_closed, (again,), second),
    ensures
        first <==> !old(w).closed,
        !second,
        final(again).closed,
        final(again).pos == old(w).pos,
        final(again).data_pos == old(w).data_pos,
{
}

/// A message that is no longer than the data ring fits wherever the ring stands, as long as the
/// counters can take it; one that does not fit is longer than the ring, or overflows a counter.
pub proof fn lemma_short_message_fits(w: &ShmDirectWriter, len: usize, r: bool)
    requires
        call_ensures(ShmDirectWriter::fits, (w, len), r),
        w.wf(),
    ensures
        len <= w.layout.data_capacity && w.data_pos + len <= u64::MAX && w.pos < u64::MAX ==> r,
        w.closed ==> r,
        len > u32::MAX ==> r,
        r && !w.closed && len <= u32::MAX ==> {
            &&& w.data_pos + len <= u64::MAX
            &&& w.pos < u64::MAX
            &&& w.data_pos as int % w.layout.data_capacity as int + len <= 2
                * w.layout.data_capacity
        },
        !r ==> len > w.layout.data_capacity || w.data_pos + len > u64::MAX || w.pos == u64::MAX,
{
    vstd::arithmetic::div_mod::lemma_mod_bound(
        w.data_pos as int,
        w.layout.data_capacity as int,
    );
}

// --- Server writer ---

/// What a write of the server's writer leaves in the region: an entry of 32 bytes that says where
/// the data is and how long, the data itself, and the position as the commit flag; the header and
/// the writer count the message and its bytes; all else stays.
pub proof fn lemma_server_write_leaves_its_arguments(
    w: &mut ShmServerWriter,
    region: &mut [u8],
    data: &[u8],
)
    requires
        call_ensures(ShmServerWriter::write, (w, region, data), ()),
        w.wf(),
        region.len() >= w.layout.total(),
        crate::writer::message_fits(w.layout, w.pos, w.data_pos, data.len() as nat),
    ensures
        ({
            let r = final(region)@;
            let pos = old(w).pos as int;
            let data_pos = old(w).data_pos as int;
            let idx_capacity = old(w).layout.idx_capacity as int;
            let data_capacity = old(w).layout.data_capacity as int;
            &&& holds_message(r, idx_capacity, data_capacity, 32, pos, data_pos, 0, data@)
            &&& get_u64(r, 64 + 32 * (pos % idx_capacity)) == pos
            &&& forall|j: int|
                64 + 32 * (pos % idx_capacity) + 20 <= j < 64 + 32 * (pos % idx_capacity) + 24
                    ==> #[trigger] r[j] == old(region)@[j]
            &&& leaves_the_rest(
                old(region)@,
                r,
                idx_capacity,
                data_capacity,
                32,
                pos,
                data_pos,
                data.len() as int,
            )
        }),
        get_u64(final(region)@, 32) == old(w).pos + 1,
        get_u64(final(region)@, 40) == old(w).data_pos + data.len(),
        get_u64(final(region)@, 0) == get_u64(old(region)@, 0),
        get_u64(final(region)@, 8) == get_u64(old(region)@, 8),
        get_u64(final(region)@, 16) == get_u64(old(region)@, 16),
        get_u64(final(region)@, 24) == get_u64(old(region)@, 24),
        get_u64(final(region)@, 48) == get_u64(old(region)@, 48),
        get_u64(final(region)@, 56) == get_u64(old(region)@, 56),
        final(w).pos == old(w).pos + 1,
        final(w).data_pos == old(w).data_pos + data.len(),
        final(w).layout == old(w).layout,
{
    let m = ShmServerWriter::record(data@);
    assert(m.data == data@ && m.slot == 0);
    lemma_written_bytes(
        old(w).layout,
        old(region)@,
        final(region)@,
        old(w).pos,
        old(w).data_pos,
        m,
        32,
    );
    let a = header_at(final(region)@);
    let b = header_at(old(region)@);
    assert(a.magic == b.magic && a.version == b.version);
}

/// A write of the server's writer is read back: a reader at the position gets the data.
pub proof fn lemma_server_write_is_read_back(
    w: &mut ShmServerWriter,
    region: &mut [u8],
    data: &[u8],
    reader: &mut ShmReader,
    written: &[u8],
    result: ReadResult,
)
    requires
        call_ensures(ShmServerWriter::write, (w, region, data), ()),
        w.wf(),
        region.len() >= w.layout.total(),
        crate::writer::message_fits(w.layout, w.pos, w.data_pos, data.len() as nat),
        data.len() <= u32::MAX,
        data.len() <= w.layout.data_capacity,
        written@ == final(region)@,
        call_ensures(ShmReader::try_read_next, (reader, written), result),
        reads_layout(reader.sub, w.layout),
        reader.next_pos == w.pos,
    ensures
        result matches ReadResult::Message(buf) && buf@ == data@,
        final(reader).next_pos == old(reader).next_pos + 1,
{
    lemma_server_write_leaves_its_arguments(w, region, data);
    lemma_reader_finds(
        old(w).layout,
        old(reader).sub,
        final(region)@,
        old(w).pos,
        old(w).data_pos,
        0,
        data@,
        32,
        None,
    );
}

/// Staging and then publishing leaves what the server's writer leaves when it writes.
pub proof fn lemma_server_stage_then_publish_is_write(
    w: &mut ShmServerWriter,
    region: &mut [u8],
    data: &[u8],
    c: Publication,
    staged: &mut [u8],
)
    requires
        call_ensures(ShmServerWriter::stage, (w, region, data), c),
        staged@ == final(region)@,
        call_ensures(publish, (staged, &c), ()),
        w.wf(),
        region.len() >= w.layout.total(),
        crate::writer::message_fits(w.layout, w.pos, w.data_pos, data.len() as nat),
    ensures
        ({
            let r = final(staged)@;
            let pos = old(w).pos as int;
            let data_pos = old(w).data_pos as int;
            let data_capacity = old(w).layout.data_capacity as int;
            let off = 64 + 32 * (pos % old(w).layout.idx_capacity as int);
            let base = 64 + 32 * old(w).layout.idx_capacity;
            &&& get_u64(r, off) == pos
            &&& get_u64(r, off + 8) == data_pos
            &&& get_u32(r, off + 16) == data@.len() % 0x1_0000_0000
            &&& get_u64(r, off + 24) == 0
            &&& get_u64(r, 32) == pos + 1
            &&& get_u64(r, 40) == data_pos + data.len()
            &&& forall|i: int|
                0 <= i < data.len() && data.len() - i <= data_capacity ==> r[base + (data_pos + i)
                    % data_capacity] == #[trigger] data@[i]
        }),
        final(w).pos == old(w).pos + 1,
        final(w).data_pos == old(w).data_pos + data.len(),
{
    let layout = old(w).layout;
    let pos = old(w).pos as int;
    let data_pos = old(w).data_pos as int;
    let cap = layout.data_capacity as int;
    let r1 = final(region)@;
    let r = final(staged)@;
    lemma_layout_numbers(layout, pos);
    lemma_region_laid(layout, old(region)@, r1, data_pos, data@);
    lemma_publish_makes_three_stores(staged, &c);
    let off = layout.entry_off(layout.slot_of(pos));
    crate::bytes::lemma_signed_injective(get_u64(r, off), old(w).pos);
    assert(forall|j: int| off + 8 <= j < off + 32 ==> #[trigger] r[j] == r1[j]);
    assert forall|i: int| 0 <= i < data.len() && data.len() - i <= cap implies r[layout.data_base()
        + (data_pos + i) % cap] == #[trigger] data@[i] by {
        vstd::arithmetic::div_mod::lemma_mod_bound(data_pos + i, cap);
    }
}

/// Staging by the server's writer touches neither the header nor the commit flag, nor anything
/// beside the entry and the data, and hands back what is left to do.
pub proof fn lemma_server_stage_leaves_the_rest(
    w: &mut ShmServerWriter,
    region: &mut [u8],
    data: &[u8],
    c: Publication,
)
    requires
        call_ensures(ShmServerWriter::stage, (w, region, data), c),
        w.wf(),
        region.len() >= w.layout.total(),
        crate::writer::message_fits(w.layout, w.pos, w.data_pos, data.len() as nat),
    ensures
        ({
            let r = final(region)@;
            let pos = old(w).pos as int;
            let off = 64 + 32 * (pos % old(w).layout.idx_capacity as int);
            &&& leaves_the_rest(
                old(region)@,
                r,
                old(w).layout.idx_capacity as int,
                old(w).layout.data_capacity as int,
                32,
                pos,
                old(w).data_pos as int,
                data.len() as int,
            )
            &&& forall|j: int| 0 <= j < 64 ==> #[trigger] r[j] == old(region)@[j]
            &&& forall|j: int| off <= j < off + 8 ==> #[trigger] r[j] == old(region)@[j]
            &&& c.entry_offset == off
            &&& c.tail == pos + 1
            &&& c.data_tail == old(w).data_pos + data.len()
            &&& c.seq as int % 0x1_0000_0000_0000_0000 == pos
        }),
{
    reveal(leaves_the_rest);
    let layout = old(w).layout;
    let pos = old(w).pos as int;
    lemma_layout_numbers(layout, pos);
    lemma_region_laid(
        layout,
        old(region)@,
        final(region)@,
        old(w).data_pos as int,
        data@,
    );
}

/// A new writer is for the planned region and has written nothing; a configuration that cannot be
/// planned for is refused in the same way.
pub proof fn lemma_new_writers(
    config: &ConfigShmServer,
    plan1: Result<ShmLayout, LayoutError>,
    plan2: Result<ShmLayout, LayoutError>,
    server: Result<ShmServerWriter, LayoutError>,
    direct: Result<ShmDirectWriter, LayoutError>,
)
    requires
        call_ensures(ShmLayout::plan, (config.max_messages, config.max_bytes, 1u64), plan1),
        call_ensures(ShmLayout::plan, (config.max_messages, config.max_bytes, 2u64), plan2),
        call_ensures(ShmServerWriter::new, (config,), server),
        call_ensures(ShmDirectWriter::new, (config,), direct),
    ensures
        plan1 matches Ok(layout) ==> (server matches Ok(w) && w.layout == layout && w.pos == 0
            && w.data_pos == 0),
        plan1 matches Err(error) ==> (server matches Err(e) && e == error),
        plan2 matches Ok(layout) ==> (direct matches Ok(w) && w.layout == layout && w.pos == 0
            && w.data_pos == 0 && !w.closed),
        plan2 matches Err(error) ==> (direct matches Err(e) && e == error),
{
}

/// A message that is no longer than the data ring fits, as long as the counters can take it.
pub proof fn lemma_server_short_message_fits(w: &ShmServerWriter, len: usize, r: bool)
    requires
        call_ensures(ShmServerWriter::fits, (w, len), r),
        w.wf(),
    ensures
        len <= w.layout.data_capacity && w.data_pos + len <= u64::MAX && w.pos < u64::MAX ==> r,
        r ==> {
            &&& w.data_pos + len <= u64::MAX
            &&& w.pos < u64::MAX
            &&& w.data_pos as int % w.layout.data_capacity as int + len <= 2
                * w.layout.data_capacity
        },
{
    vstd::arithmetic::div_mod::lemma_mod_bound(
        w.data_pos as int,
        w.layout.data_capacity as int,
    );
}

/// The server's writer marks the region closed and changes nothing else.
pub proof fn lemma_server_close_marks_the_region(w: &ShmServerWriter, region: &mut [u8])
    requires
        call_ensures(ShmServerWriter::close, (w, region), ()),
    ensures
        get_u64(final(region)@, 48) == 1,
        get_u64(final(region)@, 0) == get_u64(old(region)@, 0),
        get_u64(final(region)@, 8) == get_u64(old(region)@, 8),
        get_u64(final(region)@, 16) == get_u64(old(region)@, 16),
        get_u64(final(region)@, 24) == get_u64(old(region)@, 24),
        get_u64(final(region)@, 32) == get_u64(old(region)@, 32),
        get_u64(final(region)@, 40) == get_u64(old(region)@, 40),
        get_u64(final(region)@, 56) == get_u64(old(region)@, 56),
        forall|j: int|
            64 <= j < old(region)@.len() ==> #[trigger] final(region)@[j] == old(region)@[j],
{
    let a = header_at(final(region)@);
    let b = header_at(old(region)@);
    assert(a.magic == b.magic && a.version == b.version);
}

} // verus!
