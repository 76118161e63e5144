//! What writing does to the record that a region keeps.
use vstd::prelude::*;

use crate::bytes::same_inside;
use crate::bytes::same_outside;
use crate::bytes::signed;
use crate::journal::lemma_remainder_moves;
use crate::journal::lemma_slots_differ;
use crate::journal::start_of;
use crate::journal::stream;
use crate::journal::Record;
use crate::layout::header_at;
use crate::layout::ShmHeader;
use crate::layout::ShmLayout;
use crate::layout::HEADER_SIZE;
use crate::layout::INDEX_ENTRY_SIZE_V2;
use crate::ring::lemma_wrapped;
use crate::ring::ring_write;
use crate::writer::message_fits;
use crate::writer::ShmDirectWriter;
use crate::writer::ShmServerWriter;

verus! {

/// A freshly initialized region records that nothing was written.
pub proof fn lemma_fresh_region_records_nothing(layout: ShmLayout, r: Seq<u8>)
    requires
        layout.wf(),
        r.len() >= layout.total(),
        header_at(r) == layout.fresh_header(),
        forall|i: int| 0 <= i < layout.idx_capacity ==> #[trigger] layout.entry_empty(r, i),
    ensures
        layout.records(r, Seq::empty()),
{
}

/// Writing a message to a region that records `log` makes it record `log` and then the message:
/// no message that the rings still hold is disturbed.
pub proof fn lemma_write_appends(
    layout: ShmLayout,
    r0: Seq<u8>,
    r1: Seq<u8>,
    log: Seq<Record>,
    m: Record,
)
    requires
        layout.records(r0, log),
        log.len() < u64::MAX,
        stream(log).len() + m.data.len() <= u64::MAX,
        stream(log).len() as int % layout.data_capacity as int + m.data.len() <= 2
            * layout.data_capacity,
        layout.written(r0, r1, log.len() as int, stream(log).len() as int, m),
    ensures
        layout.records(r1, log.push(m)),
{
    let next = log.push(m);
    let n = log.len() as int;
    assert(next.drop_last() =~= log);
    assert(stream(next) == stream(log) + m.data);
    assert(start_of(next, n) == stream(log).len()) by {
        assert(next.take(n) =~= log);
    }
    assert forall|p: int| 0 <= p < next.len() && next.len() - p
        <= layout.idx_capacity implies layout.committed(
        r1,
        p,
        start_of(next, p) as int,
        #[trigger] next[p],
    ) by {
        if p < n {
            assert(next.take(p) =~= log.take(p));
            assert(next[p] == log[p]);
            lemma_other_entry_kept(layout, r0, r1, log, p);
        }
    }
    assert forall|i: int| next.len() <= i < layout.idx_capacity implies #[trigger] layout.entry_empty(
        r1,
        i,
    ) by {
        assert(layout.entry_empty(r0, i));
        lemma_empty_entry_kept(layout, r0, r1, n, i);
    }
    assert(layout.idx_capacity * layout.entry_size >= 0) by (nonlinear_arith);
    lemma_data_kept(layout, r0, r1, stream(log), m.data);
}

/// Where the entry of a message lies that a write at position `n` does not touch.
proof fn lemma_entry_bytes_kept(
    layout: ShmLayout,
    r0: Seq<u8>,
    r1: Seq<u8>,
    n: int,
    slot: int,
)
    requires
        layout.wf(),
        r0.len() >= layout.total(),
        layout.other_bytes_kept(r0, r1, n),
        0 <= slot < layout.idx_capacity,
        slot != layout.slot_of(n),
    ensures
        same_inside(
            r0,
            r1,
            layout.entry_off(slot),
            layout.entry_off(slot) + layout.entry_size,
        ),
        HEADER_SIZE <= layout.entry_off(slot),
        layout.entry_off(slot) + layout.entry_size <= layout.data_base(),
{
    let touched = layout.slot_of(n);
    vstd::arithmetic::div_mod::lemma_mod_bound(n, layout.idx_capacity as int);
    layout.lemma_entry_inside(slot);
    layout.lemma_entry_inside(touched);
    if slot < touched {
        layout.lemma_entries_apart(slot, touched);
    } else {
        layout.lemma_entries_apart(touched, slot);
    }
}

proof fn lemma_other_entry_kept(
    layout: ShmLayout,
    r0: Seq<u8>,
    r1: Seq<u8>,
    log: Seq<Record>,
    p: int,
)
    requires
        layout.records(r0, log),
        layout.other_bytes_kept(r0, r1, log.len() as int),
        0 <= p < log.len(),
        log.len() + 1 - p <= layout.idx_capacity,
    ensures
        layout.committed(r1, p, start_of(log, p) as int, log[p]),
{
    let n = log.len() as int;
    let slot = layout.slot_of(p);
    lemma_slots_differ(p, n, layout.idx_capacity as int);
    vstd::arithmetic::div_mod::lemma_mod_bound(p, layout.idx_capacity as int);
    lemma_entry_bytes_kept(layout, r0, r1, n, slot);
    let off = layout.entry_off(slot);
    assert(layout.committed(r0, p, start_of(log, p) as int, log[p]));
    if layout.entry_size == INDEX_ENTRY_SIZE_V2 {
        assert(r1.subrange(off + 32, off + 128) =~= r0.subrange(off + 32, off + 128));
    }
}

proof fn lemma_empty_entry_kept(layout: ShmLayout, r0: Seq<u8>, r1: Seq<u8>, n: int, i: int)
    requires
        layout.wf(),
        r0.len() >= layout.total(),
        layout.other_bytes_kept(r0, r1, n),
        0 <= n < i < layout.idx_capacity,
        layout.entry_empty(r0, i),
    ensures
        layout.entry_empty(r1, i),
{
    vstd::arithmetic::div_mod::lemma_small_mod(n as nat, layout.idx_capacity as nat);
    lemma_entry_bytes_kept(layout, r0, r1, n, i);
}

/// A ring that has the last bytes of `bytes` has, once `data` is laid into it where they end, the
/// last bytes of both.
proof fn lemma_ring_goes_on(ring: Seq<u8>, bytes: Seq<u8>, data: Seq<u8>, d: int)
    requires
        ring.len() > 0,
        forall|e: int|
            0 <= e < bytes.len() && bytes.len() - e <= ring.len() ==> ring[e % (ring.len() as int)]
                == #[trigger] bytes[e],
        bytes.len() as int % ring.len() as int + data.len() <= 2 * ring.len(),
        0 <= d < bytes.len() + data.len(),
        bytes.len() + data.len() - d <= ring.len(),
    ensures
        ring_write(ring, bytes.len() as int % ring.len() as int, data)[d % (ring.len() as int)]
            == (bytes + data)[d],
{
    let cap = ring.len() as int;
    let end = bytes.len() as int;
    let offset = end % cap;
    let after = ring_write(ring, offset, data);
    if d >= end {
        let i = d - end;
        lemma_remainder_moves(end, i, cap);
        lemma_wrapped(offset + i, cap);
        assert(after[d % cap] == data[i]);
    } else {
        // The byte is older than `data` and at least one of the next `cap` bytes.
        let back = end - d;
        lemma_remainder_moves(end, cap - back, cap);
        vstd::arithmetic::div_mod::lemma_mod_add_multiples_vanish(d, cap);
        assert(d % cap == (end + (cap - back)) % cap);
        lemma_wrapped(offset + (cap - back), cap);
        assert(after[d % cap] == ring[d % cap]);
        assert(ring[d % cap] == bytes[d]);
    }
}

/// The data ring goes on to hold the last bytes of the stream.
pub proof fn lemma_data_kept(
    layout: ShmLayout,
    r0: Seq<u8>,
    r1: Seq<u8>,
    bytes: Seq<u8>,
    data: Seq<u8>,
)
    requires
        layout.ring_holds(r0, bytes),
        layout.data_capacity > 0,
        0 <= layout.data_base(),
        layout.total() <= r0.len(),
        bytes.len() as int % layout.data_capacity as int + data.len() <= 2 * layout.data_capacity,
        layout.data_ring(r1) == ring_write(
            layout.data_ring(r0),
            bytes.len() as int % layout.data_capacity as int,
            data,
        ),
    ensures
        layout.ring_holds(r1, bytes + data),
{
    let ring = layout.data_ring(r0);
    let all = bytes + data;
    assert(ring.len() == layout.data_capacity);
    assert forall|d: int| 0 <= d < all.len() && all.len() - d
        <= layout.data_capacity implies layout.data_ring(r1)[d % (layout.data_capacity as int)]
        == #[trigger] all[d] by {
        lemma_ring_goes_on(ring, bytes, data, d);
    }
}

/// Region `r1` is `r0` with message `m` written where the messages of `log` end.
pub open spec fn written_next(
    layout: ShmLayout,
    r0: Seq<u8>,
    r1: Seq<u8>,
    log: Seq<Record>,
    m: Record,
) -> bool {
    let bytes = stream(log).len() as int;
    &&& bytes % layout.data_capacity as int + m.data.len() <= 2 * layout.data_capacity
    &&& layout.written(r0, r1, log.len() as int, bytes, m)
}

/// The regions come one from another by writing `messages`, one by one, each where the messages of
/// `log` and those before it end.
pub open spec fn written_in_turn(
    layout: ShmLayout,
    regions: Seq<Seq<u8>>,
    log: Seq<Record>,
    messages: Seq<Record>,
) -> bool {
    &&& regions.len() == messages.len() + 1
    &&& forall|k: int|
        0 <= k < messages.len() ==> written_next(
            layout,
            #[trigger] regions[k],
            regions[k + 1],
            log + messages.take(k),
            messages[k],
        )
}

/// All messages but the last are written in turn too, and the last one comes after them.
proof fn lemma_all_but_last_in_turn(
    layout: ShmLayout,
    regions: Seq<Seq<u8>>,
    log: Seq<Record>,
    messages: Seq<Record>,
)
    requires
        messages.len() > 0,
        written_in_turn(layout, regions, log, messages),
    ensures
        written_in_turn(layout, regions.drop_last(), log, messages.drop_last()),
        written_next(
            layout,
            regions.drop_last().last(),
            regions.last(),
            log + messages.drop_last(),
            messages.last(),
        ),
        stream(log + messages) == stream(log + messages.drop_last()) + messages.last().data,
        log + messages == (log + messages.drop_last()).push(messages.last()),
{
    let n = messages.len() as int;
    let front = messages.drop_last();
    let earlier = regions.drop_last();
    assert((log + messages).drop_last() =~= log + front);
    assert(log + messages =~= (log + front).push(messages.last()));
    assert(messages.take(n - 1) =~= front);
    assert(earlier.last() == regions[n - 1]);
    assert forall|k: int| 0 <= k < front.len() implies written_next(
        layout,
        #[trigger] earlier[k],
        earlier[k + 1],
        log + front.take(k),
        front[k],
    ) by {
        assert(front.take(k) =~= messages.take(k));
        assert(earlier[k] == regions[k] && earlier[k + 1] == regions[k + 1]);
    }
}

/// A region that records `log` counts its messages and their bytes.
pub proof fn lemma_record_counted(layout: ShmLayout, r: Seq<u8>, log: Seq<Record>)
    requires
        layout.records(r, log),
    ensures
        header_at(r).tail == log.len(),
        header_at(r).data_tail == stream(log).len(),
{
}

/// Writing any number of messages to a region that records `log` makes it record `log` and then
/// all of them in order, as long as the counters can count them and their bytes.
pub proof fn lemma_writes_append(
    layout: ShmLayout,
    regions: Seq<Seq<u8>>,
    log: Seq<Record>,
    messages: Seq<Record>,
)
    requires
        written_in_turn(layout, regions, log, messages),
        layout.records(regions[0], log),
        log.len() + messages.len() <= u64::MAX,
        stream(log + messages).len() <= u64::MAX,
    ensures
        layout.records(regions.last(), log + messages),
        header_at(regions.last()).tail == log.len() + messages.len(),
        header_at(regions.last()).data_tail == stream(log + messages).len(),
    decreases messages.len(),
{
    if messages.len() == 0 {
        assert(log + messages =~= log);
    } else {
        let front = messages.drop_last();
        lemma_all_but_last_in_turn(layout, regions, log, messages);
        lemma_writes_append(layout, regions.drop_last(), log, front);
        lemma_write_appends(
            layout,
            regions.drop_last().last(),
            regions.last(),
            log + front,
            messages.last(),
        );
    }
    lemma_record_counted(layout, regions.last(), log + messages);
}

/// A new writer is attached to a freshly initialized region.
pub proof fn lemma_new_writer_attached(layout: ShmLayout, r: Seq<u8>)
    requires
        r.len() >= layout.total(),
        header_at(r) == layout.fresh_header(),
    ensures
        (ShmDirectWriter { layout, pos: 0, data_pos: 0, closed: false }).attached(r),
        (ShmServerWriter { layout, pos: 0, data_pos: 0 }).attached(r),
{
}

/// A writer that is attached to a region which records `log` stands at the end of `log`, and what
/// it writes at its own counters is recorded next.
pub proof fn lemma_attached_write_appends(
    layout: ShmLayout,
    pos: u64,
    data_pos: u64,
    r0: Seq<u8>,
    r1: Seq<u8>,
    log: Seq<Record>,
    m: Record,
)
    requires
        layout.records(r0, log),
        layout.counts(r0, pos, data_pos),
        message_fits(layout, pos, data_pos, m.data.len()),
        layout.written(r0, r1, pos as int, data_pos as int, m),
    ensures
        pos == log.len(),
        data_pos == stream(log).len(),
        layout.records(r1, log.push(m)),
        layout.counts(r1, (pos + 1) as u64, (data_pos + m.data.len()) as u64),
{
    assert(header_at(r0).tail == pos && header_at(r0).data_tail == data_pos);
    lemma_write_appends(layout, r0, r1, log, m);
}

/// A committed message stays committed when only the header changes.
proof fn lemma_commit_outside_header(
    layout: ShmLayout,
    r0: Seq<u8>,
    r1: Seq<u8>,
    p: int,
    data_off: int,
    m: Record,
)
    requires
        layout.wf(),
        r0.len() >= layout.total(),
        same_outside(r0, r1, 0, HEADER_SIZE as int),
        0 <= p,
        layout.committed(r0, p, data_off, m),
    ensures
        layout.committed(r1, p, data_off, m),
{
    let slot = layout.slot_of(p);
    vstd::arithmetic::div_mod::lemma_mod_bound(p, layout.idx_capacity as int);
    layout.lemma_entry_inside(slot);
    let off = layout.entry_off(slot);
    if layout.entry_size == INDEX_ENTRY_SIZE_V2 {
        assert(r1.subrange(off + 32, off + 128) =~= r0.subrange(off + 32, off + 128));
    }
}

/// An empty index entry stays empty when only the header changes.
proof fn lemma_empty_outside_header(layout: ShmLayout, r0: Seq<u8>, r1: Seq<u8>, i: int)
    requires
        layout.wf(),
        r0.len() >= layout.total(),
        same_outside(r0, r1, 0, HEADER_SIZE as int),
        0 <= i < layout.idx_capacity,
        layout.entry_empty(r0, i),
    ensures
        layout.entry_empty(r1, i),
{
    layout.lemma_entry_inside(i);
}

/// Marking a region closed leaves what it records.
pub proof fn lemma_close_keeps_record(
    layout: ShmLayout,
    r0: Seq<u8>,
    r1: Seq<u8>,
    log: Seq<Record>,
)
    requires
        layout.records(r0, log),
        header_at(r1) == (ShmHeader { closed: 1, ..header_at(r0) }),
        same_outside(r0, r1, 0, HEADER_SIZE as int),
    ensures
        layout.records(r1, log),
{
    assert forall|p: int| 0 <= p < log.len() && log.len() - p
        <= layout.idx_capacity implies layout.committed(
        r1,
        p,
        start_of(log, p) as int,
        #[trigger] log[p],
    ) by {
        lemma_commit_outside_header(layout, r0, r1, p, start_of(log, p) as int, log[p]);
    }
    assert forall|i: int| log.len() <= i < layout.idx_capacity implies #[trigger] layout.entry_empty(
        r1,
        i,
    ) by {
        lemma_empty_outside_header(layout, r0, r1, i);
    }
    assert(layout.data_ring(r1) == layout.data_ring(r0)) by {
        assert(layout.idx_capacity * layout.entry_size >= 0) by (nonlinear_arith);
        assert(layout.data_ring(r1) =~= layout.data_ring(r0));
    }
}

/// A poisoned lock closes: a writer that was attached to its region and was then marked closed for
/// the lock is attached to the region once 1 is stored to the header's `closed` field, and what
/// the region records is kept.
pub proof fn lemma_poisoned_lock_closes(
    w0: ShmDirectWriter,
    w1: ShmDirectWriter,
    r0: Seq<u8>,
    r1: Seq<u8>,
    log: Seq<Record>,
)
    requires
        w0.attached(r0),
        w0.layout.records(r0, log),
        w1 == (ShmDirectWriter { closed: true, ..w0 }),
        header_at(r1) == (ShmHeader { closed: 1, ..header_at(r0) }),
        same_outside(r0, r1, 0, HEADER_SIZE as int),
    ensures
        w1.attached(r1),
        w1.layout.records(r1, log),
{
    lemma_close_keeps_record(w0.layout, r0, r1, log);
}

/// A slot of the index ring never holds a stale position: of all positions that share the slot
/// of `p`, the one whose commit flag is there is the last one written.
pub proof fn lemma_slot_holds_latest(layout: ShmLayout, r: Seq<u8>, log: Seq<Record>, p: int)
    requires
        layout.records(r, log),
        0 <= p < log.len(),
    ensures
        ({
            let last = log.len() - 1 - (log.len() - 1 - p) % (layout.idx_capacity as int);
            &&& p <= last < log.len()
            &&& layout.slot_of(last) == layout.slot_of(p)
            &&& crate::bytes::get_i64(r, layout.entry_off(layout.slot_of(p))) == signed(
                last as u64,
            )
        }),
{
    let cap = layout.idx_capacity as int;
    let gap = log.len() - 1 - p;
    let last = log.len() - 1 - gap % cap;
    vstd::arithmetic::div_mod::lemma_fundamental_div_mod(gap, cap);
    vstd::arithmetic::div_mod::lemma_mod_bound(gap, cap);
    assert(gap / cap >= 0) by (nonlinear_arith)
        requires
            gap >= 0,
            cap > 0,
    ;
    assert(cap * (gap / cap) >= 0) by (nonlinear_arith)
        requires
            gap / cap >= 0,
            cap > 0,
    ;
    assert(last == p + cap * (gap / cap));
    vstd::arithmetic::div_mod::lemma_mod_multiples_vanish(gap / cap, p, cap);
    assert(layout.committed(r, last, start_of(log, last) as int, log[last]));
}

} // verus!
