//! What reading gives back of what was written, and when a reader notices that it lags.
use vstd::prelude::*;

use crate::bytes::get_i64;
use crate::bytes::get_u32;
use crate::bytes::get_u64;
use crate::bytes::lemma_signed_injective;
use crate::bytes::signed;
use crate::capacity::lemma_mask_is_remainder;
use crate::journal::lemma_remainder_moves;
use crate::journal::start_of;
use crate::journal::stream;
use crate::journal::Record;
use crate::journal_laws::lemma_data_kept;
use crate::journal_laws::lemma_record_counted;
use crate::journal_laws::lemma_slot_holds_latest;
use crate::layout::entry_v2_at;
use crate::layout::header_at;
use crate::layout::IndexEntryV2View;
use crate::layout::ShmLayout;
use crate::layout::INDEX_ENTRY_SIZE;
use crate::layout::INDEX_ENTRY_SIZE_V2;
use crate::layout::VERSION;
use crate::layout::VERSION_V2;
use crate::pre_filter::ShmPreFilter;
use crate::reader::computable;
use crate::reader::open_error;
use crate::reader::wanted;
use crate::reader::Found;
use crate::reader::ReadAction;
use crate::reader::ReadEvent;
use crate::reader::ShmConnectError;
use crate::reader::ShmReader;
use crate::reader::ShmReceiveError;
use crate::reader::ShmSubscription;
use crate::ring::ring_read;

verus! {

/// The subscription to a region of this layout.
pub open spec fn subscription_to(layout: ShmLayout) -> ShmSubscription {
    ShmSubscription::of_header(layout.fresh_header(), layout.entry_size)
}

/// The pre-filter, if there is one, wants `m`.
pub open spec fn wants(filter: Option<ShmPreFilter>, m: Record) -> bool {
    match filter {
        Some(f) => f.accepts(m.msg_type, m.flags, m.meta),
        None => true,
    }
}

/// The rings of a region of this layout that records `log` still hold message `p`.
pub open spec fn still_held(layout: ShmLayout, log: Seq<Record>, p: int) -> bool {
    &&& log.len() - p <= layout.idx_capacity
    &&& stream(log).len() - start_of(log, p) <= layout.data_capacity
}

/// The bytes of message `p` stand in the stream from where it starts.
proof fn lemma_message_in_stream(log: Seq<Record>, p: int)
    requires
        0 <= p < log.len(),
    ensures
        start_of(log, p) + log[p].data.len() <= stream(log).len(),
        stream(log).subrange(start_of(log, p) as int, (start_of(log, p) + log[p].data.len()) as int)
            == log[p].data,
    decreases log.len(),
{
    let front = log.drop_last();
    if p == log.len() - 1 {
        assert(log.take(p) =~= front);
        assert(stream(log).subrange(
            start_of(log, p) as int,
            (start_of(log, p) + log[p].data.len()) as int,
        ) =~= log[p].data);
    } else {
        assert(log.take(p) =~= front.take(p));
        assert(front[p] == log[p]);
        lemma_message_in_stream(front, p);
        assert(stream(log).subrange(
            start_of(log, p) as int,
            (start_of(log, p) + log[p].data.len()) as int,
        ) =~= stream(front).subrange(
            start_of(front, p) as int,
            (start_of(front, p) + front[p].data.len()) as int,
        ));
    }
}

/// The reader's arithmetic agrees with the layout's.
proof fn lemma_subscription_matches(layout: ShmLayout, r: Seq<u8>, log: Seq<Record>, p: u64)
    requires
        layout.records(r, log),
    ensures
        subscription_to(layout).wf(),
        subscription_to(layout) == ShmSubscription::of_header(header_at(r), layout.entry_size),
        subscription_to(layout).size() == layout.total(),
        subscription_to(layout).entry_off(p) == layout.entry_off(layout.slot_of(p as int)),
        subscription_to(layout).data_ring(r) == layout.data_ring(r),
{
    lemma_mask_is_remainder(p, layout.idx_capacity as u64);
    assert(layout.idx_capacity * layout.entry_size >= 0) by (nonlinear_arith);
}

/// The data ring gives back the bytes of message `p` as long as it holds them.
proof fn lemma_ring_gives_message(layout: ShmLayout, r: Seq<u8>, log: Seq<Record>, p: int)
    requires
        layout.ring_holds(r, stream(log)),
        layout.data_capacity > 0,
        layout.total() <= r.len(),
        0 <= layout.data_base(),
        0 <= p < log.len(),
        still_held(layout, log, p),
    ensures
        ({
            let offset = start_of(log, p) as int % layout.data_capacity as int;
            &&& offset + log[p].data.len() <= 2 * layout.data_capacity
            &&& ring_read(layout.data_ring(r), offset, log[p].data.len()) == log[p].data
        }),
{
    let start = start_of(log, p) as int;
    let cap = layout.data_capacity as int;
    let data = log[p].data;
    let ring = layout.data_ring(r);
    assert(ring.len() == cap);
    lemma_message_in_stream(log, p);
    lemma_remainder_moves(start, 0, cap);
    let read = ring_read(ring, start % cap, data.len());
    assert forall|i: int| 0 <= i < data.len() implies #[trigger] read[i] == data[i] by {
        lemma_remainder_moves(start, i, cap);
        assert(stream(log)[start + i] == stream(log).subrange(start, start + data.len())[i]);
    }
    assert(read =~= data);
}

/// What the entry of message `p` says, as the reader sees it.
proof fn lemma_entry_of_message(
    layout: ShmLayout,
    r: Seq<u8>,
    log: Seq<Record>,
    p: int,
    filter: Option<ShmPreFilter>,
)
    requires
        layout.records(r, log),
        0 <= p < log.len(),
        log.len() - p <= layout.idx_capacity,
        filter is Some ==> layout.entry_size == INDEX_ENTRY_SIZE_V2,
    ensures
        ({
            let off = subscription_to(layout).entry_off(p as u64);
            &&& get_i64(r, off) == signed(p as u64)
            &&& get_u64(r, off + 8) == start_of(log, p)
            &&& get_u32(r, off + 16) == log[p].data.len() % 0x1_0000_0000
            &&& wanted(filter, r, off) == wants(filter, log[p])
        }),
{
    lemma_subscription_matches(layout, r, log, p as u64);
    assert(layout.committed(r, p, start_of(log, p) as int, log[p]));
}

/// What is found at a committed position, from the few values that decide it.
proof fn lemma_found_committed(
    sub: ShmSubscription,
    r: Seq<u8>,
    p: u64,
    filter: Option<ShmPreFilter>,
    data_off: u64,
    data_len: u32,
)
    requires
        p < header_at(r).tail,
        data_off <= header_at(r).data_tail,
        get_i64(r, sub.entry_off(p)) == signed(p),
        get_u64(r, sub.entry_off(p) + 8) == data_off,
        get_u32(r, sub.entry_off(p) + 16) == data_len,
    ensures
        sub.found(r, p, filter) == (if !wanted(filter, r, sub.entry_off(p)) {
            Found::Unwanted
        } else if header_at(r).data_tail - data_off > sub.data_capacity {
            Found::End(ShmReceiveError::Lagged)
        } else {
            Found::Message(
                ring_read(
                    sub.data_ring(r),
                    data_off as int % sub.data_capacity as int,
                    data_len as nat,
                ),
            )
        }),
        sub.data_capacity > 0 && data_off as int % sub.data_capacity as int + data_len <= 2
            * sub.data_capacity ==> sub.copyable(r, p, filter),
{
    let distance = header_at(r).data_tail - data_off;
    vstd::arithmetic::div_mod::lemma_small_mod(distance as nat, 0x1_0000_0000_0000_0000);
}

/// A committed message whose bytes are in the ring is found.
proof fn lemma_held_message_found(
    sub: ShmSubscription,
    r: Seq<u8>,
    p: u64,
    filter: Option<ShmPreFilter>,
    data_off: u64,
    data: Seq<u8>,
)
    requires
        sub.data_capacity > 0,
        data.len() <= u32::MAX,
        p < header_at(r).tail,
        data_off <= header_at(r).data_tail,
        header_at(r).data_tail - data_off <= sub.data_capacity,
        get_i64(r, sub.entry_off(p)) == signed(p),
        get_u64(r, sub.entry_off(p) + 8) == data_off,
        get_u32(r, sub.entry_off(p) + 16) == data.len() % 0x1_0000_0000,
        wanted(filter, r, sub.entry_off(p)),
        data_off as int % sub.data_capacity as int + data.len() <= 2 * sub.data_capacity,
        ring_read(sub.data_ring(r), data_off as int % sub.data_capacity as int, data.len())
            == data,
    ensures
        sub.found(r, p, filter) == Found::Message(data),
        sub.copyable(r, p, filter),
{
    lemma_found_committed(sub, r, p, filter, data_off, data.len() as u32);
}

/// What a read gives back of a write: as long as the rings hold message `p`, a reader at
/// position `p` whose pre-filter wants it finds exactly the bytes that were written.
pub proof fn lemma_read_gives_back_written(
    layout: ShmLayout,
    r: Seq<u8>,
    log: Seq<Record>,
    p: int,
    filter: Option<ShmPreFilter>,
)
    requires
        layout.records(r, log),
        0 <= p < log.len(),
        still_held(layout, log, p),
        log[p].data.len() <= u32::MAX,
        filter is Some ==> layout.entry_size == INDEX_ENTRY_SIZE_V2,
        wants(filter, log[p]),
    ensures
        subscription_to(layout).found(r, p as u64, filter) == Found::Message(log[p].data),
        subscription_to(layout).copyable(r, p as u64, filter),
{
    let data = log[p].data;
    lemma_message_in_stream(log, p);
    lemma_subscription_matches(layout, r, log, p as u64);
    lemma_entry_of_message(layout, r, log, p, filter);
    assert(layout.idx_capacity * layout.entry_size >= 0) by (nonlinear_arith);
    lemma_ring_gives_message(layout, r, log, p);
    lemma_record_counted(layout, r, log);
    lemma_held_message_found(
        subscription_to(layout),
        r,
        p as u64,
        filter,
        start_of(log, p) as u64,
        data,
    );
}

/// Lag detection: a reader at a position that was written to, but whose message the rings no
/// longer hold, is told that it lags; it never gets other bytes instead.
pub proof fn lemma_overtaken_reader_lags(
    layout: ShmLayout,
    r: Seq<u8>,
    log: Seq<Record>,
    p: int,
    filter: Option<ShmPreFilter>,
)
    requires
        layout.records(r, log),
        0 <= p < log.len(),
        !still_held(layout, log, p),
        filter is Some ==> layout.entry_size == INDEX_ENTRY_SIZE_V2,
    ensures
        subscription_to(layout).found(r, p as u64, filter) == (if log.len() - p
            <= layout.idx_capacity && !wants(filter, log[p]) {
            Found::Unwanted
        } else {
            Found::End(ShmReceiveError::Lagged)
        }),
{
    lemma_subscription_matches(layout, r, log, p as u64);
    if log.len() - p <= layout.idx_capacity {
        lemma_message_in_stream(log, p);
        lemma_entry_of_message(layout, r, log, p, filter);
        lemma_record_counted(layout, r, log);
        lemma_found_committed(
            subscription_to(layout),
            r,
            p as u64,
            filter,
            start_of(log, p) as u64,
            (log[p].data.len() % 0x1_0000_0000) as u32,
        );
    } else {
        lemma_old_entry_replaced(layout, r, log, p);
    }
}

/// The commit flag that a reader finds for a position that left the index ring is another one.
proof fn lemma_old_entry_replaced(layout: ShmLayout, r: Seq<u8>, log: Seq<Record>, p: int)
    requires
        layout.records(r, log),
        0 <= p < log.len(),
        log.len() - p > layout.idx_capacity,
    ensures
        get_i64(r, subscription_to(layout).entry_off(p as u64)) != signed(p as u64),
{
    let cap = layout.idx_capacity as int;
    let gap = log.len() - 1 - p;
    let last = log.len() - 1 - gap % cap;
    lemma_subscription_matches(layout, r, log, p as u64);
    lemma_slot_holds_latest(layout, r, log, p);
    vstd::arithmetic::div_mod::lemma_mod_bound(gap, cap);
    lemma_signed_injective(p as u64, last as u64);
}

/// A reader that has caught up finds nothing, or the end once the writer has closed.
pub proof fn lemma_caught_up_reader_waits(
    layout: ShmLayout,
    r: Seq<u8>,
    log: Seq<Record>,
    p: u64,
    filter: Option<ShmPreFilter>,
)
    requires
        layout.records(r, log),
        p >= log.len(),
    ensures
        subscription_to(layout).found(r, p, filter) == (if header_at(r).closed != 0 {
            Found::End(ShmReceiveError::Closed)
        } else {
            Found::Nothing
        }),
{
}

/// A message that the pre-filter does not want is passed over as long as its entry is there,
/// whether or not its data still is.
pub proof fn lemma_unwanted_message_skipped(
    layout: ShmLayout,
    r: Seq<u8>,
    log: Seq<Record>,
    p: int,
    filter: ShmPreFilter,
)
    requires
        layout.records(r, log),
        layout.entry_size == INDEX_ENTRY_SIZE_V2,
        0 <= p < log.len(),
        log.len() - p <= layout.idx_capacity,
        !wants(Some(filter), log[p]),
    ensures
        subscription_to(layout).found(r, p as u64, Some(filter)) is Unwanted,
{
    lemma_subscription_matches(layout, r, log, p as u64);
    assert(layout.committed(r, p, start_of(log, p) as int, log[p]));
}

/// A region that a writer made can be opened by the reader of its version, and a V1 reader
/// refuses a V2 region by naming its version.
pub proof fn lemma_written_region_opens(layout: ShmLayout, r: Seq<u8>, log: Seq<Record>)
    requires
        layout.records(r, log),
    ensures
        layout.version == VERSION ==> {
            &&& computable(r, VERSION, INDEX_ENTRY_SIZE)
            &&& open_error(r, VERSION, INDEX_ENTRY_SIZE) is None
        },
        layout.version == VERSION_V2 ==> {
            &&& computable(r, VERSION_V2, INDEX_ENTRY_SIZE_V2)
            &&& open_error(r, VERSION_V2, INDEX_ENTRY_SIZE_V2) is None
            &&& computable(r, VERSION, INDEX_ENTRY_SIZE)
            &&& open_error(r, VERSION, INDEX_ENTRY_SIZE) == Some(
                ShmConnectError::UnsupportedVersion(VERSION_V2),
            )
        },
        ShmSubscription::of_header(header_at(r), layout.entry_size) == subscription_to(layout),
{
    assert(layout.idx_capacity * layout.entry_size >= 0) by (nonlinear_arith);
}

/// A message is handed on only if its position was committed and its bytes were in the ring,
/// both before and after they were copied.
pub proof fn lemma_sent_only_if_stable(
    reader: ShmReader,
    tail: u64,
    seq: i64,
    data_off: u64,
    data_len: u32,
    accepted: bool,
    data_tail: u64,
    seq_after: i64,
    data_tail_after: u64,
)
    requires
        reader.phase is Tail,
    ensures
        ({
            let r1 = reader.next(ReadEvent::Tail(tail)).0;
            let r2 = r1.next(ReadEvent::Commit(seq)).0;
            let r3 = r2.next(ReadEvent::Entry { data_off, data_len, accepted }).0;
            let r4 = r3.next(ReadEvent::DataTail(data_tail)).0;
            let r5 = r4.next(ReadEvent::Copied).0;
            let r6 = r5.next(ReadEvent::Commit(seq_after)).0;
            let (r7, action) = r6.next(ReadEvent::DataTail(data_tail_after));
            action == ReadAction::Send <==> {
                &&& reader.next_pos < tail
                &&& seq == signed(reader.next_pos)
                &&& accepted
                &&& !reader.sub.overwritten(data_tail, data_off)
                &&& seq_after == signed(reader.next_pos)
                &&& !reader.sub.overwritten(data_tail_after, data_off)
            }
        }),
{
}

/// The reader asks to hand a message on in one situation only: when the last check after the
/// copy has passed.
pub proof fn lemma_send_follows_recheck(reader: ShmReader, event: ReadEvent)
    ensures
        reader.next(event).1 is Send ==> reader.phase is RecheckDataTail,
        reader.next(event).1 is Copy ==> reader.phase is DataTail,
{
}

/// Positions are read in order and none is left out: a step stays at the position or goes on
/// to the next one, and it goes on only when the message was handed on or not wanted.
pub proof fn lemma_positions_in_order(reader: ShmReader, event: ReadEvent)
    requires
        reader.wf(),
        reader.expects(event),
    ensures
        ({
            let after = reader.next(event).0;
            ||| after.next_pos == reader.next_pos
            ||| after.next_pos == reader.next_pos + 1 && (event == ReadEvent::Sent(true) || (
            event is Entry && !event->Entry_accepted))
        }),
        reader.next(event).0.wf(),
{
}

/// Once reading has ended, the reader takes no more events; it ends exactly when it says why, or
/// when the receiver is gone.
pub proof fn lemma_end_is_final(reader: ShmReader, event: ReadEvent)
    requires
        reader.expects(event),
    ensures
        ({
            let (after, action) = reader.next(event);
            after.phase is Done <==> action is Fail || action is Stop
        }),
        reader.next(event).0.phase is Done ==> forall|e: ReadEvent|
            !#[trigger] reader.next(event).0.expects(e),
{
}

/// A V2 index entry gives back all that was written with its message.
pub proof fn lemma_entry_v2_gives_back_written(
    layout: ShmLayout,
    r: Seq<u8>,
    log: Seq<Record>,
    p: int,
)
    requires
        layout.records(r, log),
        layout.entry_size == INDEX_ENTRY_SIZE_V2,
        0 <= p < log.len(),
        log.len() - p <= layout.idx_capacity,
        log[p].data.len() <= u32::MAX,
    ensures
        entry_v2_at(r, layout.entry_off(layout.slot_of(p))) == (IndexEntryV2View {
            seq: signed(p as u64),
            data_off: start_of(log, p) as u64,
            data_len: log[p].data.len() as u32,
            msg_type: log[p].msg_type,
            flags: log[p].flags,
            pad0: 0,
            slot: log[p].slot,
            meta: log[p].meta,
        }),
{
    assert(layout.committed(r, p, start_of(log, p) as int, log[p]));
    lemma_message_in_stream(log, p);
    lemma_committed_entry_v2(layout, r, p, start_of(log, p) as int, log[p]);
}

/// What a committed V2 index entry says.
proof fn lemma_committed_entry_v2(layout: ShmLayout, r: Seq<u8>, p: int, start: int, m: Record)
    requires
        layout.committed(r, p, start, m),
        layout.entry_size == INDEX_ENTRY_SIZE_V2,
        0 <= start <= u64::MAX,
        m.data.len() <= u32::MAX,
    ensures
        entry_v2_at(r, layout.entry_off(layout.slot_of(p))) == (IndexEntryV2View {
            seq: signed(p as u64),
            data_off: start as u64,
            data_len: m.data.len() as u32,
            msg_type: m.msg_type,
            flags: m.flags,
            pad0: 0,
            slot: m.slot,
            meta: m.meta,
        }),
{
    vstd::arithmetic::div_mod::lemma_small_mod(m.data.len(), 0x1_0000_0000);
}

// --- Reading while the writer goes on ---

/// A message that was staged but not published is invisible: a reader that waits for it finds
/// what it found before.
pub proof fn lemma_staged_message_invisible(
    layout: ShmLayout,
    r0: Seq<u8>,
    r1: Seq<u8>,
    log: Seq<Record>,
    m: Record,
    filter: Option<ShmPreFilter>,
)
    requires
        layout.records(r0, log),
        layout.staged(r0, r1, log.len() as int, stream(log).len() as int, m),
    ensures
        subscription_to(layout).found(r1, log.len() as u64, filter) == subscription_to(
            layout,
        ).found(r0, log.len() as u64, filter),
        header_at(r1) == header_at(r0),
{
    assert(header_at(r1) == header_at(r0));
}

/// `later` is `log` with more messages written after it, or none.
pub open spec fn extends(later: Seq<Record>, log: Seq<Record>) -> bool {
    &&& log.len() <= later.len()
    &&& later.take(log.len() as int) == log
}

/// The stream of message bytes only grows: what was written stays in its place.
pub proof fn lemma_stream_grows(later: Seq<Record>, log: Seq<Record>)
    requires
        extends(later, log),
    ensures
        stream(log).len() <= stream(later).len(),
        stream(later).take(stream(log).len() as int) == stream(log),
        forall|p: int| 0 <= p <= log.len() ==> start_of(later, p) == #[trigger] start_of(log, p),
    decreases later.len(),
{
    assert forall|p: int| 0 <= p <= log.len() implies start_of(later, p) == #[trigger] start_of(
        log,
        p,
    ) by {
        assert(later.take(p) =~= log.take(p));
    }
    if later.len() > log.len() {
        let front = later.drop_last();
        assert(front.take(log.len() as int) =~= log);
        lemma_stream_grows(front, log);
        assert(stream(later).take(stream(log).len() as int) =~= stream(front).take(
            stream(log).len() as int,
        ));
    } else {
        assert(later =~= log);
        assert(stream(later).take(stream(log).len() as int) =~= stream(log));
    }
}

/// The bytes that a copy from ring offset `offset` gathers when the region was `seen[i]` at the
/// moment the `i`-th byte was copied.
pub open spec fn gathered(layout: ShmLayout, seen: Seq<Seq<u8>>, offset: int) -> Seq<u8> {
    Seq::new(
        seen.len(),
        |i: int| layout.data_ring(seen[i])[(offset + i) % (layout.data_capacity as int)],
    )
}

/// When the `i`-th byte of message `p` is copied from `seen[i]`, the ring holds the end of
/// `laid[i]`, which goes on where `log` ends; bytes that were laid by then and that `last` does
/// not count yet do not reach the message.
pub open spec fn harmless(
    layout: ShmLayout,
    log: Seq<Record>,
    p: int,
    seen: Seq<Seq<u8>>,
    laid: Seq<Seq<u8>>,
    last: Seq<Record>,
) -> bool {
    &&& laid.len() == seen.len()
    &&& forall|i: int|
        0 <= i < seen.len() ==> layout.ring_holds(#[trigger] seen[i], laid[i])
            && stream(log).is_prefix_of(laid[i]) && (laid[i].len() <= stream(last).len()
            || laid[i].len() - start_of(log, p) <= layout.data_capacity)
}

/// The check after the copy is enough: other messages may be laid into the ring while the bytes of
/// message `p` are copied one by one, and the copy is the message if the byte count seen after
/// it, that of `last`, still leaves them in the ring. Bytes that were laid when a byte was copied
/// and that are not counted yet after the copy must not reach the message.
pub proof fn lemma_rechecked_copy_is_message(
    layout: ShmLayout,
    log: Seq<Record>,
    p: int,
    seen: Seq<Seq<u8>>,
    laid: Seq<Seq<u8>>,
    after: Seq<u8>,
    last: Seq<Record>,
)
    requires
        0 <= p < log.len(),
        seen.len() == log[p].data.len(),
        harmless(layout, log, p, seen, laid, last),
        layout.records(after, last),
        extends(last, log),
        !subscription_to(layout).overwritten(
            header_at(after).data_tail,
            start_of(log, p) as u64,
        ),
    ensures
        gathered(layout, seen, start_of(log, p) as int % layout.data_capacity as int)
            == log[p].data,
{
    let start = start_of(log, p) as int;
    let cap = layout.data_capacity as int;
    let copy = gathered(layout, seen, start % cap);
    lemma_message_in_stream(log, p);
    lemma_stream_grows(last, log);
    lemma_record_counted(layout, after, last);
    let distance = stream(last).len() - start;
    vstd::arithmetic::div_mod::lemma_small_mod(distance as nat, 0x1_0000_0000_0000_0000);
    assert(distance <= cap);
    assert forall|i: int| 0 <= i < seen.len() implies #[trigger] copy[i] == log[p].data[i] by {
        assert(layout.ring_holds(seen[i], laid[i]));
        lemma_byte_seen(layout, log, p, seen[i], laid[i], i);
    }
    assert(copy =~= log[p].data);
}

/// What the reader asks to copy, and what it does after the last check, when it loads the tail of
/// region `at_tail`, reads the entry of region `at_entry`, and after the copy loads the commit
/// flag of region `at_commit` and the byte count of region `at_end`.
#[verifier::opaque]
pub open spec fn reading(
    reader: ShmReader,
    at_tail: Seq<u8>,
    seq: i64,
    at_entry: Seq<u8>,
    accepted: bool,
    data_tail: u64,
    at_commit: Seq<u8>,
    at_end: Seq<u8>,
) -> (ReadAction, ReadAction) {
    let off = reader.sub.entry_off(reader.next_pos);
    let entry = ReadEvent::Entry {
        data_off: get_u64(at_entry, off + 8),
        data_len: get_u32(at_entry, off + 16),
        accepted,
    };
    let r1 = reader.next(ReadEvent::Tail(header_at(at_tail).tail)).0;
    let r2 = r1.next(ReadEvent::Commit(seq)).0;
    let r3 = r2.next(entry).0;
    let (r4, copy) = r3.next(ReadEvent::DataTail(data_tail));
    let r5 = r4.next(ReadEvent::Copied).0;
    let r6 = r5.next(ReadEvent::Commit(get_i64(at_commit, off))).0;
    (copy, r6.next(ReadEvent::DataTail(header_at(at_end).data_tail)).1)
}

/// What the loads were when the reader hands its copy on, and what it asked to copy.
proof fn lemma_reading_sends(
    reader: ShmReader,
    at_tail: Seq<u8>,
    seq: i64,
    at_entry: Seq<u8>,
    accepted: bool,
    data_tail: u64,
    at_commit: Seq<u8>,
    at_end: Seq<u8>,
)
    requires
        reader.phase is Tail,
        reading(
            reader,
            at_tail,
            seq,
            at_entry,
            accepted,
            data_tail,
            at_commit,
            at_end,
        ).1 is Send,
    ensures
        ({
            let off = reader.sub.entry_off(reader.next_pos);
            let data_off = get_u64(at_entry, off + 8);
            &&& reader.next_pos < header_at(at_tail).tail
            &&& get_i64(at_commit, off) == signed(reader.next_pos)
            &&& !reader.sub.overwritten(header_at(at_end).data_tail, data_off)
            &&& reading(
                reader,
                at_tail,
                seq,
                at_entry,
                accepted,
                data_tail,
                at_commit,
                at_end,
            ).0 == ReadAction::Copy {
                ring_offset: (data_off as int % reader.sub.data_capacity as int) as usize,
                len: get_u32(at_entry, off + 16),
            }
        }),
{
    reveal(reading);
}

/// The regions are one region at moments that follow one another: it records `first`, then `log`,
/// then `later`, then `last`, each of which goes on where the one before ends.
#[verifier::opaque]
pub open spec fn in_turn(
    layout: ShmLayout,
    at_tail: Seq<u8>,
    first: Seq<Record>,
    at_entry: Seq<u8>,
    log: Seq<Record>,
    at_commit: Seq<u8>,
    later: Seq<Record>,
    at_end: Seq<u8>,
    last: Seq<Record>,
) -> bool {
    &&& layout.records(at_tail, first)
    &&& layout.records(at_entry, log)
    &&& layout.records(at_commit, later)
    &&& layout.records(at_end, last)
    &&& extends(log, first)
    &&& extends(later, log)
    &&& extends(last, later)
}

/// An entry that is read between a load of the tail and a load of the commit flag which finds
/// position `p` there is the entry of message `p`.
proof fn lemma_entry_between_loads(
    layout: ShmLayout,
    p: u64,
    at_tail: Seq<u8>,
    first: Seq<Record>,
    at_entry: Seq<u8>,
    log: Seq<Record>,
    at_commit: Seq<u8>,
    later: Seq<Record>,
    at_end: Seq<u8>,
    last: Seq<Record>,
)
    requires
        in_turn(layout, at_tail, first, at_entry, log, at_commit, later, at_end, last),
        p < header_at(at_tail).tail,
        get_i64(at_commit, subscription_to(layout).entry_off(p)) == signed(p),
    ensures
        p < first.len() <= log.len(),
        start_of(log, p as int) <= u64::MAX,
        ({
            let off = subscription_to(layout).entry_off(p);
            &&& get_u64(at_entry, off + 8) == start_of(log, p as int)
            &&& get_u32(at_entry, off + 16) == log[p as int].data.len() % 0x1_0000_0000
        }),
{
    reveal(in_turn);
    lemma_record_counted(layout, at_tail, first);
    if later.len() - p > layout.idx_capacity {
        lemma_old_entry_replaced(layout, at_commit, later, p as int);
    }
    lemma_entry_of_message(layout, at_entry, log, p as int, None);
    lemma_message_in_stream(log, p as int);
}

/// Going on is transitive.
proof fn lemma_extends_transitive(last: Seq<Record>, later: Seq<Record>, log: Seq<Record>)
    requires
        extends(later, log),
        extends(last, later),
    ensures
        extends(last, log),
{
    assert(last.take(log.len() as int) =~= last.take(later.len() as int).take(log.len() as int));
}

/// The copy is message `p` if the last load leaves its bytes in the ring.
proof fn lemma_copy_between_loads(
    layout: ShmLayout,
    p: int,
    at_tail: Seq<u8>,
    first: Seq<Record>,
    at_entry: Seq<u8>,
    log: Seq<Record>,
    seen: Seq<Seq<u8>>,
    laid: Seq<Seq<u8>>,
    at_commit: Seq<u8>,
    later: Seq<Record>,
    at_end: Seq<u8>,
    last: Seq<Record>,
)
    requires
        in_turn(layout, at_tail, first, at_entry, log, at_commit, later, at_end, last),
        0 <= p < log.len(),
        seen.len() == log[p].data.len(),
        harmless(layout, log, p, seen, laid, last),
        !subscription_to(layout).overwritten(
            header_at(at_end).data_tail,
            start_of(log, p) as u64,
        ),
    ensures
        gathered(layout, seen, start_of(log, p) as int % layout.data_capacity as int)
            == log[p].data,
{
    reveal(in_turn);
    lemma_extends_transitive(last, later, log);
    lemma_rechecked_copy_is_message(layout, log, p, seen, laid, at_end, last);
}

/// Reading beside a writer: each of the reader's loads may find the region at a later moment, with
/// more messages written, and the ring may change while it is copied from. If the reader hands
/// its copy on all the same, it asked for the bytes of the message at its position, and the copy
/// is that message. As in `lemma_rechecked_copy_is_message`, bytes that were laid when a byte
/// was copied and that are not counted yet after the copy must not reach the message.
pub proof fn lemma_delivered_copy_is_message(
    layout: ShmLayout,
    reader: ShmReader,
    at_tail: Seq<u8>,
    first: Seq<Record>,
    seq: i64,
    at_entry: Seq<u8>,
    log: Seq<Record>,
    accepted: bool,
    data_tail: u64,
    seen: Seq<Seq<u8>>,
    laid: Seq<Seq<u8>>,
    at_commit: Seq<u8>,
    later: Seq<Record>,
    at_end: Seq<u8>,
    last: Seq<Record>,
)
    requires
        reader.phase is Tail,
        reader.sub == subscription_to(layout),
        in_turn(layout, at_tail, first, at_entry, log, at_commit, later, at_end, last),
        reader.next_pos < log.len() ==> log[reader.next_pos as int].data.len() <= u32::MAX,
        seen.len() == get_u32(at_entry, reader.sub.entry_off(reader.next_pos) + 16),
        harmless(layout, log, reader.next_pos as int, seen, laid, last),
        reading(
            reader,
            at_tail,
            seq,
            at_entry,
            accepted,
            data_tail,
            at_commit,
            at_end,
        ).1 is Send,
    ensures
        reader.next_pos < first.len(),
        ({
            let p = reader.next_pos as int;
            let offset = start_of(log, p) as int % layout.data_capacity as int;
            &&& reading(
                reader,
                at_tail,
                seq,
                at_entry,
                accepted,
                data_tail,
                at_commit,
                at_end,
            ).0 == ReadAction::Copy { ring_offset: offset as usize, len: log[p].data.len() as u32 }
            &&& gathered(layout, seen, offset) == log[p].data
        }),
{
    lemma_reading_sends(reader, at_tail, seq, at_entry, accepted, data_tail, at_commit, at_end);
    lemma_entry_between_loads(
        layout,
        reader.next_pos,
        at_tail,
        first,
        at_entry,
        log,
        at_commit,
        later,
        at_end,
        last,
    );
    lemma_copy_between_loads(
        layout,
        reader.next_pos as int,
        at_tail,
        first,
        at_entry,
        log,
        seen,
        laid,
        at_commit,
        later,
        at_end,
        last,
    );
}

/// A byte of message `p` is in a ring that holds the end of a longer stream, as long as that
/// reaches back to the message.
proof fn lemma_byte_seen(
    layout: ShmLayout,
    log: Seq<Record>,
    p: int,
    r: Seq<u8>,
    laid: Seq<u8>,
    i: int,
)
    requires
        0 <= p < log.len(),
        0 <= i < log[p].data.len(),
        layout.data_capacity > 0,
        layout.ring_holds(r, laid),
        stream(log).is_prefix_of(laid),
        laid.len() - start_of(log, p) <= layout.data_capacity,
    ensures
        layout.data_ring(r)[(start_of(log, p) as int % layout.data_capacity as int + i) % (
        layout.data_capacity as int)] == log[p].data[i],
{
    let start = start_of(log, p) as int;
    let cap = layout.data_capacity as int;
    lemma_message_in_stream(log, p);
    lemma_remainder_moves(start, i, cap);
    let d = start + i;
    assert(stream(log)[d] == stream(log).subrange(start, start + log[p].data.len())[i]);
    assert(laid[d] == laid.subrange(0, stream(log).len() as int)[d]);
    assert(layout.data_ring(r)[d % cap] == laid[d]);
}

/// While a message is staged, the ring holds the end of all messages and of this one.
pub proof fn lemma_staged_ring_holds(
    layout: ShmLayout,
    r0: Seq<u8>,
    r1: Seq<u8>,
    log: Seq<Record>,
    m: Record,
)
    requires
        layout.records(r0, log),
        stream(log).len() as int % layout.data_capacity as int + m.data.len() <= 2
            * layout.data_capacity,
        layout.staged(r0, r1, log.len() as int, stream(log).len() as int, m),
    ensures
        layout.ring_holds(r1, stream(log) + m.data),
{
    assert(layout.idx_capacity * layout.entry_size >= 0) by (nonlinear_arith);
    lemma_data_kept(layout, r0, r1, stream(log), m.data);
}

} // verus!
