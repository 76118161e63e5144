//! How a region is planned, initialized, opened and read, told by what the functions are called
//! with, what they answer and the bytes of the region.
use vstd::arithmetic::power2::pow2;
use vstd::prelude::*;

use crate::bytes::get_i64;
use crate::bytes::get_u16;
use crate::bytes::get_u32;
use crate::bytes::get_u64;
use crate::bytes::lemma_signed_injective;
use crate::capacity::is_power_of_two;
use crate::capacity::lemma_mask_is_remainder;
use crate::capacity::lemma_power_at_least;
use crate::capacity::next_power_of_two;
use crate::capacity::power_at_least;
use crate::journal::lemma_remainder_moves;
use crate::layout::LayoutError;
use crate::layout::ShmHeader;
use crate::layout::ShmIndexEntry;
use crate::layout::ShmIndexEntryV2;
use crate::layout::ShmLayout;
use crate::layout::MAGIC;
use crate::pre_filter::ShmEntryMeta;
use crate::pre_filter::ShmPreFilter;
use crate::reader::Found;
use crate::reader::IdleBackoff;
use crate::reader::IdleWait;
use crate::reader::ReadAction;
use crate::reader::ReadEvent;
use crate::reader::ReadPhase;
use crate::reader::ReadResult;
use crate::reader::ShmConnectError;
use crate::reader::ShmReader;
use crate::reader::ShmReceiveError;
use crate::reader::ShmSubscription;
use crate::ring::copy_from_ring;
use crate::ring::copy_to_ring;
use crate::ring::lemma_wrapped;
use crate::writer_laws::lemma_layout_numbers;
use crate::writer_laws::reads_layout;

verus! {

// --- Capacities ---

/// The next power of two is a power of two, not below the number, and the first such.
pub proof fn lemma_next_power_of_two(n: usize, r: usize)
    requires
        call_ensures(next_power_of_two, (n,), r),
    ensures
        exists|k: nat| r == #[trigger] pow2(k),
        n <= r,
        forall|k: nat| n <= #[trigger] pow2(k) ==> r <= pow2(k),
{
    lemma_power_at_least(n as nat);
    assert forall|k: nat| n <= #[trigger] pow2(k) implies r <= pow2(k) by {
        assert(is_power_of_two(pow2(k) as int));
    }
}

/// A planned region has room for what was asked for, and no more than rounding up to powers of two
/// takes: both capacities are the first powers of two that are not below what was asked for. The
/// entries are of 128 bytes from version 2 on, and of 32 bytes before, and all of it fits the
/// address space.
pub proof fn lemma_plan_rounds_up(
    max_messages: usize,
    max_bytes: usize,
    version: u64,
    layout: ShmLayout,
)
    requires
        call_ensures(ShmLayout::plan, (max_messages, max_bytes, version), Ok(layout)),
    ensures
        layout.version == version,
        layout.entry_size == if version >= 2 {
            128usize
        } else {
            32usize
        },
        exists|k: nat| layout.idx_capacity == #[trigger] pow2(k),
        exists|k: nat| layout.data_capacity == #[trigger] pow2(k),
        max_messages <= layout.idx_capacity,
        max_bytes <= layout.data_capacity,
        forall|k: nat| max_messages <= #[trigger] pow2(k) ==> layout.idx_capacity <= pow2(k),
        forall|k: nat| max_bytes <= #[trigger] pow2(k) ==> layout.data_capacity <= pow2(k),
        64 + layout.idx_capacity * layout.entry_size + layout.data_capacity <= usize::MAX,
{
    lemma_power_at_least(max_messages as nat);
    lemma_power_at_least(max_bytes as nat);
    let idx = power_at_least(max_messages as nat) as int;
    let es = layout.entry_size as int;
    assert(idx * es >= idx) by (nonlinear_arith)
        requires
            idx >= 0,
            es >= 1,
    ;
    assert(layout.wf());
    assert forall|k: nat| max_messages <= #[trigger] pow2(
        k,
    ) implies layout.idx_capacity <= pow2(k) by {
        assert(is_power_of_two(pow2(k) as int));
    }
    assert forall|k: nat| max_bytes <= #[trigger] pow2(k) implies layout.data_capacity <= pow2(
        k,
    ) by {
        assert(is_power_of_two(pow2(k) as int));
    }
}

/// A plan is refused only where no region will do: whatever powers of two are not below what was
/// asked for, the region does not fit the address space.
pub proof fn lemma_plan_refuses_only_what_does_not_fit(
    max_messages: usize,
    max_bytes: usize,
    version: u64,
    error: LayoutError,
    i: nat,
    d: nat,
)
    requires
        call_ensures(ShmLayout::plan, (max_messages, max_bytes, version), Err(error)),
        max_messages <= pow2(i),
        max_bytes <= pow2(d),
    ensures
        64 + pow2(i) * (if version >= 2 {
            128int
        } else {
            32int
        }) + pow2(d) > usize::MAX,
{
    let es: int = if version >= 2 {
        128
    } else {
        32
    };
    lemma_power_at_least(max_messages as nat);
    lemma_power_at_least(max_bytes as nat);
    assert(is_power_of_two(pow2(i) as int) && is_power_of_two(pow2(d) as int));
    let idx = power_at_least(max_messages as nat) as int;
    let p = pow2(i) as int;
    assert(idx * es <= p * es) by (nonlinear_arith)
        requires
            idx <= p,
            es >= 0,
    ;
    assert(p * es >= p) by (nonlinear_arith)
        requires
            p >= 0,
            es >= 1,
    ;
    vstd::arithmetic::power2::lemma2_to64();
    vstd::arithmetic::power2::lemma2_to64_rest();
    if max_messages > usize::MAX / 2 + 1 {
        lemma_above_half(i, max_messages as int);
    }
    if max_bytes > usize::MAX / 2 + 1 {
        lemma_above_half(d, max_bytes as int);
    }
}

/// Why a plan is refused: because a capacity has no power of two that fits; or because the entries
/// alone do not fit, however few there are; or, where the entries do, because of all together.
pub proof fn lemma_plan_says_why(
    max_messages: usize,
    max_bytes: usize,
    version: u64,
    error: LayoutError,
    i: nat,
)
    requires
        call_ensures(ShmLayout::plan, (max_messages, max_bytes, version), Err(error)),
    ensures
        error is Capacity <==> max_messages > usize::MAX / 2 + 1 || max_bytes > usize::MAX / 2 + 1,
        error is IndexRegion && max_messages <= pow2(i) ==> pow2(i) * (if version >= 2 {
            128int
        } else {
            32int
        }) > usize::MAX,
        error is Total ==> exists|k: nat|
            max_messages <= #[trigger] pow2(k) && pow2(k) * (if version >= 2 {
                128int
            } else {
                32int
            }) <= usize::MAX,
{
    let es: int = if version >= 2 {
        128
    } else {
        32
    };
    lemma_power_at_least(max_messages as nat);
    let idx = power_at_least(max_messages as nat) as int;
    let p = pow2(i) as int;
    if max_messages <= pow2(i) {
        assert(is_power_of_two(p));
        assert(idx * es <= p * es) by (nonlinear_arith)
            requires
                idx <= p,
                es >= 0,
        ;
    }
    let k = choose|k: nat| idx == #[trigger] pow2(k);
    assert(idx == pow2(k));
}

/// The first power of two above half the address space is beyond it.
proof fn lemma_above_half(k: nat, n: int)
    requires
        n <= pow2(k),
        usize::MAX / 2 + 1 < n,
    ensures
        pow2(k) > usize::MAX,
{
    let bits: nat = if usize::BITS == 64 {
        64
    } else {
        32
    };
    vstd::arithmetic::power2::lemma2_to64();
    vstd::arithmetic::power2::lemma2_to64_rest();
    if k < bits {
        if k < bits - 1 {
            vstd::arithmetic::power2::lemma_pow2_strictly_increases(k, (bits - 1) as nat);
        }
    } else if k > bits {
        vstd::arithmetic::power2::lemma_pow2_strictly_increases(bits, k);
    }
}

/// The places of a region: the entries follow the header of 64 bytes without gaps, and the data
/// ring follows the entries and ends the region.
pub proof fn lemma_places(
    layout: &ShmLayout,
    i: usize,
    entry: usize,
    base: usize,
    total: usize,
)
    requires
        call_ensures(ShmLayout::entry_offset, (layout, i), entry),
        call_ensures(ShmLayout::data_base_offset, (layout,), base),
        call_ensures(ShmLayout::total_size, (layout,), total),
    ensures
        entry == 64 + i * layout.entry_size,
        base == 64 + layout.idx_capacity * layout.entry_size,
        total == base + layout.data_capacity,
{
}

// --- Initializing ---

/// An initialized region says its sizes, counts nothing, is open, and has every entry empty: the
/// commit flag all ones, the rest zero. The data ring, and what lies behind it, is as it was.
pub proof fn lemma_init_makes_an_empty_region(layout: &ShmLayout, region: &mut [u8], i: int, j: int)
    requires
        call_ensures(ShmLayout::init_region, (layout, region), ()),
        layout.wf(),
        0 <= i < layout.idx_capacity,
        8 <= j < layout.entry_size,
    ensures
        get_u64(final(region)@, 0) == MAGIC,
        get_u64(final(region)@, 8) == layout.version,
        get_u64(final(region)@, 16) == layout.idx_capacity,
        get_u64(final(region)@, 24) == layout.data_capacity,
        get_u64(final(region)@, 32) == 0,
        get_u64(final(region)@, 40) == 0,
        get_u64(final(region)@, 48) == 0,
        get_u64(final(region)@, 56) == layout.entry_size,
        get_u64(final(region)@, 64 + i * layout.entry_size) == u64::MAX,
        final(region)@[64 + i * layout.entry_size + j] == 0,
        final(region)@.len() == old(region)@.len(),
        forall|k: int|
            64 + layout.idx_capacity * layout.entry_size <= k < old(region)@.len()
                ==> #[trigger] final(region)@[k] == old(region)@[k],
{
    let r = final(region)@;
    assert(layout.entry_empty(r, i));
    let off = layout.entry_off(i);
    lemma_signed_injective(get_u64(r, off), u64::MAX);
    assert(r[off + j] == 0);
}

/// An initialized region is opened by the reader of its version, which then knows its sizes; the
/// reader of the other version refuses it and names its version.
pub proof fn lemma_initialized_region_opens(
    layout: &ShmLayout,
    region: &mut [u8],
    ready: &[u8],
    v1: Result<ShmSubscription, ShmConnectError>,
    v2: Result<ShmSubscription, ShmConnectError>,
)
    requires
        call_ensures(ShmLayout::init_region, (layout, region), ()),
        layout.wf(),
        region.len() >= layout.total(),
        ready@ == final(region)@,
        call_ensures(ShmSubscription::open, (ready,), v1),
        call_ensures(ShmSubscription::open_v2, (ready,), v2),
    ensures
        layout.version == 1 ==> (v1 matches Ok(sub) && reads_layout(sub, *layout)),
        layout.version != 1 ==> v1 == Err::<ShmSubscription, ShmConnectError>(
            ShmConnectError::UnsupportedVersion(layout.version),
        ),
        layout.version == 2 ==> (v2 matches Ok(sub) && reads_layout(sub, *layout)),
        layout.version != 2 ==> v2 == Err::<ShmSubscription, ShmConnectError>(
            ShmConnectError::UnsupportedVersion(layout.version),
        ),
{
    assert(layout.idx_capacity * layout.entry_size == layout.entry_size * layout.idx_capacity)
        by (nonlinear_arith);
    assert(layout.idx_capacity * layout.entry_size >= 0) by (nonlinear_arith);
}

/// Opening looks at the size of the header, the magic number, the version and the size of the
/// region, in this order, and refuses with what it finds wrong first; a region that is right in
/// all four is opened with the sizes that its header says.
pub proof fn lemma_open_checks(region: &[u8], r: Result<ShmSubscription, ShmConnectError>)
    requires
        call_ensures(ShmSubscription::open, (region,), r),
    ensures
        region@.len() < 64 ==> r == Err::<ShmSubscription, ShmConnectError>(
            ShmConnectError::FileTooSmall,
        ),
        region@.len() >= 64 ==> opens_as(region@, 1, 32, r),
{
}

/// As for V1 regions, with version 2 and entries of 128 bytes.
pub proof fn lemma_open_v2_checks(region: &[u8], r: Result<ShmSubscription, ShmConnectError>)
    requires
        call_ensures(ShmSubscription::open_v2, (region,), r),
    ensures
        region@.len() < 64 ==> r == Err::<ShmSubscription, ShmConnectError>(
            ShmConnectError::FileTooSmall,
        ),
        region@.len() >= 64 ==> opens_as(region@, 2, 128, r),
{
}

/// What opening a region that has a header gives a reader of the version.
pub open spec fn opens_as(
    region: Seq<u8>,
    version: u64,
    entry_size: int,
    r: Result<ShmSubscription, ShmConnectError>,
) -> bool {
    let magic = get_u64(region, 0);
    let found = get_u64(region, 8);
    let idx_capacity = get_u64(region, 16);
    let data_capacity = get_u64(region, 24);
    let size = 64 + idx_capacity * entry_size + data_capacity;
    &&& magic != 0x52494348_41545348 ==> (r matches Err(ShmConnectError::InvalidMagic {
        expected,
        got,
    }) && got == magic && expected == 0x52494348_41545348)
    &&& magic == 0x52494348_41545348 && found != version ==> (r matches Err(
        ShmConnectError::UnsupportedVersion(v),
    ) && v == found)
    &&& magic == 0x52494348_41545348 && found == version && region.len() < size ==> (r matches Err(
        ShmConnectError::FileTooSmall,
    ))
    &&& magic == 0x52494348_41545348 && found == version && region.len() >= size ==> (r matches Ok(
        sub,
    ) && {
        &&& sub.idx_capacity == idx_capacity
        &&& sub.data_capacity == data_capacity
        &&& sub.index_base_offset == 64
        &&& sub.data_base_offset == 64 + idx_capacity * entry_size
        &&& sub.entry_size == entry_size
        &&& sub.idx_mask == idx_capacity - 1
    })
}

/// A region can be asked to be opened unless its header would have no entry, or sizes beyond the
/// address space.
pub proof fn lemma_can_open(region: &[u8], v1: bool, v2: bool)
    requires
        call_ensures(ShmSubscription::can_open, (region,), v1),
        call_ensures(ShmSubscription::can_open_v2, (region,), v2),
    ensures
        ({
            let ours = region@.len() >= 64 && get_u64(region@, 0) == 0x52494348_41545348;
            let idx = get_u64(region@, 16);
            let data = get_u64(region@, 24);
            &&& !v1 <==> ours && get_u64(region@, 8) == 1 && (idx == 0 || 64 + idx * 32 + data
                > usize::MAX)
            &&& !v2 <==> ours && get_u64(region@, 8) == 2 && (idx == 0 || 64 + idx * 128 + data
                > usize::MAX)
        }),
{
}

// --- Reading and storing the parts ---

/// A stored header is read back, each field has its place, and nothing behind it changes.
pub proof fn lemma_header_round_trip(
    header: &ShmHeader,
    region: &mut [u8],
    stored: &[u8],
    back: ShmHeader,
)
    requires
        call_ensures(ShmHeader::write_to, (header, region), ()),
        stored@ == final(region)@,
        call_ensures(ShmHeader::from_bytes, (stored,), back),
    ensures
        back == *header,
        get_u64(final(region)@, 0) == header.magic,
        get_u64(final(region)@, 8) == header.version,
        get_u64(final(region)@, 16) == header.idx_capacity,
        get_u64(final(region)@, 24) == header.data_capacity,
        get_u64(final(region)@, 32) == header.tail,
        get_u64(final(region)@, 40) == header.data_tail,
        get_u64(final(region)@, 48) == header.closed,
        get_u64(final(region)@, 56) == header.index_entry_size,
        final(region)@.len() == old(region)@.len(),
        forall|k: int|
            64 <= k < old(region)@.len() ==> #[trigger] final(region)@[k] == old(region)@[k],
{
}

/// A stored V1 entry is read back, each field has its place, and nothing outside its 32 bytes
/// changes.
pub proof fn lemma_entry_round_trip(
    entry: &ShmIndexEntry,
    region: &mut [u8],
    off: usize,
    stored: &[u8],
    back: ShmIndexEntry,
)
    requires
        call_ensures(ShmIndexEntry::write_to, (entry, region, off), ()),
        stored@ == final(region)@,
        call_ensures(ShmIndexEntry::from_bytes, (stored, off), back),
    ensures
        back == *entry,
        get_i64(final(region)@, off as int) == entry.seq,
        get_u64(final(region)@, off + 8) == entry.data_off,
        get_u32(final(region)@, off + 16) == entry.data_len,
        get_u32(final(region)@, off + 20) == entry._reserved,
        get_u64(final(region)@, off + 24) == entry.slot,
        final(region)@.len() == old(region)@.len(),
        forall|k: int|
            0 <= k < old(region)@.len() && !(off <= k < off + 32) ==> #[trigger] final(region)@[k]
                == old(region)@[k],
{
}

/// A stored V2 entry is read back, each field has its place, and nothing outside its 128 bytes
/// changes.
pub proof fn lemma_entry_v2_round_trip(
    entry: &ShmIndexEntryV2,
    region: &mut [u8],
    off: usize,
    stored: &[u8],
    back: ShmIndexEntryV2,
)
    requires
        call_ensures(ShmIndexEntryV2::write_to, (entry, region, off), ()),
        off + 128 <= region.len(),
        stored@ == final(region)@,
        call_ensures(ShmIndexEntryV2::from_bytes, (stored, off), back),
    ensures
        back.seq == entry.seq,
        back.data_off == entry.data_off,
        back.data_len == entry.data_len,
        back.msg_type == entry.msg_type,
        back.flags == entry.flags,
        back._pad0 == entry._pad0,
        back.slot == entry.slot,
        back.meta@ == entry.meta@,
        get_i64(final(region)@, off as int) == entry.seq,
        get_u64(final(region)@, off + 8) == entry.data_off,
        get_u32(final(region)@, off + 16) == entry.data_len,
        final(region)@[off + 20] == entry.msg_type,
        final(region)@[off + 21] == entry.flags,
        get_u16(final(region)@, off + 22) == entry._pad0,
        get_u64(final(region)@, off + 24) == entry.slot,
        forall|k: int| 0 <= k < 96 ==> final(region)@[off + 32 + k] == #[trigger] entry.meta@[k],
        final(region)@.len() == old(region)@.len(),
        forall|k: int|
            0 <= k < old(region)@.len() && !(off <= k < off + 128) ==> #[trigger] final(region)@[k]
                == old(region)@[k],
{
    let r = final(region)@;
    assert(crate::layout::entry_v2_at(r, off as int) == entry@);
    assert forall|k: int| 0 <= k < 96 implies r[off + 32 + k] == #[trigger] entry.meta@[k] by {
        assert(r.subrange(off + 32, off + 128)[k] == r[off + 32 + k]);
    }
}

/// Each field of a V2 entry's metadata has its place.
pub proof fn lemma_metadata_fields(
    entry: &ShmIndexEntryV2,
    pubkey: [u8; 32],
    owner: [u8; 32],
    lamports: u64,
    signature: [u8; 64],
    bloom: [u8; 32],
    parent: u64,
    index: u64,
    count: u64,
    i: int,
)
    requires
        call_ensures(ShmIndexEntryV2::account_pubkey, (entry,), pubkey),
        call_ensures(ShmIndexEntryV2::account_owner, (entry,), owner),
        call_ensures(ShmIndexEntryV2::account_lamports, (entry,), lamports),
        call_ensures(ShmIndexEntryV2::tx_signature, (entry,), signature),
        call_ensures(ShmIndexEntryV2::tx_account_bloom, (entry,), bloom),
        call_ensures(ShmIndexEntryV2::slot_parent, (entry,), parent),
        call_ensures(ShmIndexEntryV2::entry_index, (entry,), index),
        call_ensures(ShmIndexEntryV2::entry_exec_tx_count, (entry,), count),
    ensures
        0 <= i < 32 ==> pubkey@[i] == entry.meta@[i],
        0 <= i < 32 ==> owner@[i] == entry.meta@[32 + i],
        0 <= i < 32 ==> bloom@[i] == entry.meta@[64 + i],
        0 <= i < 64 ==> signature@[i] == entry.meta@[i],
        lamports == get_u64(entry.meta@, 64),
        parent == get_u64(entry.meta@, 0),
        index == get_u64(entry.meta@, 0),
        count == get_u64(entry.meta@, 8),
{
}

// --- Rings ---

/// What is laid into a ring is found again, byte by byte and going round its end, and only there:
/// the rest of the ring is as it was. Where the bytes go round more than once, the later ones
/// are found.
pub proof fn lemma_ring_gives_back(
    ring: &mut [u8],
    offset: usize,
    src: &[u8],
    laid: &[u8],
    dst: &mut [u8],
    i: int,
)
    requires
        call_ensures(copy_to_ring, (ring, offset, src), ()),
        offset < ring.len(),
        offset + src.len() <= 2 * ring.len(),
        laid@ == final(ring)@,
        call_ensures(copy_from_ring, (laid, offset, src.len(), dst), ()),
        src.len() <= dst.len(),
        0 <= i,
    ensures
        final(ring)@.len() == old(ring)@.len(),
        final(dst)@.len() == old(dst)@.len(),
        i < src.len() && src.len() - i <= old(ring)@.len() ==> final(ring)@[(offset + i) % old(
            ring,
        )@.len() as int] == src@[i],
        i < src.len() && src.len() <= old(ring)@.len() ==> final(dst)@[i] == src@[i],
        src.len() <= i < old(ring)@.len() ==> final(ring)@[(offset + i) % old(ring)@.len() as int]
            == old(ring)@[(offset + i) % old(ring)@.len() as int],
        src.len() <= i < old(dst)@.len() ==> final(dst)@[i] == old(dst)@[i],
{
    let n = old(ring)@.len() as int;
    if offset + i < 2 * n {
        lemma_wrapped(offset + i, n);
    }
}

/// Copying out of a ring gives the bytes from the offset on, going round its end, and leaves the
/// rest of the destination.
pub proof fn lemma_copy_from_ring(ring: &[u8], offset: usize, len: usize, dst: &mut [u8], i: int)
    requires
        call_ensures(copy_from_ring, (ring, offset, len, dst), ()),
        offset < ring.len(),
        offset + len <= 2 * ring.len(),
        len <= dst.len(),
        0 <= i < dst.len(),
    ensures
        final(dst)@.len() == old(dst)@.len(),
        i < len ==> final(dst)@[i] == ring@[(offset + i) % ring@.len() as int],
        i >= len ==> final(dst)@[i] == old(dst)@[i],
{
}

// --- Waiting ---

/// An idle reader spins first, each time twice as long, up to 64 times; then it yields four times;
/// then it sleeps for a microsecond at a time. The step counts the waits so far, up to eleven.
pub proof fn lemma_idle_waits(idle: &mut IdleBackoff, r: IdleWait)
    requires
        call_ensures(IdleBackoff::wait, (idle,), r),
    ensures
        old(idle).step < 7 <==> r is Spin,
        7 <= old(idle).step < 11 <==> r is Yield,
        old(idle).step >= 11 <==> r is SleepMicros,
        r matches IdleWait::SleepMicros(micros) ==> micros == 1,
        old(idle).step == 0 ==> r == IdleWait::Spin(1),
        old(idle).step == 6 ==> r == IdleWait::Spin(64),
        old(idle).step < 11 ==> final(idle).step == old(idle).step + 1,
        old(idle).step >= 11 ==> final(idle).step == old(idle).step,
{
    vstd::arithmetic::power2::lemma2_to64();
}

/// From one spin to the next the reader spins twice as long, and it never goes back from yielding
/// to spinning, nor from sleeping to either, unless it starts over.
pub proof fn lemma_idle_waits_grow(
    idle: &mut IdleBackoff,
    first: IdleWait,
    next: &mut IdleBackoff,
    second: IdleWait,
)
    requires
        call_ensures(IdleBackoff::wait, (idle,), first),
        *next == *final(idle),
        call_ensures(IdleBackoff::wait, (next,), second),
    ensures
        first matches IdleWait::Spin(a) ==> (second matches IdleWait::Spin(b) ==> b == 2 * a),
        first matches IdleWait::Spin(a) ==> (second is Spin <==> a < 64) && !(second is SleepMicros),
        first is Yield ==> !(second is Spin),
        first is SleepMicros ==> second == first,
{
    vstd::arithmetic::power2::lemma2_to64();
}

/// Starting over goes back to the first spin.
pub proof fn lemma_idle_starts_over(
    idle: &mut IdleBackoff,
    again: &mut IdleBackoff,
    fresh: IdleBackoff,
    first: &mut IdleBackoff,
    a: IdleWait,
    b: IdleWait,
)
    requires
        call_ensures(IdleBackoff::reset, (idle,), ()),
        *again == *final(idle),
        call_ensures(IdleBackoff::wait, (again,), a),
        call_ensures(IdleBackoff::new, (), fresh),
        *first == fresh,
        call_ensures(IdleBackoff::wait, (first,), b),
    ensures
        a == IdleWait::Spin(1),
        b == IdleWait::Spin(1),
{
    vstd::arithmetic::power2::lemma2_to64();
}

// --- Reading a region at rest ---

/// What a region holds for a reader, in terms of its bytes.
proof fn lemma_found_bytes(
    layout: ShmLayout,
    sub: ShmSubscription,
    r: Seq<u8>,
    pos: u64,
    filter: Option<ShmPreFilter>,
    entry_size: int,
)
    requires
        layout.wf(),
        reads_layout(sub, layout),
        entry_size == layout.entry_size,
        r.len() >= layout.total(),
    ensures
        ({
            let off = 64 + entry_size * (pos as int % layout.idx_capacity as int);
            let base = 64 + entry_size * layout.idx_capacity;
            let cap = layout.data_capacity as int;
            let data_off = get_u64(r, off + 8);
            let distance = get_u64(r, 40) - data_off;
            let found = sub.found(r, pos, filter);
            let committed = pos < get_u64(r, 32) && get_u64(r, off) == pos;
            &&& off + entry_size <= base
            &&& pos >= get_u64(r, 32) && get_u64(r, 48) != 0 ==> found == Found::End(
                ShmReceiveError::Closed,
            )
            &&& pos >= get_u64(r, 32) && get_u64(r, 48) == 0 ==> found is Nothing
            &&& pos < get_u64(r, 32) && get_u64(r, off) != pos ==> found == Found::End(
                ShmReceiveError::Lagged,
            )
            &&& committed && !crate::reader::wanted(filter, r, off) ==> found is Unwanted
            &&& committed && crate::reader::wanted(filter, r, off) && distance > cap ==> found
                == Found::End(ShmReceiveError::Lagged)
            &&& committed && crate::reader::wanted(filter, r, off) && distance < 0 && distance
                + 0x1_0000_0000_0000_0000 > cap ==> found == Found::End(ShmReceiveError::Lagged)
            &&& committed && crate::reader::wanted(filter, r, off) && 0 <= distance <= cap ==> (
            found matches Found::Message(data) && {
                &&& data.len() == get_u32(r, off + 16)
                &&& forall|i: int|
                    0 <= i < data.len() ==> #[trigger] data[i] == r[base + (data_off + i) % cap]
            })
        }),
{
    let off = 64 + entry_size * (pos as int % layout.idx_capacity as int);
    let cap = layout.data_capacity as int;
    lemma_mask_is_remainder(pos, layout.idx_capacity as u64);
    lemma_layout_numbers(layout, pos as int);
    assert(sub.entry_off(pos) == off) by {
        assert((pos & sub.idx_mask) * sub.entry_size == sub.entry_size * (pos & sub.idx_mask))
            by (nonlinear_arith);
    }
    lemma_signed_injective(get_u64(r, off), pos);
    let data_off = get_u64(r, off + 8);
    let distance = get_u64(r, 40) - data_off;
    if 0 <= distance {
        vstd::arithmetic::div_mod::lemma_small_mod(distance as nat, 0x1_0000_0000_0000_0000);
    } else {
        let whole: int = 0x1_0000_0000_0000_0000;
        vstd::arithmetic::div_mod::lemma_mod_add_multiples_vanish(distance, whole);
        vstd::arithmetic::div_mod::lemma_small_mod((distance + whole) as nat, whole as nat);
    }
    assert(sub.data_ring(r) =~= layout.data_ring(r));
    let ring = sub.data_ring(r);
    assert forall|i: int| 0 <= i implies #[trigger] ring[(data_off as int % cap + i) % cap]
        == r[layout.data_base() + (data_off + i) % cap] by {
        lemma_remainder_moves(data_off as int, i, cap);
        vstd::arithmetic::div_mod::lemma_mod_bound(data_off + i, cap);
    }
}

/// Reading at a position: past the tail there is nothing yet, or the end if the region is closed;
/// before it, the entry of the position must have the position as its commit flag and its bytes
/// must not be further back than the ring is long, or the reader lags; and then the message is
/// the bytes of the ring from where the entry says, as many as it says.
pub proof fn lemma_read_at_rest(
    layout: ShmLayout,
    reader: &mut ShmReader,
    region: &[u8],
    result: ReadResult,
    entry_size: int,
)
    requires
        call_ensures(ShmReader::try_read_next, (reader, region), result),
        layout.wf(),
        reads_layout(reader.sub, layout),
        entry_size == layout.entry_size,
        region@.len() >= layout.total(),
        reader.next_pos < u64::MAX,
    ensures
        read_as(
            region@,
            layout.idx_capacity as int,
            layout.data_capacity as int,
            entry_size,
            *old(reader),
            true,
            result,
            *final(reader),
        ),
{
    lemma_read_as(
        layout,
        region@,
        entry_size,
        None,
        *old(reader),
        true,
        result,
        *final(reader),
    );
}

/// Reading with a pre-filter: the same, but a committed message that the pre-filter does not take
/// is passed over, whether or not its bytes are still there.
pub proof fn lemma_filtered_read_at_rest(
    layout: ShmLayout,
    reader: &mut ShmReader,
    region: &[u8],
    filter: &ShmPreFilter,
    result: ReadResult,
    meta: &ShmEntryMeta,
    taken: bool,
)
    requires
        call_ensures(ShmReader::try_read_next_v2, (reader, region, filter), result),
        layout.wf(),
        layout.entry_size == 128,
        reads_layout(reader.sub, layout),
        region@.len() >= layout.total(),
        reader.next_pos < u64::MAX,
        ({
            let off = 64 + 128 * (reader.next_pos as int % layout.idx_capacity as int);
            &&& meta.msg_type == region@[off + 20]
            &&& meta.flags == region@[off + 21]
            &&& meta.meta@ == region@.subrange(off + 32, off + 128)
        }),
        call_ensures(ShmPreFilter::should_accept, (filter, meta), taken),
    ensures
        read_as(
            region@,
            layout.idx_capacity as int,
            layout.data_capacity as int,
            128,
            *old(reader),
            taken,
            result,
            *final(reader),
        ),
{
    lemma_read_as(
        layout,
        region@,
        128,
        Some(*filter),
        *old(reader),
        taken,
        result,
        *final(reader),
    );
}

/// What an attempt to read must give, in terms of the bytes of the region.
#[verifier::opaque]
pub open spec fn read_as(
    r: Seq<u8>,
    idx_capacity: int,
    data_capacity: int,
    entry_size: int,
    before: ShmReader,
    taken: bool,
    result: ReadResult,
    after: ShmReader,
) -> bool {
    let pos = before.next_pos;
    let off = 64 + entry_size * (pos as int % idx_capacity);
    let base = 64 + entry_size * idx_capacity;
    let tail = get_u64(r, 32);
    let closed = get_u64(r, 48);
    let committed = pos < tail && get_u64(r, off) == pos;
    let data_off = get_u64(r, off + 8);
    let distance = get_u64(r, 40) - data_off;
    &&& after.sub == before.sub
    &&& pos >= tail && closed != 0 ==> result == ReadResult::Failed(ShmReceiveError::Closed)
    &&& pos >= tail && closed == 0 ==> result is Empty && after.next_pos == pos && after.phase
        == before.phase
    &&& pos < tail && get_u64(r, off) != pos ==> result == ReadResult::Failed(
        ShmReceiveError::Lagged,
    )
    &&& committed && !taken ==> result is Skipped && after.next_pos == pos + 1
        && after.idle.step == 0 && after.phase is Tail
    &&& committed && taken && distance > data_capacity ==> result == ReadResult::Failed(
        ShmReceiveError::Lagged,
    )
    &&& committed && taken && distance < 0 && distance + 0x1_0000_0000_0000_0000 > data_capacity
        ==> result == ReadResult::Failed(ShmReceiveError::Lagged)
    &&& committed && taken && 0 <= distance <= data_capacity ==> (result matches ReadResult::Message(
        data,
    ) && {
        &&& data@.len() == get_u32(r, off + 16)
        &&& forall|i: int|
            0 <= i < data@.len() ==> #[trigger] data@[i] == r[base + (data_off + i)
                % data_capacity]
        &&& after.next_pos == pos + 1
        &&& after.idle.step == 0
        &&& after.phase is Tail
    })
    &&& result is Failed ==> after.phase is Done
}

proof fn lemma_read_as(
    layout: ShmLayout,
    r: Seq<u8>,
    entry_size: int,
    filter: Option<ShmPreFilter>,
    before: ShmReader,
    taken: bool,
    result: ReadResult,
    after: ShmReader,
)
    requires
        layout.wf(),
        reads_layout(before.sub, layout),
        entry_size == layout.entry_size,
        r.len() >= layout.total(),
        before.next_pos < u64::MAX,
        taken == crate::reader::wanted(
            filter,
            r,
            64 + entry_size * (before.next_pos as int % layout.idx_capacity as int),
        ),
        crate::reader::read_gives(
            before,
            after,
            result,
            before.sub.found(r, before.next_pos, filter),
        ),
    ensures
        read_as(
            r,
            layout.idx_capacity as int,
            layout.data_capacity as int,
            entry_size,
            before,
            taken,
            result,
            after,
        ),
{
    reveal(read_as);
    lemma_found_bytes(layout, before.sub, r, before.next_pos, filter, entry_size);
}

// --- The reader's steps ---

/// Every index entry that the reader asks for is that of its position.
pub proof fn lemma_reader_asks_for_its_entry(
    layout: ShmLayout,
    reader: &mut ShmReader,
    event: ReadEvent,
    action: ReadAction,
    entry_size: int,
)
    requires
        call_ensures(ShmReader::step, (reader, event), action),
        reader.wf(),
        reader.expects(event),
        layout.wf(),
        reads_layout(reader.sub, layout),
        entry_size == layout.entry_size,
    ensures
        action matches ReadAction::LoadCommit { entry_offset } ==> entry_offset == 64 + entry_size
            * (old(reader).next_pos as int % layout.idx_capacity as int),
        action matches ReadAction::ReadEntry { entry_offset } ==> entry_offset == 64 + entry_size
            * (old(reader).next_pos as int % layout.idx_capacity as int),
        action matches ReadAction::ReloadCommit { entry_offset } ==> entry_offset == 64
            + entry_size * (old(reader).next_pos as int % layout.idx_capacity as int),
{
    let pos = old(reader).next_pos;
    lemma_mask_is_remainder(pos, layout.idx_capacity as u64);
    lemma_layout_numbers(layout, pos as int);
    let sub = old(reader).sub;
    assert((pos & sub.idx_mask) * sub.entry_size == sub.entry_size * (pos & sub.idx_mask))
        by (nonlinear_arith);
}

/// The reader waits at the tail: it asks for the entry only if the tail is past its position, and
/// else whether the region is closed; if it is, reading ends, and if not it waits, and then looks
/// at the tail again, at the same position.
pub proof fn lemma_reader_waits_at_the_tail(
    reader: &mut ShmReader,
    event: ReadEvent,
    action: ReadAction,
)
    requires
        call_ensures(ShmReader::step, (reader, event), action),
        reader.wf(),
        reader.expects(event),
    ensures
        event matches ReadEvent::Tail(tail) ==> {
            &&& tail > old(reader).next_pos ==> action is LoadCommit
            &&& tail <= old(reader).next_pos ==> action is LoadClosed
        },
        event matches ReadEvent::Closed(closed) ==> {
            &&& closed != 0 ==> action == ReadAction::Fail(ShmReceiveError::Closed)
            &&& closed == 0 ==> action is Wait
        },
        event is Waited ==> action is LoadTail,
        event is Tail || event is Closed || event is Waited ==> final(reader).next_pos == old(
            reader,
        ).next_pos,
{
}

/// How the reader waits is how an idle backoff in its state waits, and it goes on as that one does.
pub proof fn lemma_reader_waits_adaptively(
    reader: &mut ShmReader,
    action: ReadAction,
    idle: &mut IdleBackoff,
    wait: IdleWait,
)
    requires
        call_ensures(ShmReader::step, (reader, ReadEvent::Closed(0)), action),
        reader.wf(),
        reader.expects(ReadEvent::Closed(0)),
        *idle == reader.idle,
        call_ensures(IdleBackoff::wait, (idle,), wait),
    ensures
        action == ReadAction::Wait(wait),
        final(reader).idle == *final(idle),
{
}

/// A read that finds nothing says to wait as an idle backoff in the reader's state waits.
pub proof fn lemma_empty_read_waits_adaptively(
    reader: &mut ShmReader,
    region: &[u8],
    result: ReadResult,
    idle: &mut IdleBackoff,
    wait: IdleWait,
)
    requires
        call_ensures(ShmReader::try_read_next, (reader, region), result),
        result is Empty,
        *idle == reader.idle,
        call_ensures(IdleBackoff::wait, (idle,), wait),
    ensures
        result == ReadResult::Empty(wait),
        final(reader).idle == *final(idle),
        final(reader).next_pos == old(reader).next_pos,
{
}

/// Where the entry of a position is, going round the index ring.
pub proof fn lemma_entry_places(
    layout: ShmLayout,
    sub: &ShmSubscription,
    pos: u64,
    r: usize,
    entry_size: int,
)
    requires
        call_ensures(ShmSubscription::entry_offset, (sub, pos), r),
        layout.wf(),
        reads_layout(*sub, layout),
        entry_size == layout.entry_size,
    ensures
        r as int == 64 + entry_size * (pos as int % layout.idx_capacity as int),
{
    lemma_mask_is_remainder(pos, layout.idx_capacity as u64);
    let slot = (pos & sub.idx_mask) as int;
    let es = sub.entry_size as int;
    assert(slot * es == es * slot) by (nonlinear_arith);
}

/// The reader goes by the commit flag: where it is not the position, before or after the copy, the
/// reader lags; where it is, the reader goes on, and only then.
pub proof fn lemma_reader_goes_by_the_commit_flag(
    reader: &mut ShmReader,
    seq: i64,
    action: ReadAction,
)
    requires
        call_ensures(ShmReader::step, (reader, ReadEvent::Commit(seq)), action),
        reader.wf(),
        reader.expects(ReadEvent::Commit(seq)),
    ensures
        seq as int % 0x1_0000_0000_0000_0000 == old(reader).next_pos ==> action is ReadEntry
            || action is ReloadDataTail,
        seq as int % 0x1_0000_0000_0000_0000 != old(reader).next_pos ==> action
            == ReadAction::Fail(ShmReceiveError::Lagged),
        old(reader).phase is Commit ==> !(action is ReloadDataTail),
        old(reader).phase is RecheckCommit ==> !(action is ReadEntry),
        final(reader).next_pos == old(reader).next_pos,
{
}

/// The reader goes by the byte count: where more bytes than the ring holds were written since the
/// message began, before or after the copy, the reader lags; where not, it copies the message from
/// its place in the ring, or hands the copy on.
pub proof fn lemma_reader_goes_by_the_byte_count(
    reader: &mut ShmReader,
    data_tail: u64,
    action: ReadAction,
    data_off: u64,
)
    requires
        call_ensures(ShmReader::step, (reader, ReadEvent::DataTail(data_tail)), action),
        reader.wf(),
        reader.expects(ReadEvent::DataTail(data_tail)),
        reader.sub.data_capacity > 0,
        (reader.phase matches ReadPhase::DataTail { data_off: d, .. } && d == data_off) || (
        reader.phase matches ReadPhase::RecheckDataTail { data_off: d } && d == data_off),
        data_off <= data_tail,
    ensures
        data_tail - data_off > old(reader).sub.data_capacity ==> action == ReadAction::Fail(
            ShmReceiveError::Lagged,
        ),
        data_tail - data_off <= old(reader).sub.data_capacity ==> match old(reader).phase {
            ReadPhase::DataTail { data_len, .. } => action matches ReadAction::Copy {
                ring_offset,
                len,
            } && len == data_len && ring_offset as int == data_off as int % old(
                reader,
            ).sub.data_capacity as int,
            _ => action is Send,
        },
        final(reader).next_pos == old(reader).next_pos,
{
    let distance = data_tail - data_off;
    vstd::arithmetic::div_mod::lemma_small_mod(distance as nat, 0x1_0000_0000_0000_0000);
    vstd::arithmetic::div_mod::lemma_mod_bound(
        data_off as int,
        old(reader).sub.data_capacity as int,
    );
    assert(old(reader).sub.data_capacity <= usize::MAX);
}

/// The reader goes on to the next position when the message was not wanted or was taken, and starts
/// its waiting over; it stops when the receiver is gone, and reads the data only of what is
/// wanted.
pub proof fn lemma_reader_goes_on(reader: &mut ShmReader, event: ReadEvent, action: ReadAction)
    requires
        call_ensures(ShmReader::step, (reader, event), action),
        reader.wf(),
        reader.expects(event),
    ensures
        event matches ReadEvent::Entry { data_off, data_len, accepted } ==> {
            &&& accepted ==> action is LoadDataTail && final(reader).next_pos == old(
                reader,
            ).next_pos && final(reader).phase == (ReadPhase::DataTail { data_off, data_len })
            &&& !accepted ==> action is LoadTail && final(reader).next_pos == old(reader).next_pos
                + 1 && final(reader).idle.step == 0
        },
        event is Copied ==> action is ReloadCommit,
        event == ReadEvent::Sent(true) ==> action is LoadTail && final(reader).next_pos == old(
            reader,
        ).next_pos + 1 && final(reader).idle.step == 0,
        event == ReadEvent::Sent(false) ==> action is Stop,
        final(reader).sub == old(reader).sub,
{
}

/// The byte count that a message is checked against stays that of its own entry through all steps.
pub proof fn lemma_reader_keeps_the_place(
    reader: &mut ShmReader,
    event: ReadEvent,
    action: ReadAction,
    data_off: u64,
)
    requires
        call_ensures(ShmReader::step, (reader, event), action),
        reader.wf(),
        reader.expects(event),
        (reader.phase matches ReadPhase::DataTail { data_off: d, .. } && d == data_off) || (
        reader.phase matches ReadPhase::Copy { data_off: d } && d == data_off) || (
        reader.phase matches ReadPhase::RecheckCommit { data_off: d } && d == data_off),
    ensures
        final(reader).phase matches ReadPhase::Copy { data_off: d } ==> d == data_off,
        final(reader).phase matches ReadPhase::RecheckCommit { data_off: d } ==> d == data_off,
        final(reader).phase matches ReadPhase::RecheckDataTail { data_off: d } ==> d == data_off,
        action is Fail || final(reader).phase is Copy || final(reader).phase is RecheckCommit
            || final(reader).phase is RecheckDataTail,
{
}

/// After each step the reader takes whatever comes of what it asked for.
pub proof fn lemma_reader_takes_what_comes(
    reader: &mut ShmReader,
    event: ReadEvent,
    action: ReadAction,
    count: u64,
    seq: i64,
    data_len: u32,
    accepted: bool,
)
    requires
        call_ensures(ShmReader::step, (reader, event), action),
        reader.wf(),
        reader.expects(event),
        reader.asks_to_copy(event) ==> reader.sub.data_capacity > 0,
    ensures
        final(reader).wf(),
        action is LoadTail ==> final(reader).expects(ReadEvent::Tail(count)),
        action is LoadClosed ==> final(reader).expects(ReadEvent::Closed(count)),
        action is Wait ==> final(reader).expects(ReadEvent::Waited),
        action is LoadCommit || action is ReloadCommit ==> final(reader).expects(
            ReadEvent::Commit(seq),
        ),
        action is ReadEntry ==> final(reader).expects(
            (ReadEvent::Entry { data_off: count, data_len, accepted }),
        ),
        action is LoadDataTail || action is ReloadDataTail ==> final(reader).expects(
            ReadEvent::DataTail(count),
        ),
        action is Copy ==> final(reader).expects(ReadEvent::Copied),
        action is Send ==> final(reader).expects(ReadEvent::Sent(accepted)),
{
}

/// A message can be copied out of a ring that is there if it goes round it less than twice.
pub proof fn lemma_copyable(
    layout: ShmLayout,
    sub: ShmSubscription,
    r: Seq<u8>,
    pos: u64,
    filter: Option<ShmPreFilter>,
    entry_size: int,
)
    requires
        layout.wf(),
        reads_layout(sub, layout),
        entry_size == layout.entry_size,
        ({
            let off = 64 + entry_size * (pos as int % layout.idx_capacity as int);
            get_u64(r, off + 8) as int % layout.data_capacity as int + get_u32(r, off + 16) <= 2
                * layout.data_capacity
        }),
    ensures
        sub.copyable(r, pos, filter),
{
    lemma_mask_is_remainder(pos, layout.idx_capacity as u64);
    let slot = (pos & sub.idx_mask) as int;
    let es = sub.entry_size as int;
    assert(slot * es == es * slot) by (nonlinear_arith);
}

/// A new reader starts at the tail that it is given.
pub proof fn lemma_reader_starts_at_the_tail(sub: ShmSubscription, tail: u64, reader: ShmReader)
    requires
        call_ensures(ShmReader::new, (sub, tail), reader),
    ensures
        reader.sub == sub,
        reader.next_pos == tail,
        reader.phase is Tail,
        reader.idle.step == 0,
        forall|t: u64| #[trigger] reader.expects(ReadEvent::Tail(t)),
{
}

/// The reader says ahead whether it would copy: exactly if the next step asks for a copy.
pub proof fn lemma_reader_says_when_it_copies(
    reader: &mut ShmReader,
    event: ReadEvent,
    says: bool,
    action: ReadAction,
)
    requires
        call_ensures(ShmReader::would_copy, (&*reader, &event), says),
        call_ensures(ShmReader::step, (reader, event), action),
        reader.wf(),
        reader.expects(event),
    ensures
        says <==> action is Copy,
{
}

} // verus!
