//! The reader: it follows the writer position by position and notices when it was overtaken.
//!
//! What is read from a shared region may change at any moment, so the reader is a state machine:
//! it says which value to load next and is told what was found. `try_read_next` runs it on a
//! region that nobody writes to meanwhile.
use vstd::prelude::*;

use crate::bytes::get_i64;
use crate::bytes::get_u32;
use crate::bytes::get_u64;
use crate::bytes::read_i64;
use crate::bytes::read_u32;
use crate::bytes::read_u64;
use crate::bytes::signed;
use crate::bytes::to_signed;
use crate::capacity::lemma_mask_bounds;
use crate::layout::header_at;
use crate::layout::ShmHeader;
use crate::layout::CLOSED_OFFSET;
use crate::layout::DATA_TAIL_OFFSET;
use crate::layout::HEADER_SIZE;
use crate::layout::INDEX_ENTRY_SIZE;
use crate::layout::INDEX_ENTRY_SIZE_V2;
use crate::layout::MAGIC;
use crate::layout::TAIL_OFFSET;
use crate::layout::VERSION;
use crate::layout::VERSION_V2;
use crate::layout::to_array;
use crate::pre_filter::ShmEntryMeta;
use crate::pre_filter::ShmPreFilter;
use crate::ring::copy_from_ring;
use crate::ring::ring_read;

verus! {

/// Why a region cannot be read.
#[derive(Debug, Clone, Copy, PartialEq, Eq, Structural)]
pub enum ShmConnectError {
    InvalidMagic { expected: u64, got: u64 },
    UnsupportedVersion(u64),
    FileTooSmall,
}

/// Why reading ended.
#[derive(Debug, Clone, Copy, PartialEq, Eq, Structural)]
pub enum ShmReceiveError {
    /// The reader lagged behind the writer
    Lagged,
    /// The writer closed
    Closed,
}

/// What a reader knows of the region it reads.
#[derive(Debug, Clone, Copy, PartialEq, Eq, Structural)]
pub struct ShmSubscription {
    pub idx_capacity: u64,
    pub idx_mask: u64,
    pub data_capacity: u64,
    pub index_base_offset: usize,
    pub data_base_offset: usize,
    pub entry_size: usize,
}

/// The size that a region with this header must have.
pub open spec fn expected_size(header: ShmHeader, entry_size: usize) -> int {
    HEADER_SIZE + header.idx_capacity * entry_size + header.data_capacity
}

/// What opening region `r` gives a reader of the given version.
pub open spec fn open_error(r: Seq<u8>, version: u64, entry_size: usize) -> Option<
    ShmConnectError,
> {
    let header = header_at(r);
    if r.len() < HEADER_SIZE {
        Some(ShmConnectError::FileTooSmall)
    } else if header.magic != MAGIC {
        Some(ShmConnectError::InvalidMagic { expected: MAGIC, got: header.magic })
    } else if header.version != version {
        Some(ShmConnectError::UnsupportedVersion(header.version))
    } else if r.len() < expected_size(header, entry_size) {
        Some(ShmConnectError::FileTooSmall)
    } else {
        None
    }
}

/// The sizes in the header of `r` can be computed with: there is an index slot, and the region
/// that the header describes fits the address space.
pub open spec fn computable(r: Seq<u8>, version: u64, entry_size: usize) -> bool {
    let header = header_at(r);
    r.len() >= HEADER_SIZE && header.magic == MAGIC && header.version == version ==> {
        &&& header.idx_capacity >= 1
        &&& expected_size(header, entry_size) <= usize::MAX
    }
}

impl ShmSubscription {
    pub open spec fn wf(self) -> bool {
        &&& self.idx_capacity >= 1
        &&& self.idx_mask == self.idx_capacity - 1
        &&& self.entry_size == INDEX_ENTRY_SIZE || self.entry_size == INDEX_ENTRY_SIZE_V2
        &&& self.index_base_offset == HEADER_SIZE
        &&& self.data_base_offset == HEADER_SIZE + self.idx_capacity * self.entry_size
        &&& self.data_base_offset + self.data_capacity <= usize::MAX
    }

    /// The size of the region.
    pub open spec fn size(self) -> int {
        self.data_base_offset + self.data_capacity
    }

    /// Where the index entry for position `pos` starts.
    pub open spec fn entry_off(self, pos: u64) -> int {
        self.index_base_offset + (pos & self.idx_mask) * self.entry_size
    }

    /// The data ring of region `r`.
    pub open spec fn data_ring(self, r: Seq<u8>) -> Seq<u8> {
        r.subrange(self.data_base_offset as int, self.size())
    }

    /// The message bytes from `data_off` on were written over: more than a ring's worth of
    /// bytes follow them. The distance is taken modulo 2^64.
    pub open spec fn overwritten(self, data_tail: u64, data_off: u64) -> bool {
        (data_tail - data_off) % 0x1_0000_0000_0000_0000 > self.data_capacity
    }

    /// The subscription to a region with this header.
    pub open spec fn of_header(header: ShmHeader, entry_size: usize) -> ShmSubscription {
        ShmSubscription {
            idx_capacity: header.idx_capacity,
            idx_mask: (header.idx_capacity - 1) as u64,
            data_capacity: header.data_capacity,
            index_base_offset: HEADER_SIZE,
            data_base_offset: (HEADER_SIZE + header.idx_capacity * entry_size) as usize,
            entry_size,
        }
    }

    fn open_version(region: &[u8], version: u64, entry_size: usize) -> (r: Result<
        Self,
        ShmConnectError,
    >)
        requires
            entry_size == INDEX_ENTRY_SIZE || entry_size == INDEX_ENTRY_SIZE_V2,
            computable(region@, version, entry_size),
        ensures
            match open_error(region@, version, entry_size) {
                Some(error) => r == Err::<Self, ShmConnectError>(error),
                None => {
                    &&& r == Ok::<Self, ShmConnectError>(
                        Self::of_header(header_at(region@), entry_size),
                    )
                    &&& r->Ok_0.wf()
                    &&& r->Ok_0.size() <= region.len()
                },
            },
    {
        if region.len() < HEADER_SIZE {
            return Err(ShmConnectError::FileTooSmall);
        }
        // Validate header
        let header = ShmHeader::from_bytes(region);
        if header.magic != MAGIC {
            return Err(ShmConnectError::InvalidMagic { expected: MAGIC, got: header.magic });
        }
        if header.version != version {
            return Err(ShmConnectError::UnsupportedVersion(header.version));
        }
        let idx_capacity: u64 = header.idx_capacity;
        let data_capacity: u64 = header.data_capacity;
        assert(idx_capacity * entry_size >= idx_capacity) by (nonlinear_arith)
            requires
                idx_capacity >= 1,
                entry_size >= 32,
        ;
        let data_base_offset: usize = HEADER_SIZE + (idx_capacity as usize) * entry_size;
        let expected: usize = data_base_offset + data_capacity as usize;
        if region.len() < expected {
            return Err(ShmConnectError::FileTooSmall);
        }
        Ok(
            ShmSubscription {
                idx_capacity,
                idx_mask: idx_capacity - 1,
                data_capacity,
                index_base_offset: HEADER_SIZE,
                data_base_offset,
                entry_size,
            },
        )
    }

    fn check_computable(region: &[u8], version: u64, entry_size: usize) -> (r: bool)
        requires
            entry_size == INDEX_ENTRY_SIZE || entry_size == INDEX_ENTRY_SIZE_V2,
        ensures
            r == computable(region@, version, entry_size),
    {
        if region.len() < HEADER_SIZE {
            return true;
        }
        let header = ShmHeader::from_bytes(region);
        if header.magic != MAGIC || header.version != version {
            return true;
        }
        let ghost idx = header.idx_capacity as int;
        assert(0 <= idx * entry_size <= 0x1_0000_0000_0000_0000 * 128) by (nonlinear_arith)
            requires
                0 <= idx < 0x1_0000_0000_0000_0000,
                0 <= entry_size <= 128,
        ;
        let expected: u128 = HEADER_SIZE as u128 + (header.idx_capacity as u128) * (
        entry_size as u128) + header.data_capacity as u128;
        header.idx_capacity >= 1 && expected <= usize::MAX as u128
    }

    /// Opens a V1 region for reading. A region of any other version is refused.
    pub fn open(region: &[u8]) -> (r: Result<Self, ShmConnectError>)
        requires
            computable(region@, VERSION, INDEX_ENTRY_SIZE),
        ensures
            match open_error(region@, VERSION, INDEX_ENTRY_SIZE) {
                Some(error) => r == Err::<Self, ShmConnectError>(error),
                None => {
                    &&& r == Ok::<Self, ShmConnectError>(
                        Self::of_header(header_at(region@), INDEX_ENTRY_SIZE),
                    )
                    &&& r->Ok_0.wf()
                    &&& r->Ok_0.size() <= region.len()
                },
            },
    {
        Self::open_version(region, VERSION, INDEX_ENTRY_SIZE)
    }

    /// Opens a V2 region for reading. A region of any other version is refused.
    pub fn open_v2(region: &[u8]) -> (r: Result<Self, ShmConnectError>)
        requires
            computable(region@, VERSION_V2, INDEX_ENTRY_SIZE_V2),
        ensures
            match open_error(region@, VERSION_V2, INDEX_ENTRY_SIZE_V2) {
                Some(error) => r == Err::<Self, ShmConnectError>(error),
                None => {
                    &&& r == Ok::<Self, ShmConnectError>(
                        Self::of_header(header_at(region@), INDEX_ENTRY_SIZE_V2),
                    )
                    &&& r->Ok_0.wf()
                    &&& r->Ok_0.size() <= region.len()
                },
            },
    {
        Self::open_version(region, VERSION_V2, INDEX_ENTRY_SIZE_V2)
    }

    /// Whether `open` can be asked of the region: the sizes in its header can be computed with.
    pub fn can_open(region: &[u8]) -> (r: bool)
        ensures
            r == computable(region@, VERSION, INDEX_ENTRY_SIZE),
    {
        Self::check_computable(region, VERSION, INDEX_ENTRY_SIZE)
    }

    /// Whether `open_v2` can be asked of the region.
    pub fn can_open_v2(region: &[u8]) -> (r: bool)
        ensures
            r == computable(region@, VERSION_V2, INDEX_ENTRY_SIZE_V2),
    {
        Self::check_computable(region, VERSION_V2, INDEX_ENTRY_SIZE_V2)
    }

    /// An entry lies between the header and the data ring.
    pub proof fn lemma_entry_inside(self, pos: u64)
        requires
            self.wf(),
        ensures
            HEADER_SIZE <= self.entry_off(pos),
            self.entry_off(pos) + self.entry_size <= self.data_base_offset,
    {
        lemma_mask_bounds(pos, self.idx_mask);
        let slot = (pos & self.idx_mask) as int;
        let n = self.idx_capacity as int;
        let es = self.entry_size as int;
        assert(0 <= slot * es && slot * es + es <= n * es) by (nonlinear_arith)
            requires
                0 <= slot < n,
                es >= 0,
        ;
    }

    /// Where the index entry for position `pos` starts.
    pub fn entry_offset(&self, pos: u64) -> (r: usize)
        requires
            self.wf(),
        ensures
            r == self.entry_off(pos),
    {
        proof {
            self.lemma_entry_inside(pos);
            lemma_mask_bounds(pos, self.idx_mask);
            assert(self.idx_capacity * self.entry_size >= self.idx_capacity) by (nonlinear_arith)
                requires
                    self.entry_size >= 1,
            ;
        }
        let slot: usize = (pos & self.idx_mask) as usize;
        assert(slot * self.entry_size >= 0) by (nonlinear_arith);
        self.index_base_offset + slot * self.entry_size
    }

    /// Whether the message bytes from `data_off` on were written over.
    fn is_overwritten(&self, data_tail: u64, data_off: u64) -> (r: bool)
        ensures
            r == self.overwritten(data_tail, data_off),
    {
        let distance: u64 = data_tail.wrapping_sub(data_off);
        assert(distance == (data_tail - data_off) % 0x1_0000_0000_0000_0000);
        distance > self.data_capacity
    }
}

// --- Waiting for data ---

/// How to wait when there is nothing to read.
#[derive(Debug, Clone, Copy, PartialEq, Eq, Structural)]
pub enum IdleWait {
    /// That many spin-loop hints
    Spin(u32),
    /// Let other threads run
    Yield,
    /// Sleep that many microseconds
    SleepMicros(u64),
}

/// Adaptive backoff of an idle reader: it spins, then yields, then sleeps.
#[derive(Debug, Clone, Copy, PartialEq, Eq, Structural)]
pub struct IdleBackoff {
    pub step: u32,
}

/// How the wait at each step is made: steps 0 to 6 spin 1, 2, 4, .. 64 times, steps 7 to 10
/// yield, from step 11 on the reader sleeps for one microsecond.
pub open spec fn idle_wait(step: u32) -> IdleWait {
    if step <= 6 {
        IdleWait::Spin(vstd::arithmetic::power2::pow2(step as nat) as u32)
    } else if step <= 10 {
        IdleWait::Yield
    } else {
        IdleWait::SleepMicros(1)
    }
}

/// The step after `step`; the last one repeats.
pub open spec fn next_idle_step(step: u32) -> u32 {
    if step < 11 {
        (step + 1) as u32
    } else {
        step
    }
}

impl IdleBackoff {
    pub fn new() -> (r: Self)
        ensures
            r.step == 0,
    {
        IdleBackoff { step: 0 }
    }

    /// How to wait now; the next wait is one step further.
    pub fn wait(&mut self) -> (r: IdleWait)
        ensures
            r == idle_wait(old(self).step),
            final(self).step == next_idle_step(old(self).step),
    {
        let step: u32 = self.step;
        if step < 11 {
            self.step = step + 1;
        }
        if step <= 6 {
            proof {
                vstd::arithmetic::power2::lemma2_to64();
            }
            let spins: u32 = if step == 0 {
                1
            } else if step == 1 {
                2
            } else if step == 2 {
                4
            } else if step == 3 {
                8
            } else if step == 4 {
                16
            } else if step == 5 {
                32
            } else {
                64
            };
            IdleWait::Spin(spins)
        } else if step <= 10 {
            IdleWait::Yield
        } else {
            IdleWait::SleepMicros(1)
        }
    }

    /// Starts over, after data was read.
    pub fn reset(&mut self)
        ensures
            final(self).step == 0,
    {
        self.step = 0;
    }
}

// --- Reading ---

/// What the reader is waiting to be told.
#[derive(Debug, Clone, Copy, PartialEq, Eq, Structural)]
pub enum ReadPhase {
    /// How many messages were written
    Tail,
    /// Whether the writer has shut down
    Closed,
    /// That it has waited
    Wait,
    /// The commit flag of the next entry
    Commit,
    /// What the next entry says
    Entry,
    /// How many bytes were written
    DataTail { data_off: u64, data_len: u32 },
    /// That the data was copied
    Copy { data_off: u64 },
    /// The commit flag after the copy
    RecheckCommit { data_off: u64 },
    /// How many bytes were written by the end of the copy
    RecheckDataTail { data_off: u64 },
    /// Whether the message was taken
    Send,
    /// Nothing: it is done
    Done,
}

/// What the reader is told.
#[derive(Debug, Clone, Copy, PartialEq, Eq, Structural)]
pub enum ReadEvent {
    /// The header's `tail`
    Tail(u64),
    /// The header's `closed`
    Closed(u64),
    /// The wait is over
    Waited,
    /// An entry's commit flag
    Commit(i64),
    /// Where the data of the entry is, and whether the message is wanted
    Entry { data_off: u64, data_len: u32, accepted: bool },
    /// The header's `data_tail`
    DataTail(u64),
    /// The data was copied
    Copied,
    /// The receiver took the message, or is gone
    Sent(bool),
}

/// What the reader asks for.
#[derive(Debug, Clone, Copy, PartialEq, Eq, Structural)]
pub enum ReadAction {
    /// Load the header's `tail`
    LoadTail,
    /// Load the header's `closed`
    LoadClosed,
    /// Wait
    Wait(IdleWait),
    /// Load the commit flag of the entry that starts there
    LoadCommit { entry_offset: usize },
    /// Read the entry that starts there
    ReadEntry { entry_offset: usize },
    /// Load the header's `data_tail`
    LoadDataTail,
    /// Copy that many bytes from that offset of the data ring
    Copy { ring_offset: usize, len: u32 },
    /// Load the commit flag again, after the copy
    ReloadCommit { entry_offset: usize },
    /// Load the header's `data_tail` again, after the copy
    ReloadDataTail,
    /// Hand the copied bytes to the receiver
    Send,
    /// Tell the receiver why reading ends, and end
    Fail(ShmReceiveError),
    /// End
    Stop,
}

/// A reader's place in the region.
#[derive(Debug, Clone, Copy, PartialEq, Eq, Structural)]
pub struct ShmReader {
    pub sub: ShmSubscription,
    pub next_pos: u64,
    pub phase: ReadPhase,
    pub idle: IdleBackoff,
}

impl ShmReader {
    /// The region can be read from, and once a message was seen to be there, its position is
    /// not the last one that a counter can hold.
    pub open spec fn wf(self) -> bool {
        &&& self.sub.wf()
        &&& match self.phase {
            ReadPhase::Tail | ReadPhase::Closed | ReadPhase::Wait | ReadPhase::Done => true,
            _ => self.next_pos < u64::MAX,
        }
    }

    /// The event is one that the reader waits for.
    pub open spec fn expects(self, event: ReadEvent) -> bool {
        match self.phase {
            ReadPhase::Tail => event is Tail,
            ReadPhase::Closed => event is Closed,
            ReadPhase::Wait => event is Waited,
            ReadPhase::Commit => event is Commit,
            ReadPhase::Entry => event is Entry,
            ReadPhase::DataTail { .. } => event is DataTail,
            ReadPhase::Copy { .. } => event is Copied,
            ReadPhase::RecheckCommit { .. } => event is Commit,
            ReadPhase::RecheckDataTail { .. } => event is DataTail,
            ReadPhase::Send => event is Sent,
            ReadPhase::Done => false,
        }
    }

    /// The reader answers `event` by asking for a copy out of the data ring.
    pub open spec fn asks_to_copy(self, event: ReadEvent) -> bool {
        match (self.phase, event) {
            (
                ReadPhase::DataTail { data_off, .. },
                ReadEvent::DataTail(data_tail),
            ) => !self.sub.overwritten(data_tail, data_off),
            _ => false,
        }
    }

    /// The reader goes on to wait for `phase`.
    pub open spec fn waiting_for(self, phase: ReadPhase) -> ShmReader {
        ShmReader { phase, ..self }
    }

    /// The reader is through with this position and goes on to the next one.
    pub open spec fn advanced(self) -> ShmReader {
        ShmReader {
            next_pos: (self.next_pos + 1) as u64,
            phase: ReadPhase::Tail,
            idle: IdleBackoff { step: 0 },
            ..self
        }
    }

    /// Reading ends because the reader lagged.
    pub open spec fn lagged(self) -> (ShmReader, ReadAction) {
        (self.waiting_for(ReadPhase::Done), ReadAction::Fail(ShmReceiveError::Lagged))
    }

    /// What the reader does when it is told `event`.
    pub open spec fn next(self, event: ReadEvent) -> (ShmReader, ReadAction) {
        let entry_offset = self.sub.entry_off(self.next_pos) as usize;
        match (self.phase, event) {
            (ReadPhase::Tail, ReadEvent::Tail(tail)) => if self.next_pos >= tail {
                (self.waiting_for(ReadPhase::Closed), ReadAction::LoadClosed)
            } else {
                (self.waiting_for(ReadPhase::Commit), ReadAction::LoadCommit { entry_offset })
            },
            (ReadPhase::Closed, ReadEvent::Closed(closed)) => if closed != 0 {
                (self.waiting_for(ReadPhase::Done), ReadAction::Fail(ShmReceiveError::Closed))
            } else {
                (
                    ShmReader {
                        phase: ReadPhase::Wait,
                        idle: IdleBackoff { step: next_idle_step(self.idle.step) },
                        ..self
                    },
                    ReadAction::Wait(idle_wait(self.idle.step)),
                )
            },
            (ReadPhase::Wait, ReadEvent::Waited) => (
                self.waiting_for(ReadPhase::Tail),
                ReadAction::LoadTail,
            ),
            (ReadPhase::Commit, ReadEvent::Commit(seq)) => if seq != signed(self.next_pos) {
                self.lagged()
            } else {
                (self.waiting_for(ReadPhase::Entry), ReadAction::ReadEntry { entry_offset })
            },
            (ReadPhase::Entry, ReadEvent::Entry { data_off, data_len, accepted }) => if accepted {
                (
                    self.waiting_for(ReadPhase::DataTail { data_off, data_len }),
                    ReadAction::LoadDataTail,
                )
            } else {
                (self.advanced(), ReadAction::LoadTail)
            },
            (
                ReadPhase::DataTail { data_off, data_len },
                ReadEvent::DataTail(data_tail),
            ) => if self.sub.overwritten(data_tail, data_off) {
                self.lagged()
            } else {
                (
                    self.waiting_for(ReadPhase::Copy { data_off }),
                    ReadAction::Copy {
                        ring_offset: (data_off as int % self.sub.data_capacity as int) as usize,
                        len: data_len,
                    },
                )
            },
            (ReadPhase::Copy { data_off }, ReadEvent::Copied) => (
                self.waiting_for(ReadPhase::RecheckCommit { data_off }),
                ReadAction::ReloadCommit { entry_offset },
            ),
            (ReadPhase::RecheckCommit { data_off }, ReadEvent::Commit(seq)) => if seq != signed(
                self.next_pos,
            ) {
                self.lagged()
            } else {
                (
                    self.waiting_for(ReadPhase::RecheckDataTail { data_off }),
                    ReadAction::ReloadDataTail,
                )
            },
            (
                ReadPhase::RecheckDataTail { data_off },
                ReadEvent::DataTail(data_tail),
            ) => if self.sub.overwritten(data_tail, data_off) {
                self.lagged()
            } else {
                (self.waiting_for(ReadPhase::Send), ReadAction::Send)
            },
            (ReadPhase::Send, ReadEvent::Sent(taken)) => if taken {
                (self.advanced(), ReadAction::LoadTail)
            } else {
                (self.waiting_for(ReadPhase::Done), ReadAction::Stop)
            },
            _ => (self, ReadAction::Stop),
        }
    }

    /// A reader that starts at the current tail (no replay).
    pub fn new(sub: ShmSubscription, tail: u64) -> (r: Self)
        requires
            sub.wf(),
        ensures
            r.wf(),
            r == (ShmReader {
                sub,
                next_pos: tail,
                phase: ReadPhase::Tail,
                idle: IdleBackoff { step: 0 },
            }),
    {
        ShmReader { sub, next_pos: tail, phase: ReadPhase::Tail, idle: IdleBackoff::new() }
    }

    /// Goes on to the next position.
    fn advance(&mut self)
        requires
            old(self).next_pos < u64::MAX,
        ensures
            *final(self) == old(self).advanced(),
    {
        self.next_pos = self.next_pos + 1;
        self.phase = ReadPhase::Tail;
        self.idle.reset();
    }

    /// Whether the reader would answer `event` by asking for a copy out of the data ring.
    pub fn would_copy(&self, event: &ReadEvent) -> (r: bool)
        ensures
            r == self.asks_to_copy(*event),
    {
        match (self.phase, *event) {
            (
                ReadPhase::DataTail { data_off, .. },
                ReadEvent::DataTail(data_tail),
            ) => !self.sub.is_overwritten(data_tail, data_off),
            _ => false,
        }
    }

    /// Takes the event that the reader waits for and says what to do next. There is nothing to
    /// copy from when the data ring is empty.
    pub fn step(&mut self, event: ReadEvent) -> (action: ReadAction)
        requires
            old(self).wf(),
            old(self).expects(event),
            old(self).asks_to_copy(event) ==> old(self).sub.data_capacity > 0,
        ensures
            final(self).wf(),
            (*final(self), action) == old(self).next(event),
    {
        match (self.phase, event) {
            (ReadPhase::Tail, ReadEvent::Tail(tail)) => {
                if self.next_pos >= tail {
                    self.phase = ReadPhase::Closed;
                    return ReadAction::LoadClosed;
                }
                self.phase = ReadPhase::Commit;
                ReadAction::LoadCommit { entry_offset: self.sub.entry_offset(self.next_pos) }
            },
            (ReadPhase::Closed, ReadEvent::Closed(closed)) => {
                if closed != 0 {
                    self.phase = ReadPhase::Done;
                    return ReadAction::Fail(ShmReceiveError::Closed);
                }
                self.phase = ReadPhase::Wait;
                ReadAction::Wait(self.idle.wait())
            },
            (ReadPhase::Wait, ReadEvent::Waited) => {
                self.phase = ReadPhase::Tail;
                ReadAction::LoadTail
            },
            (ReadPhase::Commit, ReadEvent::Commit(seq)) => {
                if seq != to_signed(self.next_pos) {
                    self.phase = ReadPhase::Done;
                    return ReadAction::Fail(ShmReceiveError::Lagged);
                }
                self.phase = ReadPhase::Entry;
                ReadAction::ReadEntry { entry_offset: self.sub.entry_offset(self.next_pos) }
            },
            (ReadPhase::Entry, ReadEvent::Entry { data_off, data_len, accepted }) => {
                if !accepted {
                    self.advance();
                    return ReadAction::LoadTail;
                }
                self.phase = ReadPhase::DataTail { data_off, data_len };
                ReadAction::LoadDataTail
            },
            (ReadPhase::DataTail { data_off, data_len }, ReadEvent::DataTail(data_tail)) => {
                if self.sub.is_overwritten(data_tail, data_off) {
                    self.phase = ReadPhase::Done;
                    return ReadAction::Fail(ShmReceiveError::Lagged);
                }
                self.phase = ReadPhase::Copy { data_off };
                ReadAction::Copy {
                    ring_offset: (data_off % self.sub.data_capacity) as usize,
                    len: data_len,
                }
            },
            (ReadPhase::Copy { data_off }, ReadEvent::Copied) => {
                self.phase = ReadPhase::RecheckCommit { data_off };
                ReadAction::ReloadCommit { entry_offset: self.sub.entry_offset(self.next_pos) }
            },
            (ReadPhase::RecheckCommit { data_off }, ReadEvent::Commit(seq)) => {
                if seq != to_signed(self.next_pos) {
                    self.phase = ReadPhase::Done;
                    return ReadAction::Fail(ShmReceiveError::Lagged);
                }
                self.phase = ReadPhase::RecheckDataTail { data_off };
                ReadAction::ReloadDataTail
            },
            (ReadPhase::RecheckDataTail { data_off }, ReadEvent::DataTail(data_tail)) => {
                if self.sub.is_overwritten(data_tail, data_off) {
                    self.phase = ReadPhase::Done;
                    return ReadAction::Fail(ShmReceiveError::Lagged);
                }
                self.phase = ReadPhase::Send;
                ReadAction::Send
            },
            (ReadPhase::Send, ReadEvent::Sent(taken)) => {
                if !taken {
                    self.phase = ReadPhase::Done;
                    return ReadAction::Stop;
                }
                self.advance();
                ReadAction::LoadTail
            },
            _ => ReadAction::Stop,
        }
    }
}

// --- Reading a region at rest ---

/// What an attempt to read the next message gives.
#[derive(Debug)]
pub enum ReadResult {
    /// There is none yet; wait like this
    Empty(IdleWait),
    /// There is one, but the pre-filter does not want it
    Skipped,
    /// The message
    Message(Vec<u8>),
    /// There will be no more
    Failed(ShmReceiveError),
}

/// What a region holds for a reader at some position.
pub enum Found {
    Nothing,
    Unwanted,
    Message(Seq<u8>),
    End(ShmReceiveError),
}

/// The pre-filter, if there is one, wants the message whose V2 index entry starts at `off`.
pub open spec fn wanted(filter: Option<ShmPreFilter>, r: Seq<u8>, off: int) -> bool {
    match filter {
        Some(f) => f.accepts(r[off + 20], r[off + 21], r.subrange(off + 32, off + 128)),
        None => true,
    }
}

impl ShmSubscription {
    /// What region `r` holds for a reader at position `pos`.
    pub open spec fn found(self, r: Seq<u8>, pos: u64, filter: Option<ShmPreFilter>) -> Found {
        let header = header_at(r);
        let off = self.entry_off(pos);
        let data_off = get_u64(r, off + 8);
        if pos >= header.tail {
            if header.closed != 0 {
                Found::End(ShmReceiveError::Closed)
            } else {
                Found::Nothing
            }
        } else if get_i64(r, off) != signed(pos) {
            Found::End(ShmReceiveError::Lagged)
        } else if !wanted(filter, r, off) {
            Found::Unwanted
        } else if self.overwritten(header.data_tail, data_off) {
            Found::End(ShmReceiveError::Lagged)
        } else {
            Found::Message(
                ring_read(
                    self.data_ring(r),
                    data_off as int % self.data_capacity as int,
                    get_u32(r, off + 16) as nat,
                ),
            )
        }
    }

    /// If there is a message to copy, there is a ring to copy it from, and the length in the
    /// entry for position `pos` is one that can be copied out of it.
    pub open spec fn copyable(self, r: Seq<u8>, pos: u64, filter: Option<ShmPreFilter>) -> bool {
        let off = self.entry_off(pos);
        self.found(r, pos, filter) is Message ==> self.data_capacity > 0 && get_u64(
            r,
            off + 8,
        ) as int % self.data_capacity as int + get_u32(r, off + 16) <= 2 * self.data_capacity
    }
}

impl ShmReader {
    /// Reads the next message of a region at rest, if the pre-filter wants it.
    fn try_read(&mut self, region: &[u8], filter: Option<&ShmPreFilter>) -> (r: ReadResult)
        requires
            old(self).wf(),
            old(self).phase is Tail,
            region.len() >= old(self).sub.size(),
            filter is Some ==> old(self).sub.entry_size == INDEX_ENTRY_SIZE_V2,
            old(self).sub.copyable(region@, old(self).next_pos, filter_behind(filter)),
        ensures
            final(self).wf(),
            read_gives(
                *old(self),
                *final(self),
                r,
                old(self).sub.found(region@, old(self).next_pos, filter_behind(filter)),
            ),
    {
        let ghost pos = self.next_pos;
        let ghost sub = self.sub;
        proof {
            sub.lemma_entry_inside(pos);
        }
        let action = self.step(ReadEvent::Tail(read_u64(region, TAIL_OFFSET)));
        let entry_offset: usize = match action {
            ReadAction::LoadCommit { entry_offset } => entry_offset,
            _ => {
                return match self.step(ReadEvent::Closed(read_u64(region, CLOSED_OFFSET))) {
                    ReadAction::Wait(wait) => {
                        self.step(ReadEvent::Waited);
                        ReadResult::Empty(wait)
                    },
                    _ => ReadResult::Failed(ShmReceiveError::Closed),
                };
            },
        };
        match self.step(ReadEvent::Commit(read_i64(region, entry_offset))) {
            ReadAction::ReadEntry { .. } => {},
            _ => {
                return ReadResult::Failed(ShmReceiveError::Lagged);
            },
        }
        let data_off: u64 = read_u64(region, entry_offset + 8);
        let data_len: u32 = read_u32(region, entry_offset + 16);
        let accepted = match filter {
            Some(f) => {
                let meta = ShmEntryMeta {
                    msg_type: region[entry_offset + 20],
                    flags: region[entry_offset + 21],
                    slot: read_u64(region, entry_offset + 24),
                    meta: to_array::<96>(region, entry_offset + 32),
                };
                f.should_accept(&meta)
            },
            None => true,
        };
        match self.step(ReadEvent::Entry { data_off, data_len, accepted }) {
            ReadAction::LoadDataTail => {},
            _ => {
                return ReadResult::Skipped;
            },
        }
        let action = self.step(ReadEvent::DataTail(read_u64(region, DATA_TAIL_OFFSET)));
        let ring_offset: usize = match action {
            ReadAction::Copy { ring_offset, .. } => ring_offset,
            _ => {
                return ReadResult::Failed(ShmReceiveError::Lagged);
            },
        };
        let ring_end: usize = sub_size(&self.sub);
        let ring = vstd::slice::slice_subrange(region, self.sub.data_base_offset, ring_end);
        let mut buf: Vec<u8> = zeroed(data_len as usize);
        copy_from_ring(ring, ring_offset, data_len as usize, buf.as_mut_slice());
        assert(buf@ =~= ring_read(ring@, ring_offset as int, data_len as nat));
        self.step(ReadEvent::Copied);
        self.step(ReadEvent::Commit(read_i64(region, entry_offset)));
        self.step(ReadEvent::DataTail(read_u64(region, DATA_TAIL_OFFSET)));
        self.step(ReadEvent::Sent(true));
        ReadResult::Message(buf)
    }

    /// Reads the next message of a V1 region at rest.
    pub fn try_read_next(&mut self, region: &[u8]) -> (r: ReadResult)
        requires
            old(self).wf(),
            old(self).phase is Tail,
            region.len() >= old(self).sub.size(),
            old(self).sub.copyable(region@, old(self).next_pos, None),
        ensures
            final(self).wf(),
            read_gives(
                *old(self),
                *final(self),
                r,
                old(self).sub.found(region@, old(self).next_pos, None),
            ),
    {
        self.try_read(region, None)
    }

    /// Reads the next message of a V2 region at rest. The pre-filter is asked before the data is
    /// touched; a message that it does not want is passed over.
    pub fn try_read_next_v2(&mut self, region: &[u8], filter: &ShmPreFilter) -> (r: ReadResult)
        requires
            old(self).wf(),
            old(self).phase is Tail,
            region.len() >= old(self).sub.size(),
            old(self).sub.entry_size == INDEX_ENTRY_SIZE_V2,
            old(self).sub.copyable(region@, old(self).next_pos, Some(*filter)),
        ensures
            final(self).wf(),
            read_gives(
                *old(self),
                *final(self),
                r,
                old(self).sub.found(region@, old(self).next_pos, Some(*filter)),
            ),
    {
        self.try_read(region, Some(filter))
    }
}

/// The filter behind a reference.
pub open spec fn filter_behind(filter: Option<&ShmPreFilter>) -> Option<ShmPreFilter> {
    match filter {
        Some(f) => Some(*f),
        None => None,
    }
}

/// How an attempt to read ends, given what was found: the result, and where the reader stands.
pub open spec fn read_gives(
    before: ShmReader,
    after: ShmReader,
    result: ReadResult,
    found: Found,
) -> bool {
    match found {
        Found::Nothing => {
            &&& result == ReadResult::Empty(idle_wait(before.idle.step))
            &&& after == (ShmReader {
                idle: IdleBackoff { step: next_idle_step(before.idle.step) },
                ..before
            })
        },
        Found::Unwanted => {
            &&& result is Skipped
            &&& after == before.advanced()
        },
        Found::Message(data) => {
            &&& result matches ReadResult::Message(buf) && buf@ == data
            &&& after == before.advanced()
        },
        Found::End(error) => {
            &&& result == ReadResult::Failed(error)
            &&& after == before.waiting_for(ReadPhase::Done)
        },
    }
}

/// The size of the region.
fn sub_size(sub: &ShmSubscription) -> (r: usize)
    requires
        sub.wf(),
    ensures
        r == sub.size(),
{
    sub.data_base_offset + sub.data_capacity as usize
}

/// A vector of `len` zero bytes.
fn zeroed(len: usize) -> (r: Vec<u8>)
    ensures
        r@ == Seq::new(len as nat, |i: int| 0u8),
{
    let mut r: Vec<u8> = Vec::with_capacity(len);
    let mut i: usize = 0;
    while i < len
        invariant
            i <= len,
            r@ == Seq::new(i as nat, |j: int| 0u8),
        decreases len - i,
    {
        r.push(0);
        i += 1;
        assert(r@ =~= Seq::new(i as nat, |j: int| 0u8));
    }
    r
}

} // verus!
