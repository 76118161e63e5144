use richat_shm::config::{
    ConfigAppsRichat, ConfigShmClient, ConfigShmFilter, ConfigShmPreFilter, ConfigShmServer,
    RichatFilter,
};
use richat_shm::layout::{
    LayoutError, ShmHeader, ShmIndexEntry, ShmIndexEntryV2, ShmLayout, ShmWriteMeta,
    FLAG_TX_IS_VOTE, HEADER_SIZE, INDEX_ENTRY_SIZE, INDEX_ENTRY_SIZE_V2, MAGIC, MSG_TYPE_ACCOUNT,
    MSG_TYPE_ENTRY, MSG_TYPE_TRANSACTION, VERSION, VERSION_V2,
};
use richat_shm::capacity::next_power_of_two;
use richat_shm::pre_filter::ShmPreFilter;
use richat_shm::reader::{
    IdleBackoff, IdleWait, ReadAction, ReadEvent, ReadResult, ShmConnectError, ShmReader,
    ShmReceiveError, ShmSubscription,
};
use richat_shm::ring::{copy_from_ring, copy_to_ring};
use richat_shm::writer::{publish, LockOutcome, Publication, ShmDirectWriter, ShmServerWriter};

fn server_config(max_messages: usize, max_bytes: usize) -> ConfigShmServer {
    ConfigShmServer {
        path: ConfigShmServer::default_path(),
        max_messages,
        max_bytes,
        filter: None,
        channel_capacity: ConfigShmServer::default_channel_capacity(),
    }
}

fn v1(max_messages: usize, max_bytes: usize) -> (ShmServerWriter, Vec<u8>) {
    let writer = ShmServerWriter::new(&server_config(max_messages, max_bytes)).unwrap();
    let mut region = vec![0x5Au8; writer.layout.total_size()];
    writer.layout.init_region(&mut region);
    (writer, region)
}

fn v2(max_messages: usize, max_bytes: usize) -> (ShmDirectWriter, Vec<u8>) {
    let writer = ShmDirectWriter::new(&server_config(max_messages, max_bytes)).unwrap();
    let mut region = vec![0x5Au8; writer.layout.total_size()];
    writer.layout.init_region(&mut region);
    (writer, region)
}

fn reader_at(region: &[u8], pos: u64) -> ShmReader {
    assert!(ShmSubscription::can_open(region));
    ShmReader::new(ShmSubscription::open(region).unwrap(), pos)
}

fn reader_v2_at(region: &[u8], pos: u64) -> ShmReader {
    assert!(ShmSubscription::can_open_v2(region));
    ShmReader::new(ShmSubscription::open_v2(region).unwrap(), pos)
}

fn message(result: ReadResult) -> Vec<u8> {
    match result {
        ReadResult::Message(data) => data,
        other => panic!("no message: {:?}", other),
    }
}

#[test]
fn next_power_of_two_rounds_up() {
    assert_eq!(next_power_of_two(0), 1);
    assert_eq!(next_power_of_two(1), 1);
    assert_eq!(next_power_of_two(2), 2);
    assert_eq!(next_power_of_two(3), 4);
    assert_eq!(next_power_of_two(1000), 1024);
    assert_eq!(next_power_of_two(2_097_152), 2_097_152);
    assert_eq!(next_power_of_two(usize::MAX / 2 + 1), usize::MAX / 2 + 1);
    for n in 0..2000usize {
        assert_eq!(next_power_of_two(n), n.next_power_of_two());
    }
}

#[test]
fn default_sizes_round_to_two_mebi_entries_and_sixteen_gib() {
    let layout = ShmLayout::plan(
        ConfigShmServer::default_max_messages(),
        ConfigShmServer::default_max_bytes(),
        VERSION,
    )
    .unwrap();
    assert_eq!(layout.idx_capacity, 2 * 1024 * 1024);
    assert_eq!(layout.data_capacity, 16 * 1024 * 1024 * 1024);
    assert_eq!(layout.entry_size, INDEX_ENTRY_SIZE);
    assert_eq!(
        layout.total_size(),
        64 + 32 * 2 * 1024 * 1024 + 16 * 1024 * 1024 * 1024
    );
}

#[test]
fn plan_names_the_size_that_does_not_fit() {
    let limit = usize::MAX / 2 + 1;
    assert_eq!(ShmLayout::plan(limit + 1, 1, VERSION), Err(LayoutError::Capacity));
    assert_eq!(ShmLayout::plan(1, limit + 1, VERSION), Err(LayoutError::Capacity));
    assert_eq!(ShmLayout::plan(limit, 1, VERSION), Err(LayoutError::IndexRegion));
    assert_eq!(ShmLayout::plan(limit, limit, VERSION_V2), Err(LayoutError::IndexRegion));
    assert_eq!(ShmLayout::plan(limit / 32, limit, VERSION), Err(LayoutError::Total));
    assert_eq!(
        ShmLayout::plan(3, 100, VERSION_V2),
        Ok(ShmLayout {
            version: 2,
            idx_capacity: 4,
            data_capacity: 128,
            entry_size: INDEX_ENTRY_SIZE_V2,
        })
    );
    assert!(matches!(
        ShmDirectWriter::new(&server_config(limit + 1, 1)),
        Err(LayoutError::Capacity)
    ));
    assert!(matches!(
        ShmServerWriter::new(&server_config(limit, 1)),
        Err(LayoutError::IndexRegion)
    ));
}

#[test]
fn defaults() {
    assert_eq!(ConfigShmServer::default_path(), "/dev/shm/richat");
    assert_eq!(ConfigShmClient::default_path(), "/dev/shm/richat");
    assert_eq!(ConfigShmServer::default_max_messages(), 2_097_152);
    assert_eq!(ConfigShmServer::default_max_bytes(), 15 * 1024 * 1024 * 1024);
    assert_eq!(ConfigShmServer::default_channel_capacity(), 4096);
    assert!(ConfigAppsRichat::default().shm.is_none());
    assert_eq!(
        RichatFilter::from(ConfigShmFilter::default()),
        RichatFilter {
            disable_accounts: false,
            disable_transactions: false,
            disable_entries: false,
        }
    );
    assert_eq!(
        RichatFilter::from(ConfigShmFilter {
            disable_accounts: true,
            disable_transactions: false,
            disable_entries: true,
        }),
        RichatFilter {
            disable_accounts: true,
            disable_transactions: false,
            disable_entries: true,
        }
    );
    let meta = ShmWriteMeta::default();
    assert_eq!((meta.msg_type, meta.flags, meta.slot), (0, 0, 0));
    assert_eq!(meta.meta, [0u8; 96]);
}

#[test]
fn fresh_region_has_the_documented_bytes() {
    let (writer, region) = v1(2, 8);
    assert_eq!(region.len(), 64 + 2 * 32 + 8);
    assert_eq!(&region[0..8], b"HSTAHCIR");
    assert_eq!(&region[8..16], &1u64.to_le_bytes());
    assert_eq!(&region[16..24], &2u64.to_le_bytes());
    assert_eq!(&region[24..32], &8u64.to_le_bytes());
    assert_eq!(&region[32..56], &[0u8; 24]);
    assert_eq!(&region[56..64], &32u64.to_le_bytes());
    for i in 0..2 {
        let off = writer.layout.entry_offset(i);
        assert_eq!(off, 64 + i * 32);
        assert_eq!(&region[off..off + 8], &[0xFF; 8]);
        assert_eq!(&region[off + 8..off + 32], &[0u8; 24]);
    }
    // The data ring is left as it was.
    assert_eq!(&region[128..], &[0x5A; 8]);

    let (_, region) = v2(1, 8);
    assert_eq!(&region[8..16], &2u64.to_le_bytes());
    assert_eq!(&region[56..64], &128u64.to_le_bytes());
    assert_eq!(&region[64..72], &[0xFF; 8]);
    assert_eq!(&region[72..192], &[0u8; 120]);
}

#[test]
fn header_round_trip_is_little_endian() {
    let header = ShmHeader {
        magic: MAGIC,
        version: 2,
        idx_capacity: 4,
        data_capacity: 1 << 40,
        tail: u64::MAX,
        data_tail: 0x0102_0304_0506_0708,
        closed: 1,
        index_entry_size: 128,
    };
    let mut region = vec![0u8; 70];
    header.write_to(&mut region);
    assert_eq!(ShmHeader::from_bytes(&region), header);
    assert_eq!(&region[32..40], &u64::MAX.to_le_bytes());
    assert_eq!(&region[40..48], &0x0102_0304_0506_0708u64.to_le_bytes());
    assert_eq!(&region[64..], &[0u8; 6]);
}

#[test]
fn entry_round_trips() {
    let entry = ShmIndexEntry {
        seq: -1,
        data_off: u64::MAX - 1,
        data_len: 0xDEAD_BEEF,
        _reserved: 7,
        slot: 9,
    };
    let mut region = vec![0xEEu8; 48];
    entry.write_to(&mut region, 8);
    assert_eq!(ShmIndexEntry::from_bytes(&region, 8), entry);
    assert_eq!(&region[0..8], &[0xEE; 8]);
    assert_eq!(&region[40..], &[0xEE; 8]);

    let mut meta = [0u8; 96];
    for (i, b) in meta.iter_mut().enumerate() {
        *b = i as u8;
    }
    let entry = ShmIndexEntryV2 {
        seq: i64::MIN,
        data_off: 1,
        data_len: 2,
        msg_type: 3,
        flags: 4,
        _pad0: 0x0506,
        slot: 7,
        meta,
    };
    let mut region = vec![0u8; 128];
    entry.write_to(&mut region, 0);
    let back = ShmIndexEntryV2::from_bytes(&region, 0);
    assert_eq!((back.seq, back.data_off, back.data_len), (i64::MIN, 1, 2));
    assert_eq!((back.msg_type, back.flags, back._pad0, back.slot), (3, 4, 0x0506, 7));
    assert_eq!(back.meta, meta);
    assert_eq!(back.account_pubkey(), meta[0..32]);
    assert_eq!(back.account_owner(), meta[32..64]);
    assert_eq!(back.account_lamports(), 0x4746_4544_4342_4140);
    assert_eq!(back.tx_signature(), meta[0..64]);
    assert_eq!(back.tx_account_bloom(), meta[64..96]);
    assert_eq!(back.slot_parent(), 0x0706_0504_0302_0100);
    assert_eq!(back.entry_index(), 0x0706_0504_0302_0100);
    assert_eq!(back.entry_exec_tx_count(), 0x0F0E_0D0C_0B0A_0908);
}

#[test]
fn ring_copies_at_their_limits() {
    let mut ring = vec![0u8; 4];
    copy_to_ring(&mut ring, 3, &[]);
    assert_eq!(ring, vec![0; 4]);
    // Longer than the ring: later bytes win.
    copy_to_ring(&mut ring, 2, &[1, 2, 3, 4, 5, 6]);
    assert_eq!(ring, vec![3, 4, 5, 6]);
    let mut dst = vec![9u8; 8];
    copy_from_ring(&ring, 2, 6, &mut dst);
    assert_eq!(dst, vec![5, 6, 3, 4, 5, 6, 9, 9]);
}

#[test]
fn written_messages_are_read_back_in_order() {
    let (mut writer, mut region) = v1(4, 16);
    let mut reader = reader_at(&region, 0);
    for i in 0..50u8 {
        let msg = vec![i; (i % 7) as usize];
        assert!(writer.fits(msg.len()));
        writer.write(&mut region, &msg);
        assert_eq!(message(reader.try_read_next(&region)), msg);
        assert!(matches!(
            reader.try_read_next(&region),
            ReadResult::Empty(IdleWait::Spin(1))
        ));
    }
    let header = ShmHeader::from_bytes(&region);
    assert_eq!(header.tail, 50);
    assert_eq!(header.data_tail, writer.data_pos);
    assert_eq!(reader.next_pos, 50);
}

#[test]
fn reader_lags_when_the_index_ring_was_overtaken() {
    let (mut writer, mut region) = v1(2, 64);
    for msg in [b"aa", b"bb", b"cc"] {
        writer.write(&mut region, msg);
    }
    let mut reader = reader_at(&region, 0);
    assert!(matches!(
        reader.try_read_next(&region),
        ReadResult::Failed(ShmReceiveError::Lagged)
    ));
    let mut reader = reader_at(&region, 1);
    assert_eq!(message(reader.try_read_next(&region)), b"bb");
    assert_eq!(message(reader.try_read_next(&region)), b"cc");
}

#[test]
fn reader_lags_when_the_data_ring_was_overtaken() {
    let (mut writer, mut region) = v1(8, 8);
    for msg in [b"aaaa", b"bbbb"] {
        writer.write(&mut region, msg);
    }
    assert_eq!(message(reader_at(&region, 0).try_read_next(&region)), b"aaaa");
    writer.write(&mut region, b"c");
    assert!(matches!(
        reader_at(&region, 0).try_read_next(&region),
        ReadResult::Failed(ShmReceiveError::Lagged)
    ));
    assert_eq!(message(reader_at(&region, 1).try_read_next(&region)), b"bbbb");
    assert_eq!(message(reader_at(&region, 2).try_read_next(&region)), b"c");
}

#[test]
fn message_longer_than_the_data_ring_is_never_read() {
    let (mut writer, mut region) = v1(4, 8);
    assert!(writer.fits(16));
    assert!(!writer.fits(17));
    writer.write(&mut region, &[7; 12]);
    assert!(matches!(
        reader_at(&region, 0).try_read_next(&region),
        ReadResult::Failed(ShmReceiveError::Lagged)
    ));
}

#[test]
fn reader_drains_before_it_sees_the_end() {
    let (mut writer, mut region) = v1(4, 16);
    writer.write(&mut region, b"last");
    writer.close(&mut region);
    let mut reader = reader_at(&region, 0);
    assert_eq!(message(reader.try_read_next(&region)), b"last");
    assert!(matches!(
        reader.try_read_next(&region),
        ReadResult::Failed(ShmReceiveError::Closed)
    ));
}

#[test]
fn open_errors() {
    let (_, region) = v1(4, 16);
    assert_eq!(ShmSubscription::open(&region[..63]), Err(ShmConnectError::FileTooSmall));
    assert_eq!(
        ShmSubscription::open(&region[..region.len() - 1]),
        Err(ShmConnectError::FileTooSmall)
    );
    let mut other = region.clone();
    other[0] ^= 1;
    assert_eq!(
        ShmSubscription::open(&other),
        Err(ShmConnectError::InvalidMagic { expected: MAGIC, got: MAGIC ^ 1 })
    );
    assert_eq!(
        ShmSubscription::open_v2(&region),
        Err(ShmConnectError::UnsupportedVersion(1))
    );
    let (_, region_v2) = v2(4, 16);
    assert_eq!(
        ShmSubscription::open(&region_v2),
        Err(ShmConnectError::UnsupportedVersion(2))
    );
    assert_eq!(
        ShmSubscription::open(&region).unwrap(),
        ShmSubscription {
            idx_capacity: 4,
            idx_mask: 3,
            data_capacity: 16,
            index_base_offset: HEADER_SIZE,
            data_base_offset: 64 + 4 * 32,
            entry_size: 32,
        }
    );
    // Sizes that cannot be computed with.
    let mut empty = region.clone();
    empty[16..24].copy_from_slice(&0u64.to_le_bytes());
    assert!(!ShmSubscription::can_open(&empty));
    let mut huge = region;
    huge[16..24].copy_from_slice(&u64::MAX.to_le_bytes());
    assert!(!ShmSubscription::can_open(&huge));
    assert!(ShmSubscription::can_open_v2(&huge));
}

#[test]
fn direct_writer_writes_metadata() {
    let (mut writer, mut region) = v2(2, 32);
    let mut meta = ShmWriteMeta::default();
    meta.msg_type = MSG_TYPE_TRANSACTION;
    meta.flags = FLAG_TX_IS_VOTE;
    meta.slot = 77; // not the slot that is written
    meta.meta = [3; 96];
    writer.write(&mut region, b"first", 5, &ShmWriteMeta::default());
    writer.write(&mut region, b"second", 42, &meta);
    let entry = ShmIndexEntryV2::from_bytes(&region, writer.layout.entry_offset(1));
    assert_eq!((entry.seq, entry.data_off, entry.data_len), (1, 5, 6));
    assert_eq!((entry.msg_type, entry.flags, entry._pad0), (2, 1, 0));
    assert_eq!(entry.slot, 42);
    assert_eq!(entry.meta, [3; 96]);
    let header = ShmHeader::from_bytes(&region);
    assert_eq!((header.tail, header.data_tail, header.closed), (2, 11, 0));
}

#[test]
fn staged_message_is_invisible_until_published() {
    let (mut writer, mut region) = v2(2, 32);
    let noop = ShmPreFilter::from_config(None);
    let publication = writer
        .stage(&mut region, b"abc", 9, &ShmWriteMeta::default())
        .unwrap();
    assert_eq!(
        publication,
        Publication { data_tail: 3, entry_offset: 64, seq: 0, tail: 1 }
    );
    let mut reader = reader_v2_at(&region, 0);
    assert!(matches!(
        reader.try_read_next_v2(&region, &noop),
        ReadResult::Empty(IdleWait::Spin(1))
    ));
    publish(&mut region, &publication);
    assert_eq!(message(reader.try_read_next_v2(&region, &noop)), b"abc");
}

#[test]
fn closed_direct_writer_does_nothing() {
    let (mut writer, mut region) = v2(2, 32);
    writer.write(&mut region, b"abc", 1, &ShmWriteMeta::default());
    writer.close(&mut region);
    assert_eq!(ShmHeader::from_bytes(&region).closed, 1);
    let before = region.clone();
    writer.write(&mut region, b"def", 2, &ShmWriteMeta::default());
    writer.close(&mut region);
    assert_eq!(region, before);
    assert_eq!((writer.pos, writer.data_pos), (1, 3));
    assert!(writer.fits(usize::MAX));
    assert!(writer.stage(&mut region, b"x", 0, &ShmWriteMeta::default()).is_none());
}

#[test]
fn lock_outcomes() {
    let (mut writer, _) = v2(2, 32);
    assert_eq!(writer.lock_inner(false), LockOutcome::Acquired);
    assert_eq!(writer.lock_inner(true), LockOutcome::ClosedByPoison);
    assert!(writer.closed);
    assert_eq!(writer.lock_inner(true), LockOutcome::Closed);
    assert_eq!(writer.lock_inner(false), LockOutcome::Closed);
    assert!(!writer.mark_closed());
}

#[test]
fn pre_filter_skips_before_the_data_is_looked_at() {
    let (mut writer, mut region) = v2(4, 8);
    let mut account = ShmWriteMeta::default();
    account.msg_type = MSG_TYPE_ACCOUNT;
    let mut entry = ShmWriteMeta::default();
    entry.msg_type = MSG_TYPE_ENTRY;
    writer.write(&mut region, b"acc", 1, &account);
    writer.write(&mut region, b"entry", 1, &entry);
    writer.write(&mut region, b"xyz", 1, &entry);
    let mut config = ConfigShmPreFilter::default();
    config.disable_accounts = true;
    let filter = ShmPreFilter::from_config(Some(config));
    // The data of the account message is gone, but it is not wanted.
    let mut reader = reader_v2_at(&region, 0);
    assert!(matches!(
        reader.try_read_next_v2(&region, &filter),
        ReadResult::Skipped
    ));
    assert_eq!(message(reader.try_read_next_v2(&region, &filter)), b"entry");
    assert_eq!(message(reader.try_read_next_v2(&region, &filter)), b"xyz");
    // Without the rule the reader lags.
    assert!(matches!(
        reader_v2_at(&region, 0)
            .try_read_next_v2(&region, &ShmPreFilter::from_config(None)),
        ReadResult::Failed(ShmReceiveError::Lagged)
    ));
}

#[test]
fn idle_backoff_spins_yields_and_sleeps() {
    let mut idle = IdleBackoff::new();
    for spins in [1, 2, 4, 8, 16, 32, 64] {
        assert_eq!(idle.wait(), IdleWait::Spin(spins));
    }
    for _ in 0..4 {
        assert_eq!(idle.wait(), IdleWait::Yield);
    }
    for _ in 0..3 {
        assert_eq!(idle.wait(), IdleWait::SleepMicros(1));
    }
    idle.reset();
    assert_eq!(idle.wait(), IdleWait::Spin(1));
}

#[test]
fn reader_rechecks_after_the_copy() {
    let (_, region) = v1(4, 16);
    let start = reader_at(&region, 5);
    let mut reader = start;
    let entry_offset = 64 + 32; // position 5 falls on slot 1
    assert_eq!(reader.step(ReadEvent::Tail(6)), ReadAction::LoadCommit { entry_offset });
    assert_eq!(reader.step(ReadEvent::Commit(5)), ReadAction::ReadEntry { entry_offset });
    assert_eq!(
        reader.step(ReadEvent::Entry { data_off: 20, data_len: 3, accepted: true }),
        ReadAction::LoadDataTail
    );
    let mut late = reader;
    assert_eq!(
        late.step(ReadEvent::DataTail(37)),
        ReadAction::Fail(ShmReceiveError::Lagged)
    );
    assert_eq!(
        reader.step(ReadEvent::DataTail(36)),
        ReadAction::Copy { ring_offset: 4, len: 3 }
    );
    assert_eq!(reader.step(ReadEvent::Copied), ReadAction::ReloadCommit { entry_offset });
    let mut replaced = reader;
    assert_eq!(
        replaced.step(ReadEvent::Commit(9)),
        ReadAction::Fail(ShmReceiveError::Lagged)
    );
    assert_eq!(reader.step(ReadEvent::Commit(5)), ReadAction::ReloadDataTail);
    let mut overwritten = reader;
    assert_eq!(
        overwritten.step(ReadEvent::DataTail(37)),
        ReadAction::Fail(ShmReceiveError::Lagged)
    );
    assert_eq!(reader.step(ReadEvent::DataTail(36)), ReadAction::Send);
    let mut dropped = reader;
    assert_eq!(dropped.step(ReadEvent::Sent(false)), ReadAction::Stop);
    assert_eq!(reader.step(ReadEvent::Sent(true)), ReadAction::LoadTail);
    assert_eq!(reader.next_pos, 6);

    let mut waiting = start;
    assert_eq!(waiting.step(ReadEvent::Tail(5)), ReadAction::LoadClosed);
    let mut closed = waiting;
    assert_eq!(
        closed.step(ReadEvent::Closed(1)),
        ReadAction::Fail(ShmReceiveError::Closed)
    );
    assert_eq!(
        waiting.step(ReadEvent::Closed(0)),
        ReadAction::Wait(IdleWait::Spin(1))
    );
    assert_eq!(waiting.step(ReadEvent::Waited), ReadAction::LoadTail);
}

#[test]
fn header_counts_what_the_writer_counts() {
    let (mut direct, mut region) = v2(2, 16);
    for (i, data) in [&b"abc"[..], b"", b"defghijklmnop", b"q"].iter().enumerate() {
        direct.write(&mut region, data, i as u64, &ShmWriteMeta::default());
        let header = ShmHeader::from_bytes(&region);
        assert_eq!((header.tail, header.data_tail), (direct.pos, direct.data_pos));
        assert_eq!(header.closed, 0);
    }
    assert_eq!((direct.pos, direct.data_pos), (4, 17));
    direct.close(&mut region);
    let header = ShmHeader::from_bytes(&region);
    assert_eq!((header.tail, header.data_tail, header.closed), (4, 17, 1));
    assert!(direct.closed);

    let (mut server, mut region) = v1(2, 16);
    server.write(&mut region, b"abc");
    server.write(&mut region, b"de");
    server.close(&mut region);
    let header = ShmHeader::from_bytes(&region);
    assert_eq!((header.tail, header.data_tail, header.closed), (2, 5, 1));
    assert_eq!((server.pos, server.data_pos), (2, 5));
}

#[test]
fn empty_data_ring_still_shows_how_reading_ends() {
    let layout = v1(2, 16).0.layout;
    let mut region = vec![0u8; 64 + 2 * 32];
    ShmHeader {
        magic: MAGIC,
        version: VERSION,
        idx_capacity: layout.idx_capacity as u64,
        data_capacity: 0,
        tail: 1,
        data_tail: 1,
        closed: 1,
        index_entry_size: 0,
    }
    .write_to(&mut region);
    let mut at_end = reader_at(&region, 1);
    assert!(matches!(
        at_end.try_read_next(&region),
        ReadResult::Failed(ShmReceiveError::Closed)
    ));
    // Position 0 is committed, but its byte cannot be in the ring.
    let mut behind = reader_at(&region, 0);
    assert_eq!(behind.step(ReadEvent::Tail(1)), ReadAction::LoadCommit { entry_offset: 64 });
    assert_eq!(behind.step(ReadEvent::Commit(0)), ReadAction::ReadEntry { entry_offset: 64 });
    behind.step(ReadEvent::Entry { data_off: 0, data_len: 1, accepted: true });
    assert!(behind.would_copy(&ReadEvent::DataTail(0)));
    assert!(!behind.would_copy(&ReadEvent::DataTail(1)));
    assert_eq!(
        behind.step(ReadEvent::DataTail(1)),
        ReadAction::Fail(ShmReceiveError::Lagged)
    );
}

#[test]
fn poisoned_lock_closes_the_region_and_keeps_what_it_records() {
    let (mut writer, mut region) = v2(2, 32);
    writer.write(&mut region, b"abc", 1, &ShmWriteMeta::default());
    assert_eq!(writer.lock_inner(true), LockOutcome::ClosedByPoison);
    let header = ShmHeader { closed: 1, ..ShmHeader::from_bytes(&region) };
    header.write_to(&mut region);
    assert_eq!((header.tail, header.data_tail), (writer.pos, writer.data_pos));
    assert!(writer.closed);
    let all = ShmPreFilter::from_config(None);
    let mut reader = reader_v2_at(&region, 0);
    assert_eq!(message(reader.try_read_next_v2(&region, &all)), b"abc");
    assert!(matches!(
        reader.try_read_next_v2(&region, &all),
        ReadResult::Failed(ShmReceiveError::Closed)
    ));
    let before = region.clone();
    writer.close(&mut region);
    writer.write(&mut region, b"def", 2, &ShmWriteMeta::default());
    assert_eq!(region, before);
}
