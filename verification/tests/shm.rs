use richat_shm::bloom256;
use richat_shm::layout::{
    ShmHeader, ShmIndexEntry, ShmIndexEntryV2, FLAG_ACC_EXECUTABLE, FLAG_TX_FAILED,
    FLAG_TX_IS_VOTE, HEADER_SIZE, INDEX_ENTRY_SIZE, INDEX_ENTRY_SIZE_V2, MAGIC, MSG_TYPE_ACCOUNT,
    MSG_TYPE_TRANSACTION, VERSION, VERSION_V2,
};
use richat_shm::ring::{copy_from_ring, copy_to_ring};
use std::mem::size_of;

#[test]
fn test_copy_to_ring_no_wrap() {
    let mut ring = vec![0u8; 16];
    copy_to_ring(&mut ring, 4, &[1, 2, 3, 4]);
    assert_eq!(&ring[4..8], &[1, 2, 3, 4]);
}

#[test]
fn test_copy_to_ring_wrap() {
    let mut ring = vec![0u8; 8];
    copy_to_ring(&mut ring, 6, &[1, 2, 3, 4]);
    assert_eq!(&ring[6..8], &[1, 2]);
    assert_eq!(&ring[0..2], &[3, 4]);
}

#[test]
fn test_copy_from_ring_no_wrap() {
    let ring = vec![0, 1, 2, 3, 4, 5, 6, 7];
    let mut dst = vec![0u8; 4];
    copy_from_ring(&ring, 2, 4, &mut dst);
    assert_eq!(dst, vec![2, 3, 4, 5]);
}

#[test]
fn test_copy_from_ring_wrap() {
    let ring = vec![10, 11, 12, 13, 14, 15, 16, 17];
    let mut dst = vec![0u8; 4];
    copy_from_ring(&ring, 6, 4, &mut dst);
    assert_eq!(dst, vec![16, 17, 10, 11]);
}

#[test]
fn test_header_size() {
    assert_eq!(size_of::<ShmHeader>(), HEADER_SIZE);
}

#[test]
fn test_index_entry_size() {
    assert_eq!(size_of::<ShmIndexEntry>(), INDEX_ENTRY_SIZE);
}

fn fresh_header(version: u64, idx_capacity: usize, data_capacity: usize) -> ShmHeader {
    ShmHeader {
        magic: MAGIC,
        version,
        idx_capacity: idx_capacity as u64,
        data_capacity: data_capacity as u64,
        tail: 0,
        data_tail: 0,
        closed: 0,
        index_entry_size: if version == VERSION_V2 {
            INDEX_ENTRY_SIZE_V2 as u64
        } else {
            0
        },
    }
}

fn v1_region(idx_capacity: usize, data_capacity: usize) -> Vec<u8> {
    let total_size = HEADER_SIZE + idx_capacity * INDEX_ENTRY_SIZE + data_capacity;
    let mut buf = vec![0u8; total_size];
    fresh_header(VERSION, idx_capacity, data_capacity).write_to(&mut buf);
    for i in 0..idx_capacity {
        let off = HEADER_SIZE + i * INDEX_ENTRY_SIZE;
        let mut entry = ShmIndexEntry::from_bytes(&buf, off);
        entry.seq = -1;
        entry.write_to(&mut buf, off);
    }
    buf
}

fn v1_write(
    buf: &mut [u8],
    idx_capacity: usize,
    data_capacity: usize,
    pos: u64,
    data_pos: u64,
    msg: &[u8],
) {
    let idx_mask = (idx_capacity - 1) as u64;
    let idx = (pos & idx_mask) as usize;
    let data_base_offset = HEADER_SIZE + idx_capacity * INDEX_ENTRY_SIZE;
    copy_to_ring(
        &mut buf[data_base_offset..data_base_offset + data_capacity],
        (data_pos % data_capacity as u64) as usize,
        msg,
    );
    let off = HEADER_SIZE + idx * INDEX_ENTRY_SIZE;
    let mut entry = ShmIndexEntry::from_bytes(buf, off);
    entry.data_off = data_pos;
    entry.data_len = msg.len() as u32;
    entry.slot = 0;
    entry.seq = pos as i64;
    entry.write_to(buf, off);
    let mut header = ShmHeader::from_bytes(buf);
    header.data_tail = data_pos + msg.len() as u64;
    header.tail = pos + 1;
    header.write_to(buf);
}

#[test]
fn test_write_read_single_message() {
    let idx_capacity: usize = 4;
    let data_capacity: usize = 64;
    let mut buf = v1_region(idx_capacity, data_capacity);

    let msg = b"hello world";
    let idx_mask = (idx_capacity - 1) as u64;
    v1_write(&mut buf, idx_capacity, data_capacity, 0, 0, msg);

    let read_header = ShmHeader::from_bytes(&buf);
    assert_eq!(read_header.tail, 1);

    let read_idx = (0u64 & idx_mask) as usize;
    let read_entry = ShmIndexEntry::from_bytes(&buf, HEADER_SIZE + read_idx * INDEX_ENTRY_SIZE);
    assert_eq!(read_entry.seq, 0);
    assert_eq!(read_entry.data_len, msg.len() as u32);

    let data_base_offset = HEADER_SIZE + idx_capacity * INDEX_ENTRY_SIZE;
    let data_ring_ro = &buf[data_base_offset..data_base_offset + data_capacity];
    let mut result = vec![0u8; msg.len()];
    copy_from_ring(
        data_ring_ro,
        (read_entry.data_off % data_capacity as u64) as usize,
        read_entry.data_len as usize,
        &mut result,
    );
    assert_eq!(&result, msg);
}

#[test]
fn test_write_read_sequence() {
    let idx_capacity: usize = 4;
    let data_capacity: usize = 128;
    let mut buf = v1_region(idx_capacity, data_capacity);
    let idx_mask = (idx_capacity - 1) as u64;

    let messages: Vec<&[u8]> = vec![b"msg0", b"msg1", b"msg2"];
    let mut pos: u64 = 0;
    let mut data_pos: u64 = 0;
    for msg in &messages {
        v1_write(&mut buf, idx_capacity, data_capacity, pos, data_pos, msg);
        data_pos += msg.len() as u64;
        pos += 1;
    }

    let header = ShmHeader::from_bytes(&buf);
    assert_eq!(header.tail, 3);

    let data_base_offset = HEADER_SIZE + idx_capacity * INDEX_ENTRY_SIZE;
    for (i, expected) in messages.iter().enumerate() {
        let idx = (i as u64 & idx_mask) as usize;
        let entry = ShmIndexEntry::from_bytes(&buf, HEADER_SIZE + idx * INDEX_ENTRY_SIZE);
        assert_eq!(entry.seq, i as i64);

        let data_ring_ro = &buf[data_base_offset..data_base_offset + data_capacity];
        let mut result = vec![0u8; entry.data_len as usize];
        copy_from_ring(
            data_ring_ro,
            (entry.data_off % data_capacity as u64) as usize,
            entry.data_len as usize,
            &mut result,
        );
        assert_eq!(&result[..], *expected);
    }
}

#[test]
fn test_lag_detection() {
    let idx_capacity: usize = 2;
    let data_capacity: usize = 32;
    let mut buf = v1_region(idx_capacity, data_capacity);
    let idx_mask = (idx_capacity - 1) as u64;

    let mut pos: u64 = 0;
    let mut data_pos: u64 = 0;
    for msg in [b"aa" as &[u8], b"bb", b"cc"] {
        v1_write(&mut buf, idx_capacity, data_capacity, pos, data_pos, msg);
        data_pos += msg.len() as u64;
        pos += 1;
    }

    let reader_pos: u64 = 0;
    let idx = (reader_pos & idx_mask) as usize;
    let entry = ShmIndexEntry::from_bytes(&buf, HEADER_SIZE + idx * INDEX_ENTRY_SIZE);
    let seq = entry.seq;
    assert_ne!(seq, reader_pos as i64, "should detect lag: seq was overwritten");
    assert_eq!(seq, 2);
}

#[test]
fn test_index_entry_v2_size() {
    assert_eq!(size_of::<ShmIndexEntryV2>(), INDEX_ENTRY_SIZE_V2);
    assert_eq!(INDEX_ENTRY_SIZE_V2, 128);
}

fn v2_region(idx_capacity: usize, data_capacity: usize) -> Vec<u8> {
    let total_size = HEADER_SIZE + idx_capacity * INDEX_ENTRY_SIZE_V2 + data_capacity;
    let mut buf = vec![0u8; total_size];
    fresh_header(VERSION_V2, idx_capacity, data_capacity).write_to(&mut buf);
    for i in 0..idx_capacity {
        let off = HEADER_SIZE + i * INDEX_ENTRY_SIZE_V2;
        let mut entry = ShmIndexEntryV2::from_bytes(&buf, off);
        entry.seq = -1;
        entry.write_to(&mut buf, off);
    }
    buf
}

#[test]
fn test_write_read_v2() {
    let idx_capacity: usize = 4;
    let data_capacity: usize = 128;
    let entry_size = INDEX_ENTRY_SIZE_V2;
    let mut buf = v2_region(idx_capacity, data_capacity);
    let idx_mask = (idx_capacity - 1) as u64;

    // Write an account message with metadata
    let msg = b"account-data-here";
    let data_base_offset = HEADER_SIZE + idx_capacity * entry_size;
    copy_to_ring(
        &mut buf[data_base_offset..data_base_offset + data_capacity],
        0,
        msg,
    );

    let pos: u64 = 0;
    let idx = (pos & idx_mask) as usize;
    let off = HEADER_SIZE + idx * entry_size;
    let mut entry = ShmIndexEntryV2::from_bytes(&buf, off);
    entry.data_off = 0;
    entry.data_len = msg.len() as u32;
    entry.msg_type = MSG_TYPE_ACCOUNT;
    entry.flags = FLAG_ACC_EXECUTABLE;
    entry.slot = 42;
    // Write a fake pubkey (32 bytes of 0xAA)
    entry.meta[0..32].copy_from_slice(&[0xAA; 32]);
    // Write a fake owner (32 bytes of 0xBB)
    entry.meta[32..64].copy_from_slice(&[0xBB; 32]);
    // Write lamports
    entry.meta[64..72].copy_from_slice(&1000u64.to_le_bytes());
    entry.seq = pos as i64;
    entry.write_to(&mut buf, off);

    let mut header = ShmHeader::from_bytes(&buf);
    header.data_tail = msg.len() as u64;
    header.tail = pos + 1;
    header.write_to(&mut buf);

    // Read back and verify
    let read_entry = ShmIndexEntryV2::from_bytes(&buf, off);
    assert_eq!(read_entry.seq, 0);
    assert_eq!(read_entry.msg_type, MSG_TYPE_ACCOUNT);
    assert_eq!(read_entry.flags, FLAG_ACC_EXECUTABLE);
    assert_eq!(read_entry.slot, 42);
    assert_eq!(read_entry.data_len, msg.len() as u32);
    assert_eq!(read_entry.account_pubkey(), [0xAA; 32]);
    assert_eq!(read_entry.account_owner(), [0xBB; 32]);
    assert_eq!(read_entry.account_lamports(), 1000);

    // Verify data ring
    let data_ring_ro = &buf[data_base_offset..data_base_offset + data_capacity];
    let mut result = vec![0u8; msg.len()];
    copy_from_ring(data_ring_ro, 0, msg.len(), &mut result);
    assert_eq!(&result, msg);
}

#[test]
fn test_write_read_v2_transaction() {
    let idx_capacity: usize = 4;
    let data_capacity: usize = 128;
    let entry_size = INDEX_ENTRY_SIZE_V2;
    let mut buf = v2_region(idx_capacity, data_capacity);
    let idx_mask = (idx_capacity - 1) as u64;

    let msg = b"tx-data";
    let data_base_offset = HEADER_SIZE + idx_capacity * entry_size;
    copy_to_ring(
        &mut buf[data_base_offset..data_base_offset + data_capacity],
        0,
        msg,
    );

    let pos: u64 = 0;
    let idx = (pos & idx_mask) as usize;
    let off = HEADER_SIZE + idx * entry_size;
    let mut entry = ShmIndexEntryV2::from_bytes(&buf, off);
    entry.data_off = 0;
    entry.data_len = msg.len() as u32;
    entry.msg_type = MSG_TYPE_TRANSACTION;
    entry.flags = FLAG_TX_IS_VOTE | FLAG_TX_FAILED;
    entry.slot = 100;
    // Signature: 64 bytes of 0xCC
    entry.meta[0..64].copy_from_slice(&[0xCC; 64]);
    entry.seq = pos as i64;
    entry.write_to(&mut buf, off);

    let mut header = ShmHeader::from_bytes(&buf);
    header.data_tail = msg.len() as u64;
    header.tail = pos + 1;
    header.write_to(&mut buf);

    let read_entry = ShmIndexEntryV2::from_bytes(&buf, off);
    assert_eq!(read_entry.msg_type, MSG_TYPE_TRANSACTION);
    assert_eq!(read_entry.flags & FLAG_TX_IS_VOTE, FLAG_TX_IS_VOTE);
    assert_eq!(read_entry.flags & FLAG_TX_FAILED, FLAG_TX_FAILED);
    assert_eq!(read_entry.tx_signature(), [0xCC; 64]);
    assert_eq!(read_entry.slot, 100);
}

#[test]
fn test_bloom256_insert_contains() {
    let mut filter = [0u8; 32];
    let key_a = [0xAAu8; 32];
    let key_b = [0xBBu8; 32];

    bloom256::insert(&mut filter, &key_a);
    bloom256::insert(&mut filter, &key_b);

    assert!(bloom256::may_contain(&filter, &key_a));
    assert!(bloom256::may_contain(&filter, &key_b));
}

#[test]
fn test_bloom256_no_false_negatives() {
    let mut filter = [0u8; 32];
    // Insert 20 distinct keys
    let mut keys = Vec::new();
    for i in 0u8..20 {
        let mut key = [0u8; 32];
        key[0] = i;
        key[1] = i.wrapping_mul(7);
        key[4] = i.wrapping_mul(13);
        key[8] = i.wrapping_mul(19);
        key[12] = i.wrapping_mul(31);
        key[16] = i.wrapping_mul(37);
        keys.push(key);
        bloom256::insert(&mut filter, &key);
    }

    // Every inserted key must be found — zero false negatives
    for key in &keys {
        assert!(
            bloom256::may_contain(&filter, key),
            "false negative for key starting with {}",
            key[0]
        );
    }
}

#[test]
fn test_bloom256_empty() {
    let filter = [0u8; 32];
    let key = [0x42u8; 32];
    // Empty filter should not contain anything
    assert!(!bloom256::may_contain(&filter, &key));
}
