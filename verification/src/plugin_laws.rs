//! What the plugin does with a message, told by what its functions are called with and what they
//! answer.
use vstd::prelude::*;

use crate::bloom256::bit_set;
use crate::bloom256::contains_key;
use crate::bloom256::is_key_bit;
use crate::bloom256::key_bit;
use crate::bloom256::lemma_filter_depends_on_key_set;
use crate::bloom256::lemma_filter_finds_its_keys;
use crate::bytes::get_u64;
use crate::bytes::lemma_little_endian;
use crate::filter_laws::lacks_a_bit;
use crate::filter_laws::lemma_contains_bits;
use crate::filter_laws::lemma_key_bit_is_byte;
use crate::filter_laws::lemma_wanted_transaction_passes;
use crate::layout::ShmIndexEntryV2;
use crate::layout::ShmWriteMeta;
use crate::layout::FLAG_ACC_EXECUTABLE;
use crate::layout::FLAG_ACC_HAS_TXN_SIG;
use crate::layout::FLAG_TX_FAILED;
use crate::layout::FLAG_TX_IS_VOTE;
use crate::layout::MSG_TYPE_ACCOUNT;
use crate::layout::MSG_TYPE_BLOCK_META;
use crate::layout::MSG_TYPE_ENTRY;
use crate::layout::MSG_TYPE_SLOT;
use crate::layout::MSG_TYPE_TRANSACTION;
use crate::plugin::accounts_of;
use crate::plugin::is_meta_of;
use crate::plugin::padded;
use crate::plugin::AccountInfo;
use crate::plugin::BlockInfo;
use crate::plugin::Dispatch;
use crate::plugin::EntryInfo;
use crate::plugin::Plugin;
use crate::plugin::PluginConfig;
use crate::plugin::PluginError;
use crate::plugin::PluginInner;
use crate::plugin::PluginNotification;
use crate::plugin::PluginTask;
use crate::plugin::ProtobufMessage;
use crate::plugin::ReplicaAccountInfoVersions;
use crate::plugin::ReplicaBlockInfoVersions;
use crate::plugin::ReplicaEntryInfoVersions;
use crate::plugin::ReplicaTransactionInfoVersions;
use crate::plugin::SlotStatus;
use crate::plugin::TransactionInfo;
use crate::plugin::UnloadStep;
use crate::pre_filter::ShmEntryMeta;
use crate::pre_filter::ShmPreFilter;

verus! {

// --- Metadata of a transaction ---

/// The bloom filter in a transaction's metadata has all bits of each key of its message and of
/// each address loaded for it, writable or read-only.
pub proof fn lemma_bloom_names_every_account(
    message: &ProtobufMessage,
    slot: u64,
    transaction: TransactionInfo,
    wm: ShmWriteMeta,
    i: int,
)
    requires
        call_ensures(PluginInner::extract_shm_meta, (message,), wm),
        *message == (ProtobufMessage::Transaction { slot, transaction }),
    ensures
        0 <= i < transaction.account_keys@.len() ==> !lacks_a_bit(
            wm.meta@,
            transaction.account_keys@[i]@,
        ),
        0 <= i < transaction.loaded_writable@.len() ==> !lacks_a_bit(
            wm.meta@,
            transaction.loaded_writable@[i]@,
        ),
        0 <= i < transaction.loaded_readonly@.len() ==> !lacks_a_bit(
            wm.meta@,
            transaction.loaded_readonly@[i]@,
        ),
{
    let all = accounts_of(transaction);
    let bloom = wm.meta@.subrange(64, 96);
    let a = transaction.account_keys@.len() as int;
    let b = transaction.loaded_writable@.len() as int;
    if 0 <= i < transaction.account_keys@.len() {
        assert(all[i] == transaction.account_keys@[i]);
        lemma_filter_finds_its_keys(bloom, all, i);
        lemma_no_bit_lacks(wm.meta@, all[i]@);
    }
    if 0 <= i < transaction.loaded_writable@.len() {
        assert(all[a + i] == transaction.loaded_writable@[i]);
        lemma_filter_finds_its_keys(bloom, all, a + i);
        lemma_no_bit_lacks(wm.meta@, all[a + i]@);
    }
    if 0 <= i < transaction.loaded_readonly@.len() {
        assert(all[a + b + i] == transaction.loaded_readonly@[i]);
        lemma_filter_finds_its_keys(bloom, all, a + b + i);
        lemma_no_bit_lacks(wm.meta@, all[a + b + i]@);
    }
}

proof fn lemma_no_bit_lacks(meta: Seq<u8>, key: Seq<u8>)
    requires
        meta.len() == 96,
        contains_key(meta.subrange(64, 96), key),
    ensures
        !lacks_a_bit(meta, key),
{
    let bloom = meta.subrange(64, 96);
    lemma_contains_bits(bloom, key);
    if lacks_a_bit(meta, key) {
        let i = choose|i: int|
            0 <= i < 5 && meta[64 + #[trigger] key[4 * i] as int / 8] & (1u8 << ((key[4 * i] as int
                % 8) as u8)) == 0;
        assert(bloom[key[4 * i] as int / 8] == meta[64 + key[4 * i] as int / 8]);
    }
}

/// The bloom filter in a transaction's metadata has no bit that is not one of the five bits of
/// an account that the transaction names.
pub proof fn lemma_bloom_names_no_other_account(
    message: &ProtobufMessage,
    slot: u64,
    transaction: TransactionInfo,
    wm: ShmWriteMeta,
    h: int,
)
    requires
        call_ensures(PluginInner::extract_shm_meta, (message,), wm),
        *message == (ProtobufMessage::Transaction { slot, transaction }),
        0 <= h < 256,
        forall|k: int, i: int|
            0 <= k < transaction.account_keys@.len() && 0 <= i < 5
                ==> #[trigger] transaction.account_keys@[k]@[4 * i] != h,
        forall|k: int, i: int|
            0 <= k < transaction.loaded_writable@.len() && 0 <= i < 5
                ==> #[trigger] transaction.loaded_writable@[k]@[4 * i] != h,
        forall|k: int, i: int|
            0 <= k < transaction.loaded_readonly@.len() && 0 <= i < 5
                ==> #[trigger] transaction.loaded_readonly@[k]@[4 * i] != h,
    ensures
        wm.meta@[64 + h / 8] & (1u8 << ((h % 8) as u8)) == 0,
{
    let all = accounts_of(transaction);
    let bloom = wm.meta@.subrange(64, 96);
    assert(bloom[h / 8] == wm.meta@[64 + h / 8]);
    if bit_set(bloom, h) {
        let k = choose|k: int| 0 <= k < all.len() && is_key_bit(#[trigger] all[k]@, h);
        let i = choose|i: int| 0 <= i < 5 && h == #[trigger] key_bit(all[k]@, i);
        lemma_key_bit_is_byte(all[k]@, i);
        let a = transaction.account_keys@.len() as int;
        let b = transaction.loaded_writable@.len() as int;
        if k < a {
            assert(transaction.account_keys@[k]@[4 * i] != h);
        } else if k < a + b {
            assert(transaction.loaded_writable@[k - a]@[4 * i] != h);
        } else {
            assert(transaction.loaded_readonly@[k - a - b]@[4 * i] != h);
        }
    }
}

/// The rest of a transaction's metadata: its slot, its kind, its flags and its signature. The flag
/// for votes and the flag for failures are each set on their own.
pub proof fn lemma_transaction_metadata(
    message: &ProtobufMessage,
    slot: u64,
    transaction: TransactionInfo,
    wm: ShmWriteMeta,
)
    requires
        call_ensures(PluginInner::extract_shm_meta, (message,), wm),
        *message == (ProtobufMessage::Transaction { slot, transaction }),
    ensures
        wm.slot == slot,
        wm.msg_type == MSG_TYPE_TRANSACTION,
        wm.flags & FLAG_TX_IS_VOTE != 0 <==> transaction.is_vote,
        wm.flags & FLAG_TX_FAILED != 0 <==> transaction.failed,
        wm.flags < 4,
        forall|i: int|
            0 <= i < 64 && i < transaction.signature@.len() ==> #[trigger] wm.meta@[i]
                == transaction.signature@[i],
        forall|i: int| transaction.signature@.len() <= i < 64 ==> #[trigger] wm.meta@[i] == 0,
{
    crate::plugin::lemma_transaction_flags(wm, slot, transaction);
    assert forall|i: int| 0 <= i < 64 implies #[trigger] wm.meta@[i] == padded(
        transaction.signature@,
        64,
    )[i] by {
        assert(wm.meta@.subrange(0, 64)[i] == wm.meta@[i]);
    }
}

/// From the plugin to the reader nothing wanted is lost: a transaction one of whose account keys,
/// or loaded addresses, is wanted passes the pre-filter on the metadata that the plugin made for
/// it, unless transactions are left out or a rule on votes or failures is on it.
pub proof fn lemma_transaction_of_wanted_account_passes(
    message: &ProtobufMessage,
    slot: u64,
    transaction: TransactionInfo,
    wm: ShmWriteMeta,
    filter: &ShmPreFilter,
    meta: &ShmEntryMeta,
    r: bool,
    k: int,
    i: int,
)
    requires
        call_ensures(PluginInner::extract_shm_meta, (message,), wm),
        *message == (ProtobufMessage::Transaction { slot, transaction }),
        meta.msg_type == wm.msg_type,
        meta.flags == wm.flags,
        meta.meta@ == wm.meta@,
        call_ensures(ShmPreFilter::should_accept, (filter, meta), r),
        !filter.disable_transactions,
        filter.exclude_votes ==> !transaction.is_vote,
        filter.exclude_failed ==> !transaction.failed,
        0 <= k < filter.transaction_accounts@.len(),
        ({
            let wanted = filter.transaction_accounts@[k]@;
            ||| 0 <= i < transaction.account_keys@.len() && transaction.account_keys@[i]@ == wanted
            ||| 0 <= i < transaction.loaded_writable@.len() && transaction.loaded_writable@[i]@
                == wanted
            ||| 0 <= i < transaction.loaded_readonly@.len() && transaction.loaded_readonly@[i]@
                == wanted
        }),
    ensures
        r,
{
    lemma_bloom_names_every_account(message, slot, transaction, wm, i);
    lemma_transaction_metadata(message, slot, transaction, wm);
    lemma_wanted_transaction_passes(filter, meta, r, k);
}

/// The rules on votes and failures mean what the validator reports: with one set, a transaction
/// that is a vote, or that failed, is skipped.
pub proof fn lemma_excluded_transaction_skipped(
    message: &ProtobufMessage,
    slot: u64,
    transaction: TransactionInfo,
    wm: ShmWriteMeta,
    filter: &ShmPreFilter,
    meta: &ShmEntryMeta,
    r: bool,
)
    requires
        call_ensures(PluginInner::extract_shm_meta, (message,), wm),
        *message == (ProtobufMessage::Transaction { slot, transaction }),
        meta.msg_type == wm.msg_type,
        meta.flags == wm.flags,
        call_ensures(ShmPreFilter::should_accept, (filter, meta), r),
    ensures
        filter.exclude_votes && transaction.is_vote ==> !r,
        filter.exclude_failed && transaction.failed ==> !r,
{
    lemma_transaction_metadata(message, slot, transaction, wm);
}

// --- Metadata of the other messages ---

/// An account's metadata has its key, its owner and its balance, and a flag each for executable
/// accounts and for updates that name a transaction.
pub proof fn lemma_account_metadata(
    message: &ProtobufMessage,
    slot: u64,
    account: AccountInfo,
    wm: ShmWriteMeta,
)
    requires
        call_ensures(PluginInner::extract_shm_meta, (message,), wm),
        *message == (ProtobufMessage::Account { slot, account }),
    ensures
        wm.slot == slot,
        wm.msg_type == MSG_TYPE_ACCOUNT,
        wm.flags & FLAG_ACC_EXECUTABLE != 0 <==> account.executable,
        wm.flags & FLAG_ACC_HAS_TXN_SIG != 0 <==> account.has_txn,
        wm.flags < 4,
        forall|i: int|
            0 <= i < 32 && i < account.pubkey@.len() ==> #[trigger] wm.meta@[i]
                == account.pubkey@[i],
        forall|i: int| account.pubkey@.len() <= i < 32 ==> #[trigger] wm.meta@[i] == 0,
        forall|i: int|
            32 <= i < 64 && i - 32 < account.owner@.len() ==> #[trigger] wm.meta@[i]
                == account.owner@[i - 32],
        forall|i: int| 32 + account.owner@.len() <= i < 64 ==> #[trigger] wm.meta@[i] == 0,
        get_u64(wm.meta@, 64) == account.lamports,
        forall|i: int| 72 <= i < 96 ==> #[trigger] wm.meta@[i] == 0,
{
    let flags = wm.flags;
    assert(0u8 & FLAG_ACC_EXECUTABLE == 0 && 2u8 & FLAG_ACC_EXECUTABLE == 0 && 1u8
        & FLAG_ACC_EXECUTABLE != 0 && 3u8 & FLAG_ACC_EXECUTABLE != 0) by (bit_vector);
    assert(0u8 & FLAG_ACC_HAS_TXN_SIG == 0 && 1u8 & FLAG_ACC_HAS_TXN_SIG == 0 && 2u8
        & FLAG_ACC_HAS_TXN_SIG != 0 && 3u8 & FLAG_ACC_HAS_TXN_SIG != 0) by (bit_vector);
    assert forall|i: int| 0 <= i < 32 implies #[trigger] wm.meta@[i] == padded(
        account.pubkey@,
        32,
    )[i] by {
        assert(wm.meta@.subrange(0, 32)[i] == wm.meta@[i]);
    }
    assert forall|i: int| 32 <= i < 64 implies #[trigger] wm.meta@[i] == padded(
        account.owner@,
        32,
    )[i - 32] by {
        assert(wm.meta@.subrange(32, 64)[i - 32] == wm.meta@[i]);
    }
}

/// A slot update's metadata has the parent, 0 if there is none, and the number of the status.
pub proof fn lemma_slot_metadata(
    message: &ProtobufMessage,
    slot: u64,
    parent: Option<u64>,
    status: SlotStatus,
    wm: ShmWriteMeta,
)
    requires
        call_ensures(PluginInner::extract_shm_meta, (message,), wm),
        *message == (ProtobufMessage::Slot { slot, parent, status }),
    ensures
        wm.slot == slot,
        wm.msg_type == MSG_TYPE_SLOT,
        status is Processed <==> wm.flags == 0,
        status is Confirmed <==> wm.flags == 1,
        status is Rooted <==> wm.flags == 2,
        status is FirstShredReceived <==> wm.flags == 3,
        status is Completed <==> wm.flags == 4,
        status is CreatedBank <==> wm.flags == 5,
        status is Dead <==> wm.flags == 6,
        parent matches Some(p) ==> get_u64(wm.meta@, 0) == p,
        parent is None ==> get_u64(wm.meta@, 0) == 0,
        forall|i: int| 8 <= i < 96 ==> #[trigger] wm.meta@[i] == 0,
{
}

/// Each status has its own number, in the order in which the statuses are listed.
pub proof fn lemma_status_numbers(status: &SlotStatus, r: u8)
    requires
        call_ensures(PluginInner::slot_status_to_u8, (status,), r),
    ensures
        r == 0 <==> status is Processed,
        r == 1 <==> status is Confirmed,
        r == 2 <==> status is Rooted,
        r == 3 <==> status is FirstShredReceived,
        r == 4 <==> status is Completed,
        r == 5 <==> status is CreatedBank,
        r == 6 <==> status is Dead,
        r <= 6,
{
}

/// An entry's metadata has its index and the number of transactions that it executed.
pub proof fn lemma_entry_metadata(message: &ProtobufMessage, entry: EntryInfo, wm: ShmWriteMeta)
    requires
        call_ensures(PluginInner::extract_shm_meta, (message,), wm),
        *message == (ProtobufMessage::Entry { entry }),
    ensures
        wm.slot == entry.slot,
        wm.msg_type == MSG_TYPE_ENTRY,
        wm.flags == 0,
        get_u64(wm.meta@, 0) == entry.index,
        get_u64(wm.meta@, 8) == entry.executed_transaction_count,
        forall|i: int| 16 <= i < 96 ==> #[trigger] wm.meta@[i] == 0,
{
}

/// The metadata of a block says its slot and nothing else.
pub proof fn lemma_block_metadata(
    message: &ProtobufMessage,
    blockinfo: BlockInfo,
    wm: ShmWriteMeta,
)
    requires
        call_ensures(PluginInner::extract_shm_meta, (message,), wm),
        *message == (ProtobufMessage::BlockMeta { blockinfo }),
    ensures
        wm.slot == blockinfo.slot,
        wm.msg_type == MSG_TYPE_BLOCK_META,
        wm.flags == 0,
        forall|i: int| 0 <= i < 96 ==> #[trigger] wm.meta@[i] == 0,
{
}

/// A reader that looks at the fields of an index entry gets back what the plugin put there.
pub proof fn lemma_fields_read_back(
    message: &ProtobufMessage,
    wm: ShmWriteMeta,
    entry: &ShmIndexEntryV2,
    pubkey: [u8; 32],
    owner: [u8; 32],
    lamports: u64,
    signature: [u8; 64],
    parent: u64,
    index: u64,
    count: u64,
)
    requires
        call_ensures(PluginInner::extract_shm_meta, (message,), wm),
        entry.meta@ == wm.meta@,
        call_ensures(ShmIndexEntryV2::account_pubkey, (entry,), pubkey),
        call_ensures(ShmIndexEntryV2::account_owner, (entry,), owner),
        call_ensures(ShmIndexEntryV2::account_lamports, (entry,), lamports),
        call_ensures(ShmIndexEntryV2::tx_signature, (entry,), signature),
        call_ensures(ShmIndexEntryV2::slot_parent, (entry,), parent),
        call_ensures(ShmIndexEntryV2::entry_index, (entry,), index),
        call_ensures(ShmIndexEntryV2::entry_exec_tx_count, (entry,), count),
    ensures
        *message matches ProtobufMessage::Account { account, .. } ==> {
            &&& account.pubkey@.len() == 32 ==> pubkey@ == account.pubkey@
            &&& account.owner@.len() == 32 ==> owner@ == account.owner@
            &&& lamports == account.lamports
        },
        *message matches ProtobufMessage::Transaction { transaction, .. } ==> {
            transaction.signature@.len() == 64 ==> signature@ == transaction.signature@
        },
        *message matches ProtobufMessage::Slot { parent: Some(p), .. } ==> parent == p,
        *message matches ProtobufMessage::Entry { entry } ==> {
            &&& index == entry.index
            &&& count == entry.executed_transaction_count
        },
{
    match *message {
        ProtobufMessage::Account { slot, account } => {
            if account.pubkey@.len() == 32 {
                assert(padded(account.pubkey@, 32) =~= account.pubkey@);
            }
            if account.owner@.len() == 32 {
                assert(padded(account.owner@, 32) =~= account.owner@);
            }
        },
        ProtobufMessage::Transaction { slot, transaction } => {
            if transaction.signature@.len() == 64 {
                assert(padded(transaction.signature@, 64) =~= transaction.signature@);
            }
        },
        _ => {},
    }
}

/// The bloom filter that a reader gets from an index entry finds every account of the transaction
/// that the entry was made for.
pub proof fn lemma_bloom_read_back(
    message: &ProtobufMessage,
    slot: u64,
    transaction: TransactionInfo,
    wm: ShmWriteMeta,
    entry: &ShmIndexEntryV2,
    bloom: [u8; 32],
    key: &[u8; 32],
    found: bool,
    i: int,
)
    requires
        call_ensures(PluginInner::extract_shm_meta, (message,), wm),
        *message == (ProtobufMessage::Transaction { slot, transaction }),
        entry.meta@ == wm.meta@,
        call_ensures(ShmIndexEntryV2::tx_account_bloom, (entry,), bloom),
        call_ensures(crate::bloom256::may_contain, (&bloom, key), found),
        ({
            ||| 0 <= i < transaction.account_keys@.len() && transaction.account_keys@[i]@ == key@
            ||| 0 <= i < transaction.loaded_writable@.len() && transaction.loaded_writable@[i]@
                == key@
            ||| 0 <= i < transaction.loaded_readonly@.len() && transaction.loaded_readonly@[i]@
                == key@
        }),
    ensures
        found,
{
    lemma_bloom_names_every_account(message, slot, transaction, wm, i);
    assert forall|g: int| 0 <= g < 5 implies bloom@[#[trigger] key@[4 * g] as int / 8] & (1u8 << ((
    key@[4 * g] as int % 8) as u8)) != 0 by {
        assert(bloom@[key@[4 * g] as int / 8] == wm.meta@[64 + key@[4 * g] as int / 8]);
    }
    lemma_contains_bits(bloom@, key@);
}

// --- Dispatching ---

/// A message has one metadata: two extractions give the same, byte for byte.
proof fn lemma_metadata_unique(message: ProtobufMessage, a: ShmWriteMeta, b: ShmWriteMeta)
    requires
        is_meta_of(a, message),
        is_meta_of(b, message),
    ensures
        a.slot == b.slot,
        a.msg_type == b.msg_type,
        a.flags == b.flags,
        a.meta@ == b.meta@,
{
    let x = a.meta@;
    let y = b.meta@;
    lemma_little_endian(x, 0);
    lemma_little_endian(y, 0);
    lemma_little_endian(x, 8);
    lemma_little_endian(y, 8);
    lemma_little_endian(x, 64);
    lemma_little_endian(y, 64);
    match message {
        ProtobufMessage::Account { .. } => {
            assert forall|i: int| 0 <= i < 96 implies x[i] == y[i] by {
                if i < 32 {
                    assert(x.subrange(0, 32)[i] == y.subrange(0, 32)[i]);
                } else if i < 64 {
                    assert(x.subrange(32, 64)[i - 32] == y.subrange(32, 64)[i - 32]);
                } else if i < 72 {
                    assert(x[64] == y[64] && x[65] == y[65] && x[66] == y[66] && x[67] == y[67]);
                    assert(x[68] == y[68] && x[69] == y[69] && x[70] == y[70] && x[71] == y[71]);
                }
            }
        },
        ProtobufMessage::Transaction { transaction, .. } => {
            let all = accounts_of(transaction);
            lemma_filter_depends_on_key_set(x.subrange(64, 96), all, y.subrange(64, 96), all);
            assert forall|i: int| 0 <= i < 96 implies x[i] == y[i] by {
                if i < 64 {
                    assert(x.subrange(0, 64)[i] == y.subrange(0, 64)[i]);
                } else {
                    assert(x.subrange(64, 96)[i - 64] == y.subrange(64, 96)[i - 64]);
                }
            }
        },
        ProtobufMessage::Slot { .. } => {
            assert(x[0] == y[0] && x[1] == y[1] && x[2] == y[2] && x[3] == y[3]);
            assert(x[4] == y[4] && x[5] == y[5] && x[6] == y[6] && x[7] == y[7]);
        },
        ProtobufMessage::Entry { .. } => {
            assert(x[0] == y[0] && x[1] == y[1] && x[2] == y[2] && x[3] == y[3]);
            assert(x[4] == y[4] && x[5] == y[5] && x[6] == y[6] && x[7] == y[7]);
            assert(x[8] == y[8] && x[9] == y[9] && x[10] == y[10] && x[11] == y[11]);
            assert(x[12] == y[12] && x[13] == y[13] && x[14] == y[14] && x[15] == y[15]);
        },
        ProtobufMessage::BlockMeta { .. } => {},
    }
    assert(x =~= y);
}

/// A message goes to shared memory exactly if there is a direct writer, and to the channel exactly
/// if there is one, each time with the plugin's encoder; shared memory gets the slot and the
/// metadata that the message has.
pub proof fn lemma_dispatch_serves_each_transport(
    inner: &PluginInner,
    message: &ProtobufMessage,
    r: Dispatch,
    slot: u64,
    wm: ShmWriteMeta,
)
    requires
        call_ensures(PluginInner::dispatch, (inner, message), r),
        call_ensures(ProtobufMessage::get_slot, (message,), slot),
        call_ensures(PluginInner::extract_shm_meta, (message,), wm),
    ensures
        (r is Shm || r is ShmThenChannel) <==> inner.shm_direct,
        (r is Channel || r is ShmThenChannel) <==> inner.messages,
        r matches Dispatch::Channel { encoder } ==> encoder == inner.encoder,
        r matches Dispatch::Shm { slot: s, write_meta, encoder } ==> {
            &&& encoder == inner.encoder
            &&& s == slot
            &&& write_meta.slot == wm.slot
            &&& write_meta.msg_type == wm.msg_type
            &&& write_meta.flags == wm.flags
            &&& write_meta.meta@ == wm.meta@
        },
        r matches Dispatch::ShmThenChannel { slot: s, write_meta, encoder } ==> {
            &&& encoder == inner.encoder
            &&& s == slot
            &&& write_meta.slot == wm.slot
            &&& write_meta.msg_type == wm.msg_type
            &&& write_meta.flags == wm.flags
            &&& write_meta.meta@ == wm.meta@
        },
        message matches ProtobufMessage::Account { slot: s, .. } ==> slot == s,
        message matches ProtobufMessage::Slot { slot: s, .. } ==> slot == s,
        message matches ProtobufMessage::Transaction { slot: s, .. } ==> slot == s,
        message matches ProtobufMessage::Entry { entry } ==> slot == entry.slot,
        message matches ProtobufMessage::BlockMeta { blockinfo } ==> slot == blockinfo.slot,
{
    match r {
        Dispatch::Shm { write_meta, .. } => {
            lemma_metadata_unique(*message, write_meta, wm);
        },
        Dispatch::ShmThenChannel { write_meta, .. } => {
            lemma_metadata_unique(*message, write_meta, wm);
        },
        _ => {},
    }
}

/// Two dispatches ask the same of the transports.
pub open spec fn same_dispatch(a: Dispatch, b: Dispatch) -> bool {
    match (a, b) {
        (Dispatch::Nothing, Dispatch::Nothing) => true,
        (Dispatch::Channel { encoder: x }, Dispatch::Channel { encoder: y }) => x == y,
        (
            Dispatch::Shm { slot, write_meta: x, encoder },
            Dispatch::Shm { slot: other_slot, write_meta: y, encoder: other_encoder },
        ) => slot == other_slot && encoder == other_encoder && same_meta(x, y),
        (
            Dispatch::ShmThenChannel { slot, write_meta: x, encoder },
            Dispatch::ShmThenChannel { slot: other_slot, write_meta: y, encoder: other_encoder },
        ) => slot == other_slot && encoder == other_encoder && same_meta(x, y),
        _ => false,
    }
}

/// Two metadata are the same, field by field and byte by byte.
pub open spec fn same_meta(a: ShmWriteMeta, b: ShmWriteMeta) -> bool {
    a.msg_type == b.msg_type && a.flags == b.flags && a.slot == b.slot && a.meta@ == b.meta@
}

proof fn lemma_dispatch_unique(
    inner: PluginInner,
    message: ProtobufMessage,
    a: Dispatch,
    b: Dispatch,
)
    requires
        inner.dispatches(message, a),
        inner.dispatches(message, b),
    ensures
        same_dispatch(a, b),
{
    match (a, b) {
        (Dispatch::Shm { write_meta: x, .. }, Dispatch::Shm { write_meta: y, .. }) => {
            lemma_metadata_unique(message, x, y);
        },
        (
            Dispatch::ShmThenChannel { write_meta: x, .. },
            Dispatch::ShmThenChannel { write_meta: y, .. },
        ) => {
            lemma_metadata_unique(message, x, y);
        },
        _ => {},
    }
}

/// An account update is dispatched as a message that says its slot and its account, if it is of
/// the current version and does not come during startup; during startup there is nothing to do,
/// and older versions are refused.
pub proof fn lemma_account_update_is_dispatched(
    plugin: &Plugin,
    account: ReplicaAccountInfoVersions,
    slot: u64,
    is_startup: bool,
    r: Result<Dispatch, PluginError>,
    d: Dispatch,
)
    requires
        call_ensures(Plugin::update_account, (plugin, account, slot, is_startup), r),
        (plugin.inner matches Some(inner) && account matches ReplicaAccountInfoVersions::V0_0_3(
            info,
        )) ==> call_ensures(
            PluginInner::dispatch,
            (
                &plugin.inner->0,
                &ProtobufMessage::Account { slot, account: account->V0_0_3_0 },
            ),
            d,
        ),
    ensures
        is_startup ==> r matches Ok(Dispatch::Nothing),
        !is_startup && !(account is V0_0_3) ==> r is Err,
        !is_startup && plugin.inner is None ==> r is Err,
        !is_startup && account is V0_0_3 && plugin.inner is Some ==> (r matches Ok(given)
            && same_dispatch(given, d)),
{
    if !is_startup && account is V0_0_3 && plugin.inner is Some {
        lemma_dispatch_unique(
            plugin.inner->0,
            ProtobufMessage::Account { slot, account: account->V0_0_3_0 },
            r->Ok_0,
            d,
        );
    }
}

/// A slot update is dispatched as a message that says its slot, its parent and its status.
pub proof fn lemma_slot_update_is_dispatched(
    plugin: &Plugin,
    slot: u64,
    parent: Option<u64>,
    status: SlotStatus,
    r: Result<Dispatch, PluginError>,
    d: Dispatch,
)
    requires
        call_ensures(Plugin::update_slot_status, (plugin, slot, parent, status), r),
        plugin.inner is Some ==> call_ensures(
            PluginInner::dispatch,
            (&plugin.inner->0, &ProtobufMessage::Slot { slot, parent, status }),
            d,
        ),
    ensures
        plugin.inner is None ==> r is Err,
        plugin.inner is Some ==> (r matches Ok(given) && same_dispatch(given, d)),
{
    if plugin.inner is Some {
        lemma_dispatch_unique(
            plugin.inner->0,
            ProtobufMessage::Slot { slot, parent, status },
            r->Ok_0,
            d,
        );
    }
}

/// A transaction of the current version is dispatched as a message that says its slot and what
/// it reports; older versions are refused.
pub proof fn lemma_transaction_is_dispatched(
    plugin: &Plugin,
    transaction: ReplicaTransactionInfoVersions,
    slot: u64,
    r: Result<Dispatch, PluginError>,
    d: Dispatch,
)
    requires
        call_ensures(Plugin::notify_transaction, (plugin, transaction, slot), r),
        plugin.inner is Some && transaction is V0_0_3 ==> call_ensures(
            PluginInner::dispatch,
            (
                &plugin.inner->0,
                &ProtobufMessage::Transaction { slot, transaction: transaction->V0_0_3_0 },
            ),
            d,
        ),
    ensures
        !(transaction is V0_0_3) ==> r is Err,
        plugin.inner is None ==> r is Err,
        transaction is V0_0_3 && plugin.inner is Some ==> (r matches Ok(given) && same_dispatch(
            given,
            d,
        )),
{
    if transaction is V0_0_3 && plugin.inner is Some {
        lemma_dispatch_unique(
            plugin.inner->0,
            ProtobufMessage::Transaction { slot, transaction: transaction->V0_0_3_0 },
            r->Ok_0,
            d,
        );
    }
}

/// An entry of the current version is dispatched as it is; the older version is refused.
pub proof fn lemma_entry_is_dispatched(
    plugin: &Plugin,
    entry: ReplicaEntryInfoVersions,
    r: Result<Dispatch, PluginError>,
    d: Dispatch,
)
    requires
        call_ensures(Plugin::notify_entry, (plugin, entry), r),
        plugin.inner is Some && entry is V0_0_2 ==> call_ensures(
            PluginInner::dispatch,
            (&plugin.inner->0, &ProtobufMessage::Entry { entry: entry->V0_0_2_0 }),
            d,
        ),
    ensures
        !(entry is V0_0_2) ==> r is Err,
        plugin.inner is None ==> r is Err,
        entry is V0_0_2 && plugin.inner is Some ==> (r matches Ok(given) && same_dispatch(
            given,
            d,
        )),
{
    if entry is V0_0_2 && plugin.inner is Some {
        lemma_dispatch_unique(
            plugin.inner->0,
            ProtobufMessage::Entry { entry: entry->V0_0_2_0 },
            r->Ok_0,
            d,
        );
    }
}

/// Block metadata of the current version is dispatched as it is; older versions are refused.
pub proof fn lemma_block_is_dispatched(
    plugin: &Plugin,
    blockinfo: ReplicaBlockInfoVersions,
    r: Result<Dispatch, PluginError>,
    d: Dispatch,
)
    requires
        call_ensures(Plugin::notify_block_metadata, (plugin, blockinfo), r),
        plugin.inner is Some && blockinfo is V0_0_4 ==> call_ensures(
            PluginInner::dispatch,
            (&plugin.inner->0, &ProtobufMessage::BlockMeta { blockinfo: blockinfo->V0_0_4_0 }),
            d,
        ),
    ensures
        !(blockinfo is V0_0_4) ==> r is Err,
        plugin.inner is None ==> r is Err,
        blockinfo is V0_0_4 && plugin.inner is Some ==> (r matches Ok(given) && same_dispatch(
            given,
            d,
        )),
{
    if blockinfo is V0_0_4 && plugin.inner is Some {
        lemma_dispatch_unique(
            plugin.inner->0,
            ProtobufMessage::BlockMeta { blockinfo: blockinfo->V0_0_4_0 },
            r->Ok_0,
            d,
        );
    }
}

/// What runs is there to be asked exactly while the plugin is loaded.
pub proof fn lemma_loaded_plugin_has_inner(
    plugin: &Plugin,
    r: Result<&PluginInner, PluginError>,
    fresh: Plugin,
)
    requires
        call_ensures(Plugin::get_inner, (plugin,), r),
        call_ensures(Plugin::default, (), fresh),
    ensures
        plugin.inner is Some <==> r is Ok,
        r matches Ok(inner) ==> Some(*inner) == plugin.inner,
        fresh.inner is None,
{
}

/// Each server has its own name.
pub proof fn lemma_names_of_servers(task: &PluginTask, r: &'static str)
    requires
        call_ensures(PluginTask::name, (task,), r),
    ensures
        task is Grpc ==> r@ == "gRPC Server"@,
        task is Quic ==> r@ == "Quic Server"@,
        task is Prometheus ==> r@ == "Prometheus Server"@,
{
}

/// A message is of the kind that it says.
pub proof fn lemma_kind_of_a_message(message: &ProtobufMessage, r: PluginNotification)
    requires
        call_ensures(<PluginNotification as From<&ProtobufMessage>>::from, (message,), r),
    ensures
        r is Account <==> message is Account,
        r is Slot <==> message is Slot,
        r is Transaction <==> message is Transaction,
        r is Entry <==> message is Entry,
        r is BlockMeta <==> message is BlockMeta,
{
}

// --- Loading and unloading ---

/// A loaded plugin runs what is configured: each server exactly if it is configured, and in the
/// order gRPC, Quic, metrics; a channel exactly if gRPC or Quic needs it; a direct writer exactly
/// if shared memory is configured.
pub proof fn lemma_loading_runs_what_is_configured(plugin: &mut Plugin, config: &PluginConfig)
    requires
        call_ensures(Plugin::on_load, (plugin, config), ()),
    ensures
        final(plugin).inner matches Some(inner) && {
            let tasks = inner.tasks@;
            let grpc: int = if config.grpc {
                1
            } else {
                0
            };
            let quic: int = if config.quic {
                1
            } else {
                0
            };
            let metrics: int = if config.metrics {
                1
            } else {
                0
            };
            &&& tasks.len() == grpc + quic + metrics
            &&& config.grpc ==> tasks[0] is Grpc
            &&& config.quic ==> tasks[grpc] is Quic
            &&& config.metrics ==> tasks[grpc + quic] is Prometheus
            &&& inner.messages <==> config.grpc || config.quic
            &&& inner.shm_direct <==> config.shm
            &&& inner.encoder == config.encoder
            &&& inner.shutdown_timeout_secs == config.shutdown_timeout_secs
        },
{
}

/// Unloading closes what takes messages before it stops anything, tells the servers to stop before
/// it waits for them, waits for each of them once and in the order in which they were started,
/// removes the file only then, and shuts the runtime down last. Nothing runs afterwards.
pub proof fn lemma_unloading_in_order(
    plugin: &mut Plugin,
    inner: PluginInner,
    steps: Vec<UnloadStep>,
)
    requires
        call_ensures(Plugin::on_unload, (plugin,), steps),
        plugin.inner == Some(inner),
    ensures
        final(plugin).inner is None,
        ({
            let n = inner.tasks@.len() as int;
            let messages: int = if inner.messages {
                1
            } else {
                0
            };
            let shm: int = if inner.shm_direct {
                1
            } else {
                0
            };
            let cancel = messages + shm;
            &&& steps@.len() == cancel + 1 + n + shm + 1
            &&& inner.messages ==> steps@[0] is CloseMessages
            &&& inner.shm_direct ==> steps@[messages] is CloseShm
            &&& steps@[cancel] is CancelTasks
            &&& forall|i: int|
                0 <= i < n ==> #[trigger] steps@[cancel + 1 + i] == UnloadStep::JoinTask(
                    inner.tasks@[i],
                )
            &&& inner.shm_direct ==> steps@[cancel + 1 + n] is RemoveShmFile
            &&& steps@.last() == UnloadStep::ShutdownRuntime(inner.shutdown_timeout_secs)
        }),
{
}

/// Unloading what is not loaded does nothing.
pub proof fn lemma_unloading_nothing(plugin: &mut Plugin, steps: Vec<UnloadStep>)
    requires
        call_ensures(Plugin::on_unload, (plugin,), steps),
        plugin.inner is None,
    ensures
        final(plugin).inner is None,
        steps@.len() == 0,
{
}

/// A plugin that is loaded and then unloaded waits for exactly the servers that are configured.
pub proof fn lemma_unloading_joins_what_was_loaded(
    plugin: &mut Plugin,
    config: &PluginConfig,
    loaded: &mut Plugin,
    steps: Vec<UnloadStep>,
)
    requires
        call_ensures(Plugin::on_load, (plugin, config), ()),
        *loaded == *final(plugin),
        call_ensures(Plugin::on_unload, (loaded,), steps),
    ensures
        steps@.contains(UnloadStep::JoinTask(PluginTask::Grpc)) <==> config.grpc,
        steps@.contains(UnloadStep::JoinTask(PluginTask::Quic)) <==> config.quic,
        steps@.contains(UnloadStep::JoinTask(PluginTask::Prometheus)) <==> config.metrics,
        steps@.contains(UnloadStep::RemoveShmFile) <==> config.shm,
{
    lemma_loading_runs_what_is_configured(plugin, config);
    let inner = old(loaded).inner->0;
    lemma_unloading_in_order(loaded, inner, steps);
    let grpc: int = if config.grpc {
        1
    } else {
        0
    };
    let quic: int = if config.quic {
        1
    } else {
        0
    };
    let cancel: int = (if inner.messages {
        1int
    } else {
        0
    }) + (if inner.shm_direct {
        1int
    } else {
        0
    });
    if config.grpc {
        assert(steps@[cancel + 1 + 0] == UnloadStep::JoinTask(PluginTask::Grpc));
    }
    if config.quic {
        assert(steps@[cancel + 1 + grpc] == UnloadStep::JoinTask(PluginTask::Quic));
    }
    if config.metrics {
        assert(steps@[cancel + 1 + (grpc + quic)] == UnloadStep::JoinTask(PluginTask::Prometheus));
    }
    if config.shm {
        assert(steps@[cancel + 1 + inner.tasks@.len()] == UnloadStep::RemoveShmFile);
    }
    assert forall|i: int| 0 <= i < steps@.len() implies {
        &&& steps@[i] == UnloadStep::JoinTask(PluginTask::Grpc) ==> config.grpc
        &&& steps@[i] == UnloadStep::JoinTask(PluginTask::Quic) ==> config.quic
        &&& steps@[i] == UnloadStep::JoinTask(PluginTask::Prometheus) ==> config.metrics
        &&& #[trigger] steps@[i] == UnloadStep::RemoveShmFile ==> config.shm
    } by {
        let k = i - cancel - 1;
        if 0 <= k < inner.tasks@.len() {
            assert(steps@[cancel + 1 + k] == UnloadStep::JoinTask(inner.tasks@[k]));
        }
    }
}

} // verus!

