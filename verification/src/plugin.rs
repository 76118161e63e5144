//! The validator plugin: what each callback hands to which transport, and what the V2 index
//! entry of each message says.
use vstd::prelude::*;
use vstd::std_specs::convert::FromSpecImpl;

use crate::bloom256::bit_set;
use crate::bloom256::filter_of;
use crate::bloom256::insert;
use crate::bloom256::is_key_bit;
use crate::bloom256::key_inserted;
use crate::bloom256::lemma_zero_bits;
use crate::bytes::copy_bytes;
use crate::bytes::get_u64;
use crate::bytes::same_outside;
use crate::bytes::write_u64;
use crate::layout::ShmWriteMeta;
use crate::layout::FLAG_ACC_EXECUTABLE;
use crate::layout::FLAG_ACC_HAS_TXN_SIG;
use crate::layout::FLAG_TX_FAILED;
use crate::layout::FLAG_TX_IS_VOTE;
use crate::layout::MSG_TYPE_ACCOUNT;
use crate::layout::MSG_TYPE_BLOCK_META;
use crate::layout::MSG_TYPE_ENTRY;
use crate::layout::MSG_TYPE_SLOT;
use crate::layout::MSG_TYPE_TRANSACTION;

verus! {

// --- Messages ---

/// The status of a slot.
#[derive(Debug, Clone)]
pub enum SlotStatus {
    Processed,
    Confirmed,
    Rooted,
    FirstShredReceived,
    Completed,
    CreatedBank,
    Dead(String),
}

/// An account as its update reports it.
#[derive(Debug, Clone)]
pub struct AccountInfo {
    pub pubkey: Vec<u8>,
    pub owner: Vec<u8>,
    pub lamports: u64,
    pub executable: bool,
    /// The update names the transaction that caused it
    pub has_txn: bool,
}

/// A transaction as its notification reports it.
#[derive(Debug, Clone)]
pub struct TransactionInfo {
    pub signature: Vec<u8>,
    pub is_vote: bool,
    pub failed: bool,
    /// The account keys of the transaction's message
    pub account_keys: Vec<[u8; 32]>,
    /// Writable addresses loaded from lookup tables
    pub loaded_writable: Vec<[u8; 32]>,
    /// Read-only addresses loaded from lookup tables
    pub loaded_readonly: Vec<[u8; 32]>,
}

/// An entry as its notification reports it.
#[derive(Debug, Clone, Copy)]
pub struct EntryInfo {
    pub slot: u64,
    pub index: u64,
    pub executed_transaction_count: u64,
}

/// Block metadata as its notification reports it.
#[derive(Debug, Clone, Copy)]
pub struct BlockInfo {
    pub slot: u64,
}

/// A message on its way to the transports.
#[derive(Debug, Clone)]
pub enum ProtobufMessage {
    Account { slot: u64, account: AccountInfo },
    Slot { slot: u64, parent: Option<u64>, status: SlotStatus },
    Transaction { slot: u64, transaction: TransactionInfo },
    Entry { entry: EntryInfo },
    BlockMeta { blockinfo: BlockInfo },
}

impl ProtobufMessage {
    /// The slot that the message belongs to.
    pub open spec fn slot_of(self) -> u64 {
        match self {
            ProtobufMessage::Account { slot, .. } => slot,
            ProtobufMessage::Slot { slot, .. } => slot,
            ProtobufMessage::Transaction { slot, .. } => slot,
            ProtobufMessage::Entry { entry } => entry.slot,
            ProtobufMessage::BlockMeta { blockinfo } => blockinfo.slot,
        }
    }

    /// The slot that the message belongs to.
    pub fn get_slot(&self) -> (r: u64)
        ensures
            r == self.slot_of(),
    {
        match self {
            ProtobufMessage::Account { slot, .. } => *slot,
            ProtobufMessage::Slot { slot, .. } => *slot,
            ProtobufMessage::Transaction { slot, .. } => *slot,
            ProtobufMessage::Entry { entry } => entry.slot,
            ProtobufMessage::BlockMeta { blockinfo } => blockinfo.slot,
        }
    }
}

/// The kinds of messages.
#[derive(Debug, Clone, Copy, PartialEq, Eq, Structural)]
pub enum PluginNotification {
    Slot,
    Account,
    Transaction,
    Entry,
    BlockMeta,
}

impl From<&ProtobufMessage> for PluginNotification {
    fn from(value: &ProtobufMessage) -> (r: Self) {
        match value {
            ProtobufMessage::Account { .. } => PluginNotification::Account,
            ProtobufMessage::Slot { .. } => PluginNotification::Slot,
            ProtobufMessage::Transaction { .. } => PluginNotification::Transaction,
            ProtobufMessage::Entry { .. } => PluginNotification::Entry,
            ProtobufMessage::BlockMeta { .. } => PluginNotification::BlockMeta,
        }
    }
}

impl FromSpecImpl<&ProtobufMessage> for PluginNotification {
    open spec fn obeys_from_spec() -> bool {
        true
    }

    open spec fn from_spec(value: &ProtobufMessage) -> PluginNotification {
        match value {
            ProtobufMessage::Account { .. } => PluginNotification::Account,
            ProtobufMessage::Slot { .. } => PluginNotification::Slot,
            ProtobufMessage::Transaction { .. } => PluginNotification::Transaction,
            ProtobufMessage::Entry { .. } => PluginNotification::Entry,
            ProtobufMessage::BlockMeta { .. } => PluginNotification::BlockMeta,
        }
    }
}

// --- Index metadata ---

/// The first `n` bytes of `s`, filled up with zeros to `n` bytes.
pub open spec fn padded(s: Seq<u8>, n: nat) -> Seq<u8> {
    Seq::new(
        n,
        |i: int|
            if i < s.len() {
                s[i]
            } else {
                0u8
            },
    )
}

/// The bytes of `s` from `lo` on are zero.
pub open spec fn zero_from(s: Seq<u8>, lo: int) -> bool {
    forall|i: int| lo <= i < s.len() ==> #[trigger] s[i] == 0
}

/// The number that stands for a slot status.
pub open spec fn status_number(status: SlotStatus) -> u8 {
    match status {
        SlotStatus::Processed => 0,
        SlotStatus::Confirmed => 1,
        SlotStatus::Rooted => 2,
        SlotStatus::FirstShredReceived => 3,
        SlotStatus::Completed => 4,
        SlotStatus::CreatedBank => 5,
        SlotStatus::Dead(_) => 6,
    }
}

/// All accounts that a transaction names: those of its message, then those loaded from lookup
/// tables, writable before read-only.
pub open spec fn accounts_of(transaction: TransactionInfo) -> Seq<[u8; 32]> {
    transaction.account_keys@ + transaction.loaded_writable@ + transaction.loaded_readonly@
}

/// `wm` is the index metadata of `message`.
pub open spec fn is_meta_of(wm: ShmWriteMeta, message: ProtobufMessage) -> bool {
    &&& wm.slot == message.slot_of()
    &&& match message {
        ProtobufMessage::Account { account, .. } => {
            &&& wm.msg_type == MSG_TYPE_ACCOUNT
            &&& wm.flags == (if account.executable {
                FLAG_ACC_EXECUTABLE as int
            } else {
                0
            }) + (if account.has_txn {
                FLAG_ACC_HAS_TXN_SIG as int
            } else {
                0
            })
            &&& wm.meta@.subrange(0, 32) == padded(account.pubkey@, 32)
            &&& wm.meta@.subrange(32, 64) == padded(account.owner@, 32)
            &&& get_u64(wm.meta@, 64) == account.lamports
            &&& zero_from(wm.meta@, 72)
        },
        ProtobufMessage::Transaction { transaction, .. } => {
            &&& wm.msg_type == MSG_TYPE_TRANSACTION
            &&& wm.flags == (if transaction.is_vote {
                FLAG_TX_IS_VOTE as int
            } else {
                0
            }) + (if transaction.failed {
                FLAG_TX_FAILED as int
            } else {
                0
            })
            &&& wm.meta@.subrange(0, 64) == padded(transaction.signature@, 64)
            &&& filter_of(wm.meta@.subrange(64, 96), accounts_of(transaction))
        },
        ProtobufMessage::Slot { parent, status, .. } => {
            &&& wm.msg_type == MSG_TYPE_SLOT
            &&& wm.flags == status_number(status)
            &&& get_u64(wm.meta@, 0) == (match parent {
                Some(p) => p,
                None => 0,
            })
            &&& zero_from(wm.meta@, 8)
        },
        ProtobufMessage::Entry { entry } => {
            &&& wm.msg_type == MSG_TYPE_ENTRY
            &&& wm.flags == 0
            &&& get_u64(wm.meta@, 0) == entry.index
            &&& get_u64(wm.meta@, 8) == entry.executed_transaction_count
            &&& zero_from(wm.meta@, 16)
        },
        ProtobufMessage::BlockMeta { .. } => {
            &&& wm.msg_type == MSG_TYPE_BLOCK_META
            &&& wm.flags == 0
            &&& zero_from(wm.meta@, 0)
        },
    }
}

/// Copies at most `n` bytes of `src` to `dst` from `to` on.
fn put_padded(dst: &mut [u8], to: usize, n: usize, src: &Vec<u8>)
    requires
        to + n <= old(dst).len(),
        forall|i: int| to <= i < to + n ==> #[trigger] old(dst)@[i] == 0,
    ensures
        same_outside(old(dst)@, final(dst)@, to as int, to + n),
        final(dst)@.subrange(to as int, to + n) == padded(src@, n as nat),
{
    let ghost before = dst@;
    let len: usize = if src.len() < n {
        src.len()
    } else {
        n
    };
    copy_bytes(dst, to, src.as_slice(), 0, len);
    assert forall|i: int| 0 <= i < n implies #[trigger] dst@.subrange(to as int, to + n)[i]
        == padded(src@, n as nat)[i] by {
        if i < len {
            assert(dst@.subrange(to as int, to + len)[i] == src@.subrange(0, len as int)[i]);
        } else {
            assert(before[to + i] == 0);
        }
    }
    assert(dst@.subrange(to as int, to + n) =~= padded(src@, n as nat));
}

/// Inserts all of `keys` into a filter of `done`.
fn insert_all(bloom: &mut [u8; 32], keys: &Vec<[u8; 32]>, Ghost(done): Ghost<Seq<[u8; 32]>>)
    requires
        filter_of(old(bloom)@, done),
    ensures
        filter_of(final(bloom)@, done + keys@),
{
    let mut i: usize = 0;
    assert(done + keys@.take(0) =~= done);
    while i < keys.len()
        invariant
            i <= keys.len(),
            filter_of(bloom@, done + keys@.take(i as int)),
        decreases keys.len() - i,
    {
        let ghost before = bloom@;
        let ghost so_far = done + keys@.take(i as int);
        insert(bloom, &keys[i]);
        proof {
            lemma_filter_grows(before, bloom@, so_far, keys@[i as int]);
            assert(so_far.push(keys@[i as int]) =~= done + keys@.take(i + 1));
        }
        i += 1;
    }
    assert(keys@.take(keys@.len() as int) =~= keys@);
}

/// Inserting one more key makes the filter of the keys so far and this one.
proof fn lemma_filter_grows(
    before: Seq<u8>,
    after: Seq<u8>,
    keys: Seq<[u8; 32]>,
    key: [u8; 32],
)
    requires
        filter_of(before, keys),
        key_inserted(before, after, key@),
    ensures
        filter_of(after, keys.push(key)),
{
    let more = keys.push(key);
    assert forall|h: int| 0 <= h < 256 implies (#[trigger] bit_set(after, h) <==> exists|k: int|
        0 <= k < more.len() && is_key_bit(#[trigger] more[k]@, h)) by {
        if bit_set(before, h) {
            let k = choose|k: int| 0 <= k < keys.len() && is_key_bit(#[trigger] keys[k]@, h);
            assert(more[k] == keys[k]);
        }
        if is_key_bit(key@, h) {
            assert(more[keys.len() as int] == key);
        }
        if exists|k: int| 0 <= k < more.len() && is_key_bit(#[trigger] more[k]@, h) {
            let k = choose|k: int| 0 <= k < more.len() && is_key_bit(#[trigger] more[k]@, h);
            if k < keys.len() {
                assert(keys[k] == more[k]);
            }
        }
    }
}

/// Reading a little-endian zero.
proof fn lemma_zero_u64(s: Seq<u8>, off: int)
    requires
        forall|i: int| off <= i < off + 8 ==> #[trigger] s[i] == 0,
    ensures
        get_u64(s, off) == 0,
{
}

/// How messages are encoded. Both ways give the same bytes.
#[derive(Debug, Clone, Copy, PartialEq, Eq, Structural)]
pub enum ProtobufEncoder {
    /// By hand, field by field
    Raw,
    /// With the protobuf library
    Prost,
}

/// What one notification asks of the transports.
#[derive(Debug, Clone, Copy)]
pub enum Dispatch {
    /// There is no transport, or nothing to send
    Nothing,
    /// Encode with the encoder and write to shared memory
    Shm { slot: u64, write_meta: ShmWriteMeta, encoder: ProtobufEncoder },
    /// Push to the channel, to be encoded with the encoder
    Channel { encoder: ProtobufEncoder },
    /// Encode once with the encoder, write to shared memory, then push the same bytes, and the
    /// encoder, to the channel
    ShmThenChannel { slot: u64, write_meta: ShmWriteMeta, encoder: ProtobufEncoder },
}

// --- Plugin ---

/// What the plugin is configured to run.
#[derive(Debug, Clone, Copy)]
pub struct PluginConfig {
    pub metrics: bool,
    pub grpc: bool,
    pub quic: bool,
    pub shm: bool,
    /// How messages are encoded
    pub encoder: ProtobufEncoder,
    pub shutdown_timeout_secs: u64,
}

/// A server that the plugin runs.
#[derive(Debug, Clone, Copy, PartialEq, Eq, Structural)]
pub enum PluginTask {
    Grpc,
    Quic,
    Prometheus,
}

impl PluginTask {
    /// The task's name in log messages.
    pub fn name(&self) -> (r: &'static str)
        ensures
            r@ == (match self {
                PluginTask::Grpc => "gRPC Server"@,
                PluginTask::Quic => "Quic Server"@,
                PluginTask::Prometheus => "Prometheus Server"@,
            }),
    {
        match self {
            PluginTask::Grpc => "gRPC Server",
            PluginTask::Quic => "Quic Server",
            PluginTask::Prometheus => "Prometheus Server",
        }
    }
}

/// What a loaded plugin runs.
#[derive(Debug)]
pub struct PluginInner {
    /// There is a channel for subscribers
    pub messages: bool,
    /// There is a direct writer to shared memory
    pub shm_direct: bool,
    /// How messages are encoded
    pub encoder: ProtobufEncoder,
    pub shutdown_timeout_secs: u64,
    /// The servers, in the order in which they are started
    pub tasks: Vec<PluginTask>,
}

/// The servers that a configuration asks for, in the order in which they are started.
pub open spec fn tasks_of(config: PluginConfig) -> Seq<PluginTask> {
    (if config.grpc {
        seq![PluginTask::Grpc]
    } else {
        Seq::empty()
    }) + (if config.quic {
        seq![PluginTask::Quic]
    } else {
        Seq::empty()
    }) + (if config.metrics {
        seq![PluginTask::Prometheus]
    } else {
        Seq::empty()
    })
}

impl PluginInner {
    /// The channel and the direct writer that dispatching uses: `message` goes to each that is
    /// there, encoded once.
    pub open spec fn dispatches(self, message: ProtobufMessage, r: Dispatch) -> bool {
        match (self.shm_direct, self.messages) {
            (true, false) => r matches Dispatch::Shm { slot, write_meta, encoder } && slot
                == message.slot_of() && is_meta_of(write_meta, message) && encoder
                == self.encoder,
            (false, true) => r matches Dispatch::Channel { encoder } && encoder == self.encoder,
            (true, true) => r matches Dispatch::ShmThenChannel { slot, write_meta, encoder }
                && slot == message.slot_of() && is_meta_of(write_meta, message) && encoder
                == self.encoder,
            (false, false) => r is Nothing,
        }
    }

    /// Decides which transports a message goes to.
    pub fn dispatch(&self, message: &ProtobufMessage) -> (r: Dispatch)
        ensures
            self.dispatches(*message, r),
    {
        if self.shm_direct {
            let slot: u64 = message.get_slot();
            let write_meta = Self::extract_shm_meta(message);
            if self.messages {
                Dispatch::ShmThenChannel { slot, write_meta, encoder: self.encoder }
            } else {
                Dispatch::Shm { slot, write_meta, encoder: self.encoder }
            }
        } else if self.messages {
            Dispatch::Channel { encoder: self.encoder }
        } else {
            Dispatch::Nothing
        }
    }

    /// Extract metadata from a message for the V2 index entry.
    pub fn extract_shm_meta(message: &ProtobufMessage) -> (wm: ShmWriteMeta)
        ensures
            is_meta_of(wm, *message),
    {
        let mut wm = ShmWriteMeta::default();
        wm.slot = message.get_slot();
        let mut meta: [u8; 96] = [0u8; 96];
        match message {
            ProtobufMessage::Account { account, .. } => {
                wm.msg_type = MSG_TYPE_ACCOUNT;
                if account.executable {
                    wm.flags = wm.flags | FLAG_ACC_EXECUTABLE;
                }
                assert(0u8 | FLAG_ACC_EXECUTABLE == FLAG_ACC_EXECUTABLE) by (bit_vector);
                if account.has_txn {
                    wm.flags = wm.flags | FLAG_ACC_HAS_TXN_SIG;
                }
                assert(0u8 | FLAG_ACC_HAS_TXN_SIG == FLAG_ACC_HAS_TXN_SIG) by (bit_vector);
                assert(FLAG_ACC_EXECUTABLE | FLAG_ACC_HAS_TXN_SIG == 3) by (bit_vector);
                // pubkey -> meta[0..32]
                put_padded(&mut meta, 0, 32, &account.pubkey);
                let ghost one = meta@;
                // owner -> meta[32..64]
                put_padded(&mut meta, 32, 32, &account.owner);
                let ghost two = meta@;
                // lamports -> meta[64..72]
                write_u64(&mut meta, 64, account.lamports);
                assert(meta@.subrange(0, 32) =~= one.subrange(0, 32));
                assert(meta@.subrange(32, 64) =~= two.subrange(32, 64));
            },
            ProtobufMessage::Transaction { transaction, .. } => {
                wm.msg_type = MSG_TYPE_TRANSACTION;
                if transaction.is_vote {
                    wm.flags = wm.flags | FLAG_TX_IS_VOTE;
                }
                assert(0u8 | FLAG_TX_IS_VOTE == FLAG_TX_IS_VOTE) by (bit_vector);
                if transaction.failed {
                    wm.flags = wm.flags | FLAG_TX_FAILED;
                }
                assert(0u8 | FLAG_TX_FAILED == FLAG_TX_FAILED) by (bit_vector);
                assert(FLAG_TX_IS_VOTE | FLAG_TX_FAILED == 3) by (bit_vector);
                // signature -> meta[0..64]
                put_padded(&mut meta, 0, 64, &transaction.signature);
                let ghost one = meta@;
                // account bloom filter -> meta[64..96]
                let mut bloom: [u8; 32] = [0u8; 32];
                let ghost none = Seq::<[u8; 32]>::empty();
                assert(filter_of(bloom@, none)) by {
                    assert forall|h: int| 0 <= h < 256 implies !(#[trigger] bit_set(
                        bloom@,
                        h,
                    )) by {
                        lemma_zero_bits(bloom@, h);
                    }
                }
                insert_all(&mut bloom, &transaction.account_keys, Ghost(none));
                assert(none + transaction.account_keys@ =~= transaction.account_keys@);
                insert_all(
                    &mut bloom,
                    &transaction.loaded_writable,
                    Ghost(transaction.account_keys@),
                );
                insert_all(
                    &mut bloom,
                    &transaction.loaded_readonly,
                    Ghost(transaction.account_keys@ + transaction.loaded_writable@),
                );
                copy_bytes(&mut meta, 64, bloom.as_slice(), 0, 32);
                assert(bloom@.subrange(0, 32) =~= bloom@);
                assert(meta@.subrange(0, 64) =~= one.subrange(0, 64));
            },
            ProtobufMessage::Slot { status, parent, .. } => {
                wm.msg_type = MSG_TYPE_SLOT;
                wm.flags = Self::slot_status_to_u8(status);
                proof {
                    lemma_zero_u64(meta@, 0);
                }
                if let Some(p) = parent {
                    write_u64(&mut meta, 0, *p);
                }
            },
            ProtobufMessage::Entry { entry } => {
                wm.msg_type = MSG_TYPE_ENTRY;
                write_u64(&mut meta, 0, entry.index);
                write_u64(&mut meta, 8, entry.executed_transaction_count);
            },
            ProtobufMessage::BlockMeta { .. } => {
                wm.msg_type = MSG_TYPE_BLOCK_META;
            },
        }
        wm.meta = meta;
        wm
    }

    /// The number that stands for a slot status.
    pub fn slot_status_to_u8(status: &SlotStatus) -> (r: u8)
        ensures
            r == status_number(*status),
    {
        match status {
            SlotStatus::Processed => 0,
            SlotStatus::Confirmed => 1,
            SlotStatus::Rooted => 2,
            SlotStatus::FirstShredReceived => 3,
            SlotStatus::Completed => 4,
            SlotStatus::CreatedBank => 5,
            SlotStatus::Dead(_) => 6,
        }
    }

    /// What to set up for a configuration: the channel only if a server needs it.
    pub fn new(config: &PluginConfig) -> (r: Self)
        ensures
            r.messages == (config.grpc || config.quic),
            r.shm_direct == config.shm,
            r.encoder == config.encoder,
            r.shutdown_timeout_secs == config.shutdown_timeout_secs,
            r.tasks@ == tasks_of(*config),
    {
        // Determine if we need the channel (for gRPC/QUIC subscribers)
        let needs_channel = config.grpc || config.quic;
        let mut tasks: Vec<PluginTask> = Vec::with_capacity(4);
        if config.grpc {
            tasks.push(PluginTask::Grpc);
        }
        if config.quic {
            tasks.push(PluginTask::Quic);
        }
        if config.metrics {
            tasks.push(PluginTask::Prometheus);
        }
        assert(tasks@ =~= tasks_of(*config));
        PluginInner {
            messages: needs_channel,
            shm_direct: config.shm,
            encoder: config.encoder,
            shutdown_timeout_secs: config.shutdown_timeout_secs,
            tasks,
        }
    }
}

/// A step of unloading the plugin.
#[derive(Debug, Clone, Copy, PartialEq, Eq, Structural)]
pub enum UnloadStep {
    /// Close the channel
    CloseMessages,
    /// Close the direct writer
    CloseShm,
    /// Tell the servers to stop
    CancelTasks,
    /// Wait for a server to end
    JoinTask(PluginTask),
    /// Remove the region's file
    RemoveShmFile,
    /// Shut the runtime down, waiting at most that many seconds
    ShutdownRuntime(u64),
}

/// The steps of unloading what runs: close first, then stop and join the servers in the order in
/// which they were started, then remove the file, then shut the runtime down.
pub open spec fn unload_steps(inner: PluginInner) -> Seq<UnloadStep> {
    (if inner.messages {
        seq![UnloadStep::CloseMessages]
    } else {
        Seq::empty()
    }) + (if inner.shm_direct {
        seq![UnloadStep::CloseShm]
    } else {
        Seq::empty()
    }) + seq![UnloadStep::CancelTasks] + Seq::new(
        inner.tasks@.len(),
        |i: int| UnloadStep::JoinTask(inner.tasks@[i]),
    ) + (if inner.shm_direct {
        seq![UnloadStep::RemoveShmFile]
    } else {
        Seq::empty()
    }) + seq![UnloadStep::ShutdownRuntime(inner.shutdown_timeout_secs)]
}

/// Why a callback is refused.
#[derive(Debug, Clone, Copy)]
pub enum PluginError {
    Custom(&'static str),
}

/// The result is an error with this message.
pub open spec fn refused<T>(r: Result<T, PluginError>, message: Seq<char>) -> bool {
    r matches Err(PluginError::Custom(m)) && m@ == message
}

/// An account update, in one of the versions of the interface.
#[allow(non_camel_case_types)]
#[derive(Debug, Clone)]
pub enum ReplicaAccountInfoVersions {
    V0_0_1,
    V0_0_2,
    V0_0_3(AccountInfo),
}

/// A transaction notification, in one of the versions of the interface.
#[allow(non_camel_case_types)]
#[derive(Debug, Clone)]
pub enum ReplicaTransactionInfoVersions {
    V0_0_1,
    V0_0_2,
    V0_0_3(TransactionInfo),
}

/// An entry notification, in one of the versions of the interface.
#[allow(non_camel_case_types)]
#[derive(Debug, Clone, Copy)]
pub enum ReplicaEntryInfoVersions {
    V0_0_1,
    V0_0_2(EntryInfo),
}

/// A block metadata notification, in one of the versions of the interface.
#[allow(non_camel_case_types)]
#[derive(Debug, Clone, Copy)]
pub enum ReplicaBlockInfoVersions {
    V0_0_1,
    V0_0_2,
    V0_0_3,
    V0_0_4(BlockInfo),
}

/// The plugin: nothing runs until it is loaded.
#[derive(Debug)]
pub struct Plugin {
    pub inner: Option<PluginInner>,
}

impl Default for Plugin {
    fn default() -> (r: Self)
        ensures
            r.inner is None,
    {
        Plugin { inner: None }
    }
}

impl Plugin {
    /// Handling `message` gives `r`: what is running dispatches it, and nothing running is an
    /// error.
    pub open spec fn handles(
        self,
        message: ProtobufMessage,
        r: Result<Dispatch, PluginError>,
    ) -> bool {
        match self.inner {
            Some(inner) => r matches Ok(dispatch) && inner.dispatches(message, dispatch),
            None => refused(r, "plugin not initialized"@),
        }
    }

    /// What runs, if the plugin is loaded.
    pub fn get_inner(&self) -> (r: Result<&PluginInner, PluginError>)
        ensures
            match self.inner {
                Some(inner) => r == Ok::<&PluginInner, PluginError>(&inner),
                None => refused(r, "plugin not initialized"@),
            },
    {
        match &self.inner {
            Some(inner) => Ok(inner),
            None => Err(PluginError::Custom("plugin not initialized")),
        }
    }

    fn handle(&self, message: ProtobufMessage) -> (r: Result<Dispatch, PluginError>)
        ensures
            self.handles(message, r),
    {
        match self.get_inner() {
            Ok(inner) => Ok(inner.dispatch(&message)),
            Err(error) => Err(error),
        }
    }

    /// Sets up what the configuration asks for.
    pub fn on_load(&mut self, config: &PluginConfig)
        ensures
            final(self).inner matches Some(inner) && {
                &&& inner.messages == (config.grpc || config.quic)
                &&& inner.shm_direct == config.shm
                &&& inner.encoder == config.encoder
                &&& inner.shutdown_timeout_secs == config.shutdown_timeout_secs
                &&& inner.tasks@ == tasks_of(*config)
            },
    {
        self.inner = Some(PluginInner::new(config));
    }

    /// The steps that unload what runs; nothing runs afterwards.
    pub fn on_unload(&mut self) -> (r: Vec<UnloadStep>)
        ensures
            final(self).inner is None,
            r@ == (match old(self).inner {
                Some(inner) => unload_steps(inner),
                None => Seq::empty(),
            }),
    {
        let mut steps: Vec<UnloadStep> = Vec::new();
        if let Some(inner) = self.inner.take() {
            if inner.messages {
                steps.push(UnloadStep::CloseMessages);
            }
            if inner.shm_direct {
                steps.push(UnloadStep::CloseShm);
            }
            steps.push(UnloadStep::CancelTasks);
            let ghost front = steps@;
            let mut i: usize = 0;
            while i < inner.tasks.len()
                invariant
                    i <= inner.tasks.len(),
                    steps@ == front + Seq::new(
                        i as nat,
                        |j: int| UnloadStep::JoinTask(inner.tasks@[j]),
                    ),
                decreases inner.tasks.len() - i,
            {
                steps.push(UnloadStep::JoinTask(inner.tasks[i]));
                i += 1;
                assert(steps@ =~= front + Seq::new(
                    i as nat,
                    |j: int| UnloadStep::JoinTask(inner.tasks@[j]),
                ));
            }
            if inner.shm_direct {
                steps.push(UnloadStep::RemoveShmFile);
            }
            steps.push(UnloadStep::ShutdownRuntime(inner.shutdown_timeout_secs));
            assert(steps@ =~= unload_steps(inner));
        }
        steps
    }

    /// An account was updated. Updates during startup are ignored.
    pub fn update_account(
        &self,
        account: ReplicaAccountInfoVersions,
        slot: u64,
        is_startup: bool,
    ) -> (r: Result<Dispatch, PluginError>)
        ensures
            is_startup ==> (r matches Ok(dispatch) && dispatch is Nothing),
            !is_startup ==> match account {
                ReplicaAccountInfoVersions::V0_0_1 => refused(
                    r,
                    "ReplicaAccountInfoVersions::V0_0_1 is not supported"@,
                ),
                ReplicaAccountInfoVersions::V0_0_2 => refused(
                    r,
                    "ReplicaAccountInfoVersions::V0_0_2 is not supported"@,
                ),
                ReplicaAccountInfoVersions::V0_0_3(account) => self.handles(
                    ProtobufMessage::Account { slot, account },
                    r,
                ),
            },
    {
        if is_startup {
            return Ok(Dispatch::Nothing);
        }
        match account {
            ReplicaAccountInfoVersions::V0_0_1 => Err(
                PluginError::Custom("ReplicaAccountInfoVersions::V0_0_1 is not supported"),
            ),
            ReplicaAccountInfoVersions::V0_0_2 => Err(
                PluginError::Custom("ReplicaAccountInfoVersions::V0_0_2 is not supported"),
            ),
            ReplicaAccountInfoVersions::V0_0_3(account) => self.handle(
                ProtobufMessage::Account { slot, account },
            ),
        }
    }

    /// A slot changed its status.
    pub fn update_slot_status(
        &self,
        slot: u64,
        parent: Option<u64>,
        status: SlotStatus,
    ) -> (r: Result<Dispatch, PluginError>)
        ensures
            self.handles(ProtobufMessage::Slot { slot, parent, status }, r),
    {
        self.handle(ProtobufMessage::Slot { slot, parent, status })
    }

    /// A transaction was processed.
    pub fn notify_transaction(
        &self,
        transaction: ReplicaTransactionInfoVersions,
        slot: u64,
    ) -> (r: Result<Dispatch, PluginError>)
        ensures
            match transaction {
                ReplicaTransactionInfoVersions::V0_0_1 => refused(
                    r,
                    "ReplicaTransactionInfoVersions::V0_0_1 is not supported"@,
                ),
                ReplicaTransactionInfoVersions::V0_0_2 => refused(
                    r,
                    "ReplicaTransactionInfoVersions::V0_0_2 is not supported"@,
                ),
                ReplicaTransactionInfoVersions::V0_0_3(transaction) => self.handles(
                    ProtobufMessage::Transaction { slot, transaction },
                    r,
                ),
            },
    {
        match transaction {
            ReplicaTransactionInfoVersions::V0_0_1 => Err(
                PluginError::Custom("ReplicaTransactionInfoVersions::V0_0_1 is not supported"),
            ),
            ReplicaTransactionInfoVersions::V0_0_2 => Err(
                PluginError::Custom("ReplicaTransactionInfoVersions::V0_0_2 is not supported"),
            ),
            ReplicaTransactionInfoVersions::V0_0_3(transaction) => self.handle(
                ProtobufMessage::Transaction { slot, transaction },
            ),
        }
    }

    /// An entry was executed.
    pub fn notify_entry(&self, entry: ReplicaEntryInfoVersions) -> (r: Result<
        Dispatch,
        PluginError,
    >)
        ensures
            match entry {
                ReplicaEntryInfoVersions::V0_0_1 => refused(
                    r,
                    "ReplicaEntryInfoVersions::V0_0_1 is not supported"@,
                ),
                ReplicaEntryInfoVersions::V0_0_2(entry) => self.handles(
                    ProtobufMessage::Entry { entry },
                    r,
                ),
            },
    {
        match entry {
            ReplicaEntryInfoVersions::V0_0_1 => Err(
                PluginError::Custom("ReplicaEntryInfoVersions::V0_0_1 is not supported"),
            ),
            ReplicaEntryInfoVersions::V0_0_2(entry) => self.handle(
                ProtobufMessage::Entry { entry },
            ),
        }
    }

    /// The metadata of a block is known.
    pub fn notify_block_metadata(&self, blockinfo: ReplicaBlockInfoVersions) -> (r: Result<
        Dispatch,
        PluginError,
    >)
        ensures
            match blockinfo {
                ReplicaBlockInfoVersions::V0_0_1 => refused(
                    r,
                    "ReplicaBlockInfoVersions::V0_0_1 is not supported"@,
                ),
                ReplicaBlockInfoVersions::V0_0_2 => refused(
                    r,
                    "ReplicaBlockInfoVersions::V0_0_2 is not supported"@,
                ),
                ReplicaBlockInfoVersions::V0_0_3 => refused(
                    r,
                    "ReplicaBlockInfoVersions::V0_0_3 is not supported"@,
                ),
                ReplicaBlockInfoVersions::V0_0_4(blockinfo) => self.handles(
                    ProtobufMessage::BlockMeta { blockinfo },
                    r,
                ),
            },
    {
        match blockinfo {
            ReplicaBlockInfoVersions::V0_0_1 => Err(
                PluginError::Custom("ReplicaBlockInfoVersions::V0_0_1 is not supported"),
            ),
            ReplicaBlockInfoVersions::V0_0_2 => Err(
                PluginError::Custom("ReplicaBlockInfoVersions::V0_0_2 is not supported"),
            ),
            ReplicaBlockInfoVersions::V0_0_3 => Err(
                PluginError::Custom("ReplicaBlockInfoVersions::V0_0_3 is not supported"),
            ),
            ReplicaBlockInfoVersions::V0_0_4(blockinfo) => self.handle(
                ProtobufMessage::BlockMeta { blockinfo },
            ),
        }
    }
}

// --- Laws ---

/// Every server that takes its messages from the channel has one: the channel is set up whenever
/// such a server is started.
pub proof fn lemma_channel_servers_have_channel(config: PluginConfig, task: PluginTask)
    requires
        tasks_of(config).contains(task),
        task is Grpc || task is Quic,
    ensures
        config.grpc || config.quic,
{
    let i = choose|i: int| 0 <= i < tasks_of(config).len() && tasks_of(config)[i] == task;
    if !config.grpc && !config.quic {
        assert(tasks_of(config)[i] is Prometheus);
    }
}

/// A reader of the index entry gets the account's keys and balance back.
pub proof fn lemma_account_meta_read_back(wm: ShmWriteMeta, slot: u64, account: AccountInfo)
    requires
        is_meta_of(wm, ProtobufMessage::Account { slot, account }),
        account.pubkey@.len() == 32,
        account.owner@.len() == 32,
    ensures
        wm.meta@.subrange(0, 32) == account.pubkey@,
        wm.meta@.subrange(32, 64) == account.owner@,
        get_u64(wm.meta@, 64) == account.lamports,
{
    assert(padded(account.pubkey@, 32) =~= account.pubkey@);
    assert(padded(account.owner@, 32) =~= account.owner@);
}

/// A reader of the index entry gets the transaction's signature back, and its bloom filter finds
/// every account that the transaction names.
pub proof fn lemma_transaction_meta_read_back(
    wm: ShmWriteMeta,
    slot: u64,
    transaction: TransactionInfo,
    k: int,
)
    requires
        is_meta_of(wm, ProtobufMessage::Transaction { slot, transaction }),
        transaction.signature@.len() == 64,
        0 <= k < accounts_of(transaction).len(),
    ensures
        wm.meta@.subrange(0, 64) == transaction.signature@,
        crate::bloom256::contains_key(wm.meta@.subrange(64, 96), accounts_of(transaction)[k]@),
{
    assert(padded(transaction.signature@, 64) =~= transaction.signature@);
    crate::bloom256::lemma_filter_finds_its_keys(
        wm.meta@.subrange(64, 96),
        accounts_of(transaction),
        k,
    );
}

/// From the plugin to the reader nothing wanted is lost: a transaction that names a wanted
/// account passes the pre-filter on the metadata that the plugin wrote for it, unless a rule on
/// transactions, votes or failures leaves it out.
pub proof fn lemma_wanted_transaction_reaches_reader(
    wm: ShmWriteMeta,
    slot: u64,
    transaction: TransactionInfo,
    filter: crate::pre_filter::ShmPreFilter,
)
    requires
        is_meta_of(wm, ProtobufMessage::Transaction { slot, transaction }),
        filter.wants_accounts(accounts_of(transaction)),
        !filter.disable_transactions,
        !(filter.exclude_votes && transaction.is_vote),
        !(filter.exclude_failed && transaction.failed),
    ensures
        filter.accepts(wm.msg_type, wm.flags, wm.meta@),
{
    let flags = wm.flags;
    assert(0u8 & FLAG_TX_IS_VOTE == 0 && 2u8 & FLAG_TX_IS_VOTE == 0) by (bit_vector);
    assert(0u8 & FLAG_TX_FAILED == 0 && 1u8 & FLAG_TX_FAILED == 0) by (bit_vector);
    crate::pre_filter::lemma_wanted_transaction_accepted(
        filter,
        flags,
        wm.meta@,
        accounts_of(transaction),
    );
}

/// Votes and failures are told apart by the flags that the plugin writes: the pre-filter leaves
/// out exactly the transactions that the rules on them mean.
pub proof fn lemma_transaction_flags(wm: ShmWriteMeta, slot: u64, transaction: TransactionInfo)
    requires
        is_meta_of(wm, ProtobufMessage::Transaction { slot, transaction }),
    ensures
        wm.flags & FLAG_TX_IS_VOTE != 0 <==> transaction.is_vote,
        wm.flags & FLAG_TX_FAILED != 0 <==> transaction.failed,
{
    assert(0u8 & FLAG_TX_IS_VOTE == 0 && 2u8 & FLAG_TX_IS_VOTE == 0 && 1u8 & FLAG_TX_IS_VOTE != 0
        && 3u8 & FLAG_TX_IS_VOTE != 0) by (bit_vector);
    assert(0u8 & FLAG_TX_FAILED == 0 && 1u8 & FLAG_TX_FAILED == 0 && 2u8 & FLAG_TX_FAILED != 0
        && 3u8 & FLAG_TX_FAILED != 0) by (bit_vector);
}

} // verus!
