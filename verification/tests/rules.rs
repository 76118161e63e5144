use richat_shm::bloom256;
use richat_shm::config::{ConfigAppsRichat, ConfigShmFilter, ConfigShmPreFilter, ConfigShmServer,
    RichatFilter};
use richat_shm::layout::{
    LayoutError, FLAG_ACC_EXECUTABLE, FLAG_ACC_HAS_TXN_SIG, FLAG_TX_FAILED, FLAG_TX_IS_VOTE,
    MSG_TYPE_ACCOUNT, MSG_TYPE_BLOCK_META, MSG_TYPE_ENTRY, MSG_TYPE_SLOT, MSG_TYPE_TRANSACTION,
};
use richat_shm::plugin::{
    AccountInfo, BlockInfo, Dispatch, EntryInfo, Plugin, PluginConfig, PluginError, PluginInner,
    PluginNotification, PluginTask, ProtobufEncoder, ProtobufMessage,
    ReplicaAccountInfoVersions, ReplicaBlockInfoVersions, ReplicaEntryInfoVersions,
    ReplicaTransactionInfoVersions, SlotStatus, TransactionInfo, UnloadStep,
};
use richat_shm::pre_filter::{ShmEntryMeta, ShmPreFilter};
use richat_shm::quantity::{parse_count, parse_size};
use richat_shm::server::{
    RichatServer, ServerAction, ServerEvent, ServerPhase, ServerTask, ShmServer,
};
use richat_shm::source::{
    keep_parsed, subscription_start, Backoff, Parsed, PollAction, ReceiveError, Reconnect,
    ReconnectAction, ReconnectEvent, ReconnectPhase, SourceConfig, SourceNames, Subscription,
    SubscriptionStart, Subscriptions,
};

// --- Bloom filter ---

#[test]
fn bloom_sets_the_bits_that_the_key_names() {
    let mut key = [0u8; 32];
    // Groups of four little-endian bytes modulo 256: only the first byte of each counts.
    key[0..4].copy_from_slice(&[3, 9, 9, 9]);
    key[4] = 8;
    key[8] = 255;
    key[12] = 3;
    key[16] = 64;
    key[20] = 100; // not part of the hash
    let mut filter = [0u8; 32];
    bloom256::insert(&mut filter, &key);
    let mut expected = [0u8; 32];
    expected[0] = 0b0000_1000;
    expected[1] = 0b0000_0001;
    expected[31] = 0b1000_0000;
    expected[8] = 0b0000_0001;
    assert_eq!(filter, expected);
    // A false positive: another key with the same bits.
    let mut twin = key;
    twin[20] = 1;
    twin[1] = 0;
    assert!(bloom256::may_contain(&filter, &twin));
    twin[16] = 65;
    assert!(!bloom256::may_contain(&filter, &twin));
}

// --- Pre-filter ---

fn meta(msg_type: u8, flags: u8, bytes: [u8; 96]) -> ShmEntryMeta {
    ShmEntryMeta { msg_type, flags, slot: 0, meta: bytes }
}

#[test]
fn bloom_depends_on_the_set_of_keys_alone() {
    let keys: Vec<[u8; 32]> = (0..6u8).map(|i| [37 * i + 1; 32]).collect();
    let build = |order: &[usize]| {
        let mut filter = [0u8; 32];
        for i in order {
            bloom256::insert(&mut filter, &keys[*i]);
        }
        filter
    };
    let filter = build(&[0, 1, 2, 3, 4, 5]);
    assert_eq!(build(&[5, 3, 1, 0, 2, 4]), filter);
    assert_eq!(build(&[0, 0, 1, 2, 3, 4, 5, 1]), filter);
    assert_ne!(build(&[0, 1, 2, 3, 4]), filter);
}

fn filter(change: impl FnOnce(&mut ConfigShmPreFilter)) -> ShmPreFilter {
    let mut config = ConfigShmPreFilter::default();
    change(&mut config);
    ShmPreFilter::from_config(Some(config))
}

#[test]
fn filter_without_rules_accepts_all() {
    for f in [ShmPreFilter::from_config(None), filter(|_| ())] {
        assert!(f.is_noop());
        for msg_type in 0..=255 {
            assert!(f.should_accept(&meta(msg_type, 0xFF, [0; 96])));
        }
    }
}

#[test]
fn disabled_kinds_are_left_out() {
    let rules = [
        (filter(|c| c.disable_accounts = true), MSG_TYPE_ACCOUNT),
        (filter(|c| c.disable_transactions = true), MSG_TYPE_TRANSACTION),
        (filter(|c| c.disable_entries = true), MSG_TYPE_ENTRY),
    ];
    for (f, disabled) in &rules {
        assert!(!f.is_noop());
        for msg_type in 0..=255 {
            assert_eq!(
                f.should_accept(&meta(msg_type, 0, [0; 96])),
                msg_type != *disabled
            );
        }
    }
}

#[test]
fn votes_and_failures_are_left_out() {
    let votes = filter(|c| c.exclude_votes = true);
    let failed = filter(|c| c.exclude_failed = true);
    assert!(!votes.is_noop() && !failed.is_noop());
    let tx = |flags| meta(MSG_TYPE_TRANSACTION, flags, [0; 96]);
    assert!(votes.should_accept(&tx(0)));
    assert!(!votes.should_accept(&tx(FLAG_TX_IS_VOTE)));
    assert!(votes.should_accept(&tx(FLAG_TX_FAILED)));
    assert!(!votes.should_accept(&tx(FLAG_TX_IS_VOTE | FLAG_TX_FAILED)));
    assert!(!failed.should_accept(&tx(FLAG_TX_FAILED)));
    assert!(failed.should_accept(&tx(FLAG_TX_IS_VOTE)));
    // The same bits mean other things on accounts.
    assert!(votes.should_accept(&meta(MSG_TYPE_ACCOUNT, 0xFF, [0; 96])));
}

#[test]
fn account_keys_and_owners_are_matched() {
    let f = filter(|c| {
        c.account_pubkeys = vec![[1; 32], [2; 32], [1; 32]];
        c.account_owners = vec![[7; 32]];
    });
    assert_eq!(f.account_pubkeys, vec![[1; 32], [2; 32]]);
    assert!(!f.is_noop());
    let mut bytes = [0u8; 96];
    bytes[0..32].copy_from_slice(&[2; 32]);
    bytes[32..64].copy_from_slice(&[7; 32]);
    assert!(f.should_accept(&meta(MSG_TYPE_ACCOUNT, 0, bytes)));
    bytes[63] = 8;
    assert!(!f.should_accept(&meta(MSG_TYPE_ACCOUNT, 0, bytes)));
    bytes[63] = 7;
    bytes[0] = 3;
    assert!(!f.should_accept(&meta(MSG_TYPE_ACCOUNT, 0, bytes)));
    assert!(f.should_accept(&meta(MSG_TYPE_TRANSACTION, 0, bytes)));
}

#[test]
fn transaction_accounts_go_through_the_bloom_filter() {
    let f = filter(|c| c.transaction_accounts = vec![[9; 32], [10; 32]]);
    assert!(!f.is_noop());
    let mut bloom = [0u8; 32];
    let mut bytes = [0u8; 96];
    assert!(!f.should_accept(&meta(MSG_TYPE_TRANSACTION, 0, bytes)));
    bloom256::insert(&mut bloom, &[10; 32]);
    bytes[64..96].copy_from_slice(&bloom);
    assert!(f.should_accept(&meta(MSG_TYPE_TRANSACTION, 0, bytes)));
    assert!(f.confirms(&vec![[1; 32], [10; 32]]));
    assert!(!f.confirms(&vec![[1; 32]]));
    assert!(filter(|_| ()).confirms(&vec![]));
}

#[test]
fn parsed_messages_are_kept_or_passed_over() {
    let f = filter(|c| c.transaction_accounts = vec![[9; 32]]);
    let plain: Parsed<u32, &str> = Parsed::Message { message: 5, account_keys: None };
    assert!(matches!(keep_parsed(&f, plain), Some(Ok(5))));
    let named: Parsed<u32, &str> =
        Parsed::Message { message: 6, account_keys: Some(vec![[9; 32]]) };
    assert!(matches!(keep_parsed(&f, named), Some(Ok(6))));
    let other: Parsed<u32, &str> =
        Parsed::Message { message: 7, account_keys: Some(vec![[8; 32]]) };
    assert!(keep_parsed(&f, other).is_none());
    assert!(keep_parsed(&f, Parsed::<u32, &str>::Ping).is_none());
    assert!(matches!(
        keep_parsed(&f, Parsed::<u32, &str>::Error("bad")),
        Some(Err(ReceiveError::Parse("bad")))
    ));
}

#[test]
fn every_rule_skips_some_message() {
    let skipped = |change: fn(&mut ConfigShmPreFilter), msg_type: u8, flags: u8| {
        let f = filter(change);
        !f.is_noop()
            && !f.should_accept(&ShmEntryMeta { msg_type, flags, slot: 0, meta: [0; 96] })
    };
    assert!(skipped(|c| c.disable_accounts = true, MSG_TYPE_ACCOUNT, 0));
    assert!(skipped(|c| c.disable_transactions = true, MSG_TYPE_TRANSACTION, 0));
    assert!(skipped(|c| c.disable_entries = true, MSG_TYPE_ENTRY, 0));
    assert!(skipped(|c| c.exclude_votes = true, MSG_TYPE_TRANSACTION, FLAG_TX_IS_VOTE));
    assert!(skipped(|c| c.exclude_failed = true, MSG_TYPE_TRANSACTION, FLAG_TX_FAILED));
    assert!(skipped(|c| c.account_pubkeys = vec![[1; 32]], MSG_TYPE_ACCOUNT, 0));
    assert!(skipped(|c| c.account_owners = vec![[1; 32]], MSG_TYPE_ACCOUNT, 0));
    assert!(skipped(|c| c.transaction_accounts = vec![[1; 32]], MSG_TYPE_TRANSACTION, 0));
}

// --- Plugin ---

fn account() -> AccountInfo {
    AccountInfo {
        pubkey: vec![1; 32],
        owner: vec![2; 32],
        lamports: 0x0102_0304_0506_0708,
        executable: true,
        has_txn: true,
    }
}

fn transaction() -> TransactionInfo {
    TransactionInfo {
        signature: vec![0xCC; 64],
        is_vote: true,
        failed: true,
        account_keys: vec![[1; 32]],
        loaded_writable: vec![[20; 32]],
        loaded_readonly: vec![[30; 32], [40; 32]],
    }
}

#[test]
fn account_metadata() {
    let mut info = account();
    let wm = PluginInner::extract_shm_meta(&ProtobufMessage::Account {
        slot: 3,
        account: info.clone(),
    });
    assert_eq!(wm.msg_type, MSG_TYPE_ACCOUNT);
    assert_eq!(wm.flags, FLAG_ACC_EXECUTABLE | FLAG_ACC_HAS_TXN_SIG);
    assert_eq!(wm.slot, 3);
    assert_eq!(wm.meta[0..32], [1; 32]);
    assert_eq!(wm.meta[32..64], [2; 32]);
    assert_eq!(wm.meta[64..72], [8, 7, 6, 5, 4, 3, 2, 1]);
    assert_eq!(wm.meta[72..96], [0; 24]);

    // Keys of an unusual length are cut off or filled up.
    info.pubkey = vec![5; 40];
    info.owner = vec![6; 3];
    info.executable = false;
    let wm = PluginInner::extract_shm_meta(&ProtobufMessage::Account { slot: 3, account: info });
    assert_eq!(wm.flags, FLAG_ACC_HAS_TXN_SIG);
    assert_eq!(wm.meta[0..32], [5; 32]);
    assert_eq!(wm.meta[32..35], [6; 3]);
    assert_eq!(wm.meta[35..64], [0; 29]);
}

#[test]
fn transaction_metadata() {
    let wm = PluginInner::extract_shm_meta(&ProtobufMessage::Transaction {
        slot: 3,
        transaction: transaction(),
    });
    assert_eq!(wm.msg_type, MSG_TYPE_TRANSACTION);
    assert_eq!(wm.flags, FLAG_TX_IS_VOTE | FLAG_TX_FAILED);
    assert_eq!(wm.meta[0..64], [0xCC; 64]);
    let mut bloom = [0u8; 32];
    for key in [[1; 32], [20; 32], [30; 32], [40; 32]] {
        bloom256::insert(&mut bloom, &key);
    }
    assert_eq!(wm.meta[64..96], bloom);
}

#[test]
fn wanted_transaction_passes_the_filter() {
    let wm = PluginInner::extract_shm_meta(&ProtobufMessage::Transaction {
        slot: 3,
        transaction: transaction(),
    });
    let entry = meta(wm.msg_type, wm.flags, wm.meta);
    assert!(filter(|c| c.transaction_accounts = vec![[30; 32]]).should_accept(&entry));
    assert!(!filter(|c| c.transaction_accounts = vec![[31; 32]]).should_accept(&entry));
    assert!(!filter(|c| c.exclude_votes = true).should_accept(&entry));
}

#[test]
fn slot_entry_and_block_metadata() {
    let slot = |parent, status| {
        PluginInner::extract_shm_meta(&ProtobufMessage::Slot { slot: 9, parent, status })
    };
    let wm = slot(Some(8), SlotStatus::Rooted);
    assert_eq!((wm.msg_type, wm.flags), (MSG_TYPE_SLOT, 2));
    assert_eq!(wm.meta[0..8], 8u64.to_le_bytes());
    assert_eq!(wm.meta[8..96], [0; 88]);
    assert_eq!(slot(None, SlotStatus::Confirmed).meta, [0; 96]);

    let wm = PluginInner::extract_shm_meta(&ProtobufMessage::Entry {
        entry: EntryInfo { slot: 1, index: 300, executed_transaction_count: 5 },
    });
    assert_eq!((wm.msg_type, wm.flags), (MSG_TYPE_ENTRY, 0));
    assert_eq!(wm.meta[0..8], 300u64.to_le_bytes());
    assert_eq!(wm.meta[8..16], 5u64.to_le_bytes());
    assert_eq!(wm.meta[16..96], [0; 80]);

    let wm = PluginInner::extract_shm_meta(&ProtobufMessage::BlockMeta {
        blockinfo: BlockInfo { slot: 1 },
    });
    assert_eq!((wm.msg_type, wm.flags), (MSG_TYPE_BLOCK_META, 0));
    assert_eq!(wm.meta, [0; 96]);
}

#[test]
fn slot_status_numbers() {
    let statuses = [
        SlotStatus::Processed,
        SlotStatus::Confirmed,
        SlotStatus::Rooted,
        SlotStatus::FirstShredReceived,
        SlotStatus::Completed,
        SlotStatus::CreatedBank,
        SlotStatus::Dead("fork".to_owned()),
    ];
    for (number, status) in statuses.iter().enumerate() {
        assert_eq!(PluginInner::slot_status_to_u8(status) as usize, number);
    }
}

#[test]
fn notification_kinds() {
    let slot = ProtobufMessage::Slot { slot: 4, parent: None, status: SlotStatus::Processed };
    let account = ProtobufMessage::Account { slot: 5, account: account() };
    let transaction = ProtobufMessage::Transaction { slot: 6, transaction: transaction() };
    let entry = ProtobufMessage::Entry {
        entry: EntryInfo { slot: 7, index: 0, executed_transaction_count: 0 },
    };
    let block = ProtobufMessage::BlockMeta { blockinfo: BlockInfo { slot: 8 } };
    let kinds = [
        (&slot, PluginNotification::Slot),
        (&account, PluginNotification::Account),
        (&transaction, PluginNotification::Transaction),
        (&entry, PluginNotification::Entry),
        (&block, PluginNotification::BlockMeta),
    ];
    for (i, (message, kind)) in kinds.iter().enumerate() {
        assert_eq!(PluginNotification::from(*message), *kind);
        assert_eq!(message.get_slot(), 4 + i as u64);
    }
}

fn config(grpc: bool, quic: bool, shm: bool, metrics: bool) -> PluginConfig {
    PluginConfig {
        metrics,
        grpc,
        quic,
        shm,
        shutdown_timeout_secs: 10,
        encoder: ProtobufEncoder::Raw,
    }
}

fn loaded(grpc: bool, quic: bool, shm: bool, metrics: bool) -> Plugin {
    let mut plugin = Plugin::default();
    plugin.on_load(&config(grpc, quic, shm, metrics));
    plugin
}

#[test]
fn messages_go_to_the_transports_there_are() {
    let status = |plugin: &Plugin| plugin.update_slot_status(4, Some(3), SlotStatus::Confirmed);
    assert!(matches!(status(&loaded(false, false, false, true)), Ok(Dispatch::Nothing)));
    assert!(matches!(status(&loaded(true, false, false, false)), Ok(Dispatch::Channel { encoder: ProtobufEncoder::Raw })));
    assert!(matches!(status(&loaded(false, true, false, false)), Ok(Dispatch::Channel { encoder: ProtobufEncoder::Raw })));
    match status(&loaded(false, false, true, false)) {
        Ok(Dispatch::Shm { slot, write_meta, encoder }) => {
            assert_eq!(encoder, ProtobufEncoder::Raw);
            assert_eq!(slot, 4);
            assert_eq!(write_meta.flags, 1);
            assert_eq!(write_meta.meta[0], 3);
        }
        other => panic!("{:?}", other),
    }
    assert!(matches!(
        status(&loaded(true, true, true, false)),
        Ok(Dispatch::ShmThenChannel { slot: 4, .. })
    ));
}

#[test]
fn configured_encoder_is_handed_on() {
    for encoder in [ProtobufEncoder::Raw, ProtobufEncoder::Prost] {
        let with = |grpc, shm| {
            let mut plugin = Plugin::default();
            plugin.on_load(&PluginConfig { encoder, ..config(grpc, false, shm, false) });
            assert_eq!(plugin.get_inner().unwrap().encoder, encoder);
            plugin.update_slot_status(4, None, SlotStatus::Rooted)
        };
        match with(true, false) {
            Ok(Dispatch::Channel { encoder: used }) => assert_eq!(used, encoder),
            other => panic!("{:?}", other),
        }
        match with(false, true) {
            Ok(Dispatch::Shm { encoder: used, .. }) => assert_eq!(used, encoder),
            other => panic!("{:?}", other),
        }
        match with(true, true) {
            Ok(Dispatch::ShmThenChannel { encoder: used, .. }) => assert_eq!(used, encoder),
            other => panic!("{:?}", other),
        }
    }
}

#[test]
fn metadata_has_the_slot_of_the_message() {
    let messages = [
        ProtobufMessage::Slot { slot: 11, parent: Some(10), status: SlotStatus::Rooted },
        ProtobufMessage::Account { slot: 12, account: account() },
        ProtobufMessage::Transaction { slot: 13, transaction: transaction() },
        ProtobufMessage::Entry {
            entry: EntryInfo { slot: 14, index: 0, executed_transaction_count: 0 },
        },
        ProtobufMessage::BlockMeta { blockinfo: BlockInfo { slot: 15 } },
    ];
    for (i, message) in messages.iter().enumerate() {
        assert_eq!(PluginInner::extract_shm_meta(message).slot, 11 + i as u64);
    }
}

fn refusal(r: Result<Dispatch, PluginError>) -> &'static str {
    match r {
        Err(PluginError::Custom(message)) => message,
        Ok(dispatch) => panic!("{:?}", dispatch),
    }
}

#[test]
fn old_interface_versions_are_refused() {
    let plugin = loaded(true, false, false, false);
    assert_eq!(
        refusal(plugin.update_account(ReplicaAccountInfoVersions::V0_0_1, 1, false)),
        "ReplicaAccountInfoVersions::V0_0_1 is not supported"
    );
    assert_eq!(
        refusal(plugin.update_account(ReplicaAccountInfoVersions::V0_0_2, 1, false)),
        "ReplicaAccountInfoVersions::V0_0_2 is not supported"
    );
    assert_eq!(
        refusal(plugin.notify_transaction(ReplicaTransactionInfoVersions::V0_0_1, 1)),
        "ReplicaTransactionInfoVersions::V0_0_1 is not supported"
    );
    assert_eq!(
        refusal(plugin.notify_transaction(ReplicaTransactionInfoVersions::V0_0_2, 1)),
        "ReplicaTransactionInfoVersions::V0_0_2 is not supported"
    );
    assert_eq!(
        refusal(plugin.notify_entry(ReplicaEntryInfoVersions::V0_0_1)),
        "ReplicaEntryInfoVersions::V0_0_1 is not supported"
    );
    assert_eq!(
        refusal(plugin.notify_block_metadata(ReplicaBlockInfoVersions::V0_0_1)),
        "ReplicaBlockInfoVersions::V0_0_1 is not supported"
    );
    assert_eq!(
        refusal(plugin.notify_block_metadata(ReplicaBlockInfoVersions::V0_0_2)),
        "ReplicaBlockInfoVersions::V0_0_2 is not supported"
    );
    assert_eq!(
        refusal(plugin.notify_block_metadata(ReplicaBlockInfoVersions::V0_0_3)),
        "ReplicaBlockInfoVersions::V0_0_3 is not supported"
    );
}

#[test]
fn current_interface_versions_are_dispatched() {
    let plugin = loaded(true, false, false, false);
    assert!(matches!(
        plugin.update_account(ReplicaAccountInfoVersions::V0_0_3(account()), 1, false),
        Ok(Dispatch::Channel { encoder: ProtobufEncoder::Raw })
    ));
    assert!(matches!(
        plugin.notify_transaction(ReplicaTransactionInfoVersions::V0_0_3(transaction()), 1),
        Ok(Dispatch::Channel { encoder: ProtobufEncoder::Raw })
    ));
    let entry = EntryInfo { slot: 1, index: 0, executed_transaction_count: 0 };
    assert!(matches!(
        plugin.notify_entry(ReplicaEntryInfoVersions::V0_0_2(entry)),
        Ok(Dispatch::Channel { encoder: ProtobufEncoder::Raw })
    ));
    assert!(matches!(
        plugin.notify_block_metadata(ReplicaBlockInfoVersions::V0_0_4(BlockInfo { slot: 1 })),
        Ok(Dispatch::Channel { encoder: ProtobufEncoder::Raw })
    ));
}

#[test]
fn unloaded_plugin_refuses_but_ignores_startup() {
    let plugin = Plugin::default();
    assert!(plugin.get_inner().is_err());
    assert_eq!(
        refusal(plugin.update_slot_status(1, None, SlotStatus::Processed)),
        "plugin not initialized"
    );
    assert!(matches!(
        plugin.update_account(ReplicaAccountInfoVersions::V0_0_1, 1, true),
        Ok(Dispatch::Nothing)
    ));
    // The version is looked at first.
    assert_eq!(
        refusal(plugin.notify_entry(ReplicaEntryInfoVersions::V0_0_1)),
        "ReplicaEntryInfoVersions::V0_0_1 is not supported"
    );
}

#[test]
fn unload_steps_in_order() {
    let mut plugin = loaded(true, true, true, true);
    assert_eq!(
        plugin.on_unload(),
        vec![
            UnloadStep::CloseMessages,
            UnloadStep::CloseShm,
            UnloadStep::CancelTasks,
            UnloadStep::JoinTask(PluginTask::Grpc),
            UnloadStep::JoinTask(PluginTask::Quic),
            UnloadStep::JoinTask(PluginTask::Prometheus),
            UnloadStep::RemoveShmFile,
            UnloadStep::ShutdownRuntime(10),
        ]
    );
    assert!(plugin.inner.is_none());
    assert_eq!(plugin.on_unload(), vec![]);
    assert_eq!(
        loaded(false, false, false, false).on_unload(),
        vec![UnloadStep::CancelTasks, UnloadStep::ShutdownRuntime(10)]
    );
    assert_eq!(PluginTask::Grpc.name(), "gRPC Server");
    assert_eq!(PluginTask::Quic.name(), "Quic Server");
    assert_eq!(PluginTask::Prometheus.name(), "Prometheus Server");
}

// --- Server ---

fn server_config() -> ConfigShmServer {
    ConfigShmServer {
        path: "/dev/shm/test".to_owned(),
        max_messages: 3,
        max_bytes: 100,
        filter: Some(ConfigShmFilter {
            disable_accounts: true,
            disable_transactions: false,
            disable_entries: false,
        }),
        channel_capacity: 16,
    }
}

#[test]
fn server_setup_follows_the_configuration() {
    let setup = ShmServer::spawn(&server_config()).unwrap();
    assert_eq!(setup.writer.layout.version, 1);
    assert_eq!(setup.writer.layout.idx_capacity, 4);
    assert_eq!(setup.writer.layout.data_capacity, 128);
    assert_eq!(setup.channel_capacity, 16);
    assert_eq!(setup.task.phase, ServerPhase::Subscribe);
    assert_eq!(
        setup.filter,
        Some(RichatFilter {
            disable_accounts: true,
            disable_transactions: false,
            disable_entries: false,
        })
    );
    let mut config = server_config();
    config.filter = None;
    assert_eq!(ShmServer::spawn(&config).unwrap().filter, None);
    config.max_bytes = usize::MAX;
    assert!(matches!(ShmServer::spawn(&config), Err(LayoutError::Capacity)));
}

#[test]
fn application_starts_the_configured_server() {
    assert!(RichatServer::spawn(ConfigAppsRichat::default()).is_empty());
    let servers = RichatServer::spawn(ConfigAppsRichat { shm: Some(server_config()) });
    assert_eq!(servers.len(), 1);
    assert_eq!(servers[0].path, "/dev/shm/test");
}

#[test]
fn server_task_resubscribes_and_stops() {
    let mut task = ServerTask::new();
    assert_eq!(task.step(ServerEvent::SubscribeFailed), ServerAction::Sleep(1));
    assert_eq!(task.step(ServerEvent::Slept), ServerAction::Subscribe);
    assert_eq!(task.step(ServerEvent::Subscribed), ServerAction::ReceiveWithin(5));
    assert_eq!(task.step(ServerEvent::TimedOut), ServerAction::Subscribe);
    assert_eq!(task.step(ServerEvent::Subscribed), ServerAction::ReceiveWithin(5));
    assert_eq!(task.step(ServerEvent::Message), ServerAction::Send);
    assert_eq!(task.step(ServerEvent::Sent(true)), ServerAction::Receive);
    assert_eq!(task.step(ServerEvent::Message), ServerAction::Send);
    assert_eq!(task.step(ServerEvent::Sent(true)), ServerAction::Receive);
    assert_eq!(task.step(ServerEvent::Lagged), ServerAction::Subscribe);
    assert_eq!(task.step(ServerEvent::Subscribed), ServerAction::ReceiveWithin(5));
    for last in [ServerEvent::Ended, ServerEvent::Cancelled] {
        let mut end = task;
        assert_eq!(end.step(last), ServerAction::Stop);
        assert_eq!(end.phase, ServerPhase::Stopped);
    }
    assert_eq!(task.step(ServerEvent::Message), ServerAction::Send);
    assert_eq!(task.step(ServerEvent::Sent(false)), ServerAction::Stop);
}

// --- Sources ---

#[test]
fn backoff_grows_to_its_limit() {
    let mut backoff = Backoff::new(100, 350);
    backoff.advance(200);
    assert_eq!(backoff.current_interval, 200);
    backoff.advance(400);
    assert_eq!(backoff.current_interval, 350);
    backoff.reset();
    assert_eq!(backoff.current_interval, 100);
}

#[test]
fn source_reconnects_until_replay_failed_everywhere() {
    let mut source = Reconnect::new();
    assert_eq!(source.step(ReconnectEvent::SubscribeFailed), ReconnectAction::Sleep);
    assert_eq!(source.step(ReconnectEvent::Slept), ReconnectAction::Subscribe);
    assert_eq!(source.step(ReconnectEvent::Subscribed), ReconnectAction::ResetAndReceive);
    assert_eq!(source.step(ReconnectEvent::Message), ReconnectAction::Deliver);
    for failure in [ReconnectEvent::ReceiveFailed, ReconnectEvent::Ended] {
        let mut other = source;
        assert_eq!(other.step(failure), ReconnectAction::Sleep);
        assert_eq!(other.step(ReconnectEvent::Slept), ReconnectAction::Subscribe);
    }
    assert_eq!(
        source.step(ReconnectEvent::ReplayFailed),
        ReconnectAction::ReportReplayFailed
    );
    let mut waiting = source;
    assert_eq!(waiting.step(ReconnectEvent::ReplayVerdict(false)), ReconnectAction::Sleep);
    assert_eq!(
        source.step(ReconnectEvent::ReplayVerdict(true)),
        ReconnectAction::FailReplay
    );
}

#[test]
fn source_names_are_kept_once() {
    let mut names = SourceNames::new();
    assert_eq!(names.get_static_name(&"a".to_owned()), 0);
    assert_eq!(names.get_static_name(&"b".to_owned()), 1);
    assert_eq!(names.get_static_name(&"a".to_owned()), 0);
    assert_eq!(names.names, vec!["a", "b"]);
}

fn stream(name: &str, config: u32) -> Subscription<u32, ()> {
    Subscription { name: name.to_owned(), config, stream: () }
}

fn source(name: &str, config: u32) -> SourceConfig<u32> {
    SourceConfig { name: name.to_owned(), config }
}

#[test]
fn polling_goes_round_once() {
    let mut subs = Subscriptions::new(vec![stream("a", 1), stream("b", 2), stream("c", 3)]);
    assert_eq!(subs.get_last_polled_name(), "a");
    let (init, action) = subs.poll_begin();
    assert_eq!((init, action), (0, PollAction::Poll(1)));
    assert_eq!(subs.poll_next(init, false), PollAction::Poll(2));
    assert_eq!(subs.poll_next(init, false), PollAction::Poll(0));
    assert_eq!(subs.poll_next(init, false), PollAction::Pending);
    let (init, action) = subs.poll_begin();
    assert_eq!((init, action), (0, PollAction::Poll(1)));
    assert_eq!(subs.poll_next(init, true), PollAction::Ready);
    assert_eq!(subs.get_last_polled_name(), "b");
    let (init, action) = subs.poll_begin();
    assert_eq!((init, action), (1, PollAction::Poll(2)));
}

#[test]
fn reload_changes_what_differs() {
    let mut subs = Subscriptions::new(vec![stream("a", 1), stream("b", 2), stream("c", 3)]);
    subs.poll_begin();
    let reload = subs.prepare_reload(vec![source("d", 4), source("c", 30), source("a", 1)]);
    assert_eq!(reload.to_remove, vec!["b", "c"]);
    let to_add: Vec<(String, u32)> =
        reload.to_add.iter().map(|s| (s.name.clone(), s.config)).collect();
    assert_eq!(to_add, vec![("d".to_owned(), 4), ("c".to_owned(), 30)]);
    let added = reload
        .to_add
        .into_iter()
        .map(|s| Subscription { name: s.name, config: s.config, stream: () })
        .collect();
    assert_eq!(subs.apply_reload(reload.to_remove, added), 3);
    let after: Vec<(&str, u32)> =
        subs.streams.iter().map(|s| (s.name.as_str(), s.config)).collect();
    assert_eq!(after, vec![("a", 1), ("d", 4), ("c", 30)]);
    assert_eq!(subs.last_polled, 0);
}

#[test]
fn reload_to_the_same_sources_changes_nothing() {
    let subs = Subscriptions::new(vec![stream("a", 1), stream("b", 2)]);
    let reload = subs.prepare_reload(vec![source("b", 2), source("a", 1)]);
    assert!(reload.to_remove.is_empty());
    assert!(reload.to_add.is_empty());
}

#[test]
fn second_reload_to_the_same_sources_has_nothing_to_do() {
    let wanted = || vec![source("d", 4), source("c", 30), source("a", 1)];
    let mut subs = Subscriptions::new(vec![stream("a", 1), stream("b", 2), stream("c", 3)]);
    let reload = subs.prepare_reload(wanted());
    let added = reload
        .to_add
        .into_iter()
        .map(|s| Subscription::new(s, Ok::<(), ()>(())).unwrap())
        .collect();
    assert_eq!(subs.apply_reload(reload.to_remove, added), wanted().len());
    for s in wanted() {
        let serving = |t: &&Subscription<u32, ()>| t.name == s.name && t.config == s.config;
        assert_eq!(subs.streams.iter().filter(serving).count(), 1);
    }
    let again = subs.prepare_reload(wanted());
    assert!(again.to_remove.is_empty());
    assert!(again.to_add.is_empty());
}

#[test]
fn only_a_reconnecting_source_starts_lazily() {
    assert_eq!(subscription_start(None), SubscriptionStart::SubscribeFirst);
    assert_eq!(
        subscription_start(Some((100, 900))),
        SubscriptionStart::Lazy {
            source: Reconnect { phase: ReconnectPhase::Subscribe },
            backoff: Backoff { current_interval: 100, initial_interval: 100, max_interval: 900 },
        }
    );
}

#[test]
fn subscription_keeps_its_source_or_fails() {
    let subscribed = Subscription::new(source("a", 7), Ok::<u8, &str>(9)).unwrap();
    assert_eq!((subscribed.name.as_str(), subscribed.config, subscribed.stream), ("a", 7, 9));
    let failed = Subscription::new(source("a", 7), Err::<u8, &str>("refused"));
    assert_eq!(failed.unwrap_err(), "refused");
}

// --- Quantities ---

#[test]
fn counts_are_decimal_and_may_be_grouped() {
    assert_eq!(parse_count(b"0"), Some(0));
    assert_eq!(parse_count(b"4096"), Some(4096));
    assert_eq!(parse_count(b"2_097_152"), Some(2_097_152));
    assert_eq!(parse_count(usize::MAX.to_string().as_bytes()), Some(usize::MAX));
    assert_eq!(parse_count(b"36893488147419103232"), None);
    assert_eq!(parse_count(format!("{}0", usize::MAX).as_bytes()), None);
    assert_eq!(parse_count(b""), None);
    assert_eq!(parse_count(b"_"), None);
    assert_eq!(parse_count(b"-1"), None);
    assert_eq!(parse_count(b"12k"), None);
}

#[test]
fn sizes_have_units() {
    assert_eq!(parse_size(b"17"), Some(17));
    assert_eq!(parse_size(b"17B"), Some(17));
    assert_eq!(parse_size(b"3 kB"), Some(3_000));
    assert_eq!(parse_size(b"3KB"), Some(3_000));
    assert_eq!(parse_size(b"3 MB"), Some(3_000_000));
    assert_eq!(parse_size(b"2GB"), Some(2_000_000_000));
    assert_eq!(parse_size(b"1_024KiB"), Some(1 << 20));
    assert_eq!(parse_size(b"5 kiB"), Some(5 << 10));
    assert_eq!(parse_size(b"5 MiB"), Some(5 << 20));
    assert_eq!(parse_size(b"3GiB"), Some(3 << 30));
    if usize::BITS == 64 {
        assert_eq!(parse_size(b"16 GiB"), Some(17_179_869_184));
        assert_eq!(parse_size(b"2TB"), Some(2_000_000_000_000));
        assert_eq!(parse_size(b"2TiB"), Some(2_199_023_255_552));
    }
    assert_eq!(parse_size(b"18446744073709551615TiB"), None);
    assert_eq!(parse_size(b"GiB"), None);
    assert_eq!(parse_size(b"1  GiB"), None);
    assert_eq!(parse_size(b"1.5GiB"), None);
    assert_eq!(parse_size(b"1 gib"), None);
    assert_eq!(parse_size(b"1 XB"), None);
    assert_eq!(parse_size(b"1 GiBs"), None);
}
