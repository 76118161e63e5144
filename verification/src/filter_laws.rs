//! What the bloom filter and the pre-filter do, told by what they are called with and what they
//! answer.
use vstd::prelude::*;

use crate::bloom256::bit_set;
use crate::bloom256::contains_key;
use crate::bloom256::insert;
use crate::bloom256::is_key_bit;
use crate::bloom256::key_bit;
use crate::bloom256::may_contain;
use crate::config::ConfigShmPreFilter;
use crate::layout::FLAG_TX_FAILED;
use crate::layout::FLAG_TX_IS_VOTE;
use crate::layout::MSG_TYPE_ACCOUNT;
use crate::layout::MSG_TYPE_ENTRY;
use crate::layout::MSG_TYPE_TRANSACTION;
use crate::pre_filter::has_key;
use crate::pre_filter::ShmEntryMeta;
use crate::pre_filter::ShmPreFilter;

verus! {

// --- Bloom filter ---

/// The bit of a key's `i`-th hash is the first byte of its `i`-th group of four.
pub proof fn lemma_key_bit_is_byte(key: Seq<u8>, i: int)
    ensures
        key_bit(key, i) == key[4 * i],
{
}

/// Inserting a key sets bit `key[4 * i]` for each `i` below five, whatever the filter was.
pub proof fn lemma_insert_sets_bits(filter: &mut [u8; 32], key: &[u8; 32], i: int)
    requires
        call_ensures(insert, (filter, key), ()),
        0 <= i < 5,
    ensures
        final(filter)@[key@[4 * i] as int / 8] & (1u8 << ((key@[4 * i] as int % 8) as u8)) != 0,
{
    lemma_key_bit_is_byte(key@, i);
    assert(is_key_bit(key@, key_bit(key@, i)));
    assert(bit_set(final(filter)@, key_bit(key@, i)));
}

/// Inserting a key clears no bit, and sets none that is not one of the key's.
pub proof fn lemma_insert_touches_no_other_bit(filter: &mut [u8; 32], key: &[u8; 32], h: int)
    requires
        call_ensures(insert, (filter, key), ()),
        0 <= h < 256,
        forall|i: int| 0 <= i < 5 ==> #[trigger] key@[4 * i] != h,
    ensures
        final(filter)@[h / 8] & (1u8 << ((h % 8) as u8)) != 0 <==> old(filter)@[h / 8] & (1u8 << ((h
            % 8) as u8)) != 0,
{
    if is_key_bit(key@, h) {
        let i = choose|i: int| 0 <= i < 5 && h == #[trigger] key_bit(key@, i);
        lemma_key_bit_is_byte(key@, i);
        assert(key@[4 * i] != h);
    }
    assert(bit_set(final(filter)@, h) <==> bit_set(old(filter)@, h));
}

/// A key may be in the filter exactly if bit `key[4 * i]` is set for each `i` below five.
pub proof fn lemma_may_contain_looks_at_five_bits(filter: &[u8; 32], key: &[u8; 32], r: bool)
    requires
        call_ensures(may_contain, (filter, key), r),
    ensures
        r <==> forall|i: int|
            0 <= i < 5 ==> filter@[#[trigger] key@[4 * i] as int / 8] & (1u8 << ((key@[4 * i] as int
                % 8) as u8)) != 0,
{
    lemma_contains_bits(filter@, key@);
}

/// What it takes for a filter to contain a key, bit by bit.
pub proof fn lemma_contains_bits(filter: Seq<u8>, key: Seq<u8>)
    ensures
        contains_key(filter, key) <==> forall|i: int|
            0 <= i < 5 ==> filter[#[trigger] key[4 * i] as int / 8] & (1u8 << ((key[4 * i] as int
                % 8) as u8)) != 0,
{
    assert forall|i: int| 0 <= i < 5 implies #[trigger] key_bit(key, i) == key[4 * i] by {
        lemma_key_bit_is_byte(key, i);
    }
    if contains_key(filter, key) {
        assert forall|i: int| 0 <= i < 5 implies filter[#[trigger] key[4 * i] as int / 8] & (1u8
            << ((key[4 * i] as int % 8) as u8)) != 0 by {
            assert(bit_set(filter, key_bit(key, i)));
        }
    }
    if forall|i: int|
        0 <= i < 5 ==> filter[#[trigger] key[4 * i] as int / 8] & (1u8 << ((key[4 * i] as int
            % 8) as u8)) != 0 {
        assert forall|i: int| 0 <= i < 5 implies bit_set(filter, #[trigger] key_bit(key, i)) by {
            assert(filter[key[4 * i] as int / 8] & (1u8 << ((key[4 * i] as int % 8) as u8)) != 0);
        }
    }
}

/// No false negatives: a key that was inserted may be in the filter, and so may every key that
/// might have been in it before.
pub proof fn lemma_inserted_keys_stay(
    filter: &mut [u8; 32],
    key: &[u8; 32],
    other: &[u8; 32],
    after: &[u8; 32],
    before: bool,
    key_found: bool,
    other_found: bool,
)
    requires
        call_ensures(insert, (filter, key), ()),
        after@ == final(filter)@,
        call_ensures(may_contain, (&*filter, other), before),
        call_ensures(may_contain, (after, key), key_found),
        call_ensures(may_contain, (after, other), other_found),
    ensures
        key_found,
        before ==> other_found,
{
    crate::bloom256::lemma_inserted_key_found(old(filter)@, final(filter)@, key@);
    if before {
        crate::bloom256::lemma_insert_keeps_keys(old(filter)@, final(filter)@, key@, other@);
    }
}

// --- Pre-filter ---

/// Each rule on the kind of a message skips on its own, whatever the other rules are.
pub proof fn lemma_kind_rules_skip(filter: &ShmPreFilter, meta: &ShmEntryMeta, r: bool)
    requires
        call_ensures(ShmPreFilter::should_accept, (filter, meta), r),
    ensures
        filter.disable_accounts && meta.msg_type == MSG_TYPE_ACCOUNT ==> !r,
        filter.disable_transactions && meta.msg_type == MSG_TYPE_TRANSACTION ==> !r,
        filter.disable_entries && meta.msg_type == MSG_TYPE_ENTRY ==> !r,
{
}

/// Each rule on votes and failures skips on its own: with it set, no transaction that has the
/// flag passes, whatever the other rules and the other flags are.
pub proof fn lemma_flag_rules_skip(filter: &ShmPreFilter, meta: &ShmEntryMeta, r: bool)
    requires
        call_ensures(ShmPreFilter::should_accept, (filter, meta), r),
        meta.msg_type == MSG_TYPE_TRANSACTION,
    ensures
        filter.exclude_votes && meta.flags & FLAG_TX_IS_VOTE != 0 ==> !r,
        filter.exclude_failed && meta.flags & FLAG_TX_FAILED != 0 ==> !r,
{
}

/// Each rule on an account skips on its own: an account whose key, or whose owner, is not on the
/// list passes no filter that has such a list.
pub proof fn lemma_account_rules_skip(filter: &ShmPreFilter, meta: &ShmEntryMeta, r: bool)
    requires
        call_ensures(ShmPreFilter::should_accept, (filter, meta), r),
        meta.msg_type == MSG_TYPE_ACCOUNT,
    ensures
        filter.account_pubkeys@.len() > 0 && (forall|i: int|
            0 <= i < filter.account_pubkeys@.len() ==> #[trigger] filter.account_pubkeys@[i]@
                != meta.meta@.subrange(0, 32)) ==> !r,
        filter.account_owners@.len() > 0 && (forall|i: int|
            0 <= i < filter.account_owners@.len() ==> #[trigger] filter.account_owners@[i]@
                != meta.meta@.subrange(32, 64)) ==> !r,
{
}

/// The rule on the accounts of a transaction skips on its own: a transaction whose bloom filter
/// lacks a bit of every wanted account passes no filter that wants accounts.
pub proof fn lemma_transaction_account_rule_skips(
    filter: &ShmPreFilter,
    meta: &ShmEntryMeta,
    r: bool,
)
    requires
        call_ensures(ShmPreFilter::should_accept, (filter, meta), r),
        meta.msg_type == MSG_TYPE_TRANSACTION,
        filter.transaction_accounts@.len() > 0,
        forall|k: int|
            0 <= k < filter.transaction_accounts@.len() ==> lacks_a_bit(
                meta.meta@,
                #[trigger] filter.transaction_accounts@[k]@,
            ),
    ensures
        !r,
{
    if r {
        let bloom = meta.meta@.subrange(64, 96);
        let k = choose|k: int|
            0 <= k < filter.transaction_accounts@.len() && contains_key(
                bloom,
                #[trigger] filter.transaction_accounts@[k]@,
            );
        let key = filter.transaction_accounts@[k]@;
        assert(lacks_a_bit(meta.meta@, key));
        lemma_contains_bits(bloom, key);
        let i = choose|i: int|
            0 <= i < 5 && meta.meta@[64 + #[trigger] key[4 * i] as int / 8] & (1u8 << ((key[4
                * i] as int % 8) as u8)) == 0;
        assert(bloom[key[4 * i] as int / 8] == meta.meta@[64 + key[4 * i] as int / 8]);
    }
}

/// One of the five bits of `key` is not set in the bloom filter that metadata has from byte 64 on.
pub open spec fn lacks_a_bit(meta: Seq<u8>, key: Seq<u8>) -> bool {
    exists|i: int|
        0 <= i < 5 && meta[64 + #[trigger] key[4 * i] as int / 8] & (1u8 << ((key[4 * i] as int
            % 8) as u8)) == 0
}

/// An account passes where accounts are not left out and each list that is there names it.
pub proof fn lemma_listed_account_passes(
    filter: &ShmPreFilter,
    meta: &ShmEntryMeta,
    r: bool,
    i: int,
    j: int,
)
    requires
        call_ensures(ShmPreFilter::should_accept, (filter, meta), r),
        meta.msg_type == MSG_TYPE_ACCOUNT,
        !filter.disable_accounts,
        filter.account_pubkeys@.len() == 0 || (0 <= i < filter.account_pubkeys@.len()
            && filter.account_pubkeys@[i]@ == meta.meta@.subrange(0, 32)),
        filter.account_owners@.len() == 0 || (0 <= j < filter.account_owners@.len()
            && filter.account_owners@[j]@ == meta.meta@.subrange(32, 64)),
    ensures
        r,
{
    if filter.account_pubkeys@.len() > 0 {
        assert(has_key(filter.account_pubkeys@, meta.meta@.subrange(0, 32)));
    }
    if filter.account_owners@.len() > 0 {
        assert(has_key(filter.account_owners@, meta.meta@.subrange(32, 64)));
    }
}

/// A transaction passes where transactions are not left out, no rule on votes or failures is on
/// it, and, if accounts are wanted, its bloom filter has all bits of one of them.
pub proof fn lemma_wanted_transaction_passes(
    filter: &ShmPreFilter,
    meta: &ShmEntryMeta,
    r: bool,
    k: int,
)
    requires
        call_ensures(ShmPreFilter::should_accept, (filter, meta), r),
        meta.msg_type == MSG_TYPE_TRANSACTION,
        !filter.disable_transactions,
        filter.exclude_votes ==> meta.flags & FLAG_TX_IS_VOTE == 0,
        filter.exclude_failed ==> meta.flags & FLAG_TX_FAILED == 0,
        filter.transaction_accounts@.len() == 0 || (0 <= k < filter.transaction_accounts@.len()
            && !lacks_a_bit(meta.meta@, filter.transaction_accounts@[k]@)),
    ensures
        r,
{
    if filter.transaction_accounts@.len() > 0 {
        let bloom = meta.meta@.subrange(64, 96);
        let key = filter.transaction_accounts@[k]@;
        assert forall|i: int| 0 <= i < 5 implies bloom[#[trigger] key[4 * i] as int / 8] & (1u8 << ((
        key[4 * i] as int % 8) as u8)) != 0 by {
            assert(bloom[key[4 * i] as int / 8] == meta.meta@[64 + key[4 * i] as int / 8]);
        }
        lemma_contains_bits(bloom, key);
        assert(contains_key(bloom, filter.transaction_accounts@[k]@));
    }
}

/// Entries pass where they are not left out, and messages of any other kind always do.
pub proof fn lemma_other_kinds_pass(filter: &ShmPreFilter, meta: &ShmEntryMeta, r: bool)
    requires
        call_ensures(ShmPreFilter::should_accept, (filter, meta), r),
        meta.msg_type != MSG_TYPE_ACCOUNT,
        meta.msg_type != MSG_TYPE_TRANSACTION,
        meta.msg_type == MSG_TYPE_ENTRY ==> !filter.disable_entries,
    ensures
        r,
{
}

/// The slot of a message does not matter to the pre-filter.
pub proof fn lemma_slot_does_not_matter(
    filter: &ShmPreFilter,
    a: &ShmEntryMeta,
    b: &ShmEntryMeta,
    ra: bool,
    rb: bool,
)
    requires
        call_ensures(ShmPreFilter::should_accept, (filter, a), ra),
        call_ensures(ShmPreFilter::should_accept, (filter, b), rb),
        a.msg_type == b.msg_type,
        a.flags == b.flags,
        a.meta@ == b.meta@,
    ensures
        ra == rb,
{
}

/// A filter that says it does nothing lets every message pass; one that says it does something
/// has a rule set.
pub proof fn lemma_noop_is_no_rule(
    filter: &ShmPreFilter,
    meta: &ShmEntryMeta,
    noop: bool,
    r: bool,
)
    requires
        call_ensures(ShmPreFilter::is_noop, (filter,), noop),
        call_ensures(ShmPreFilter::should_accept, (filter, meta), r),
    ensures
        noop ==> r,
        !noop <==> (filter.disable_accounts || filter.disable_transactions || filter.disable_entries
            || filter.exclude_votes || filter.exclude_failed || filter.account_pubkeys@.len() > 0
            || filter.account_owners@.len() > 0 || filter.transaction_accounts@.len() > 0),
{
}

/// The exact check confirms a transaction exactly if no account in particular is wanted or one of
/// its account keys is a wanted one.
pub proof fn lemma_exact_check(filter: &ShmPreFilter, account_keys: &Vec<[u8; 32]>, r: bool)
    requires
        call_ensures(ShmPreFilter::confirms, (filter, account_keys), r),
    ensures
        filter.transaction_accounts@.len() == 0 ==> r,
        filter.transaction_accounts@.len() > 0 ==> (r <==> exists|i: int, k: int|
            0 <= i < filter.transaction_accounts@.len() && 0 <= k < account_keys@.len()
                && #[trigger] filter.transaction_accounts@[i]@ == #[trigger] account_keys@[k]@),
{
    if filter.transaction_accounts@.len() > 0 {
        if r {
            let k = choose|k: int|
                0 <= k < account_keys@.len() && has_key(
                    filter.transaction_accounts@,
                    #[trigger] account_keys@[k]@,
                );
            assert(has_key(filter.transaction_accounts@, account_keys@[k]@));
        }
        if exists|i: int, k: int|
            0 <= i < filter.transaction_accounts@.len() && 0 <= k < account_keys@.len()
                && #[trigger] filter.transaction_accounts@[i]@ == #[trigger] account_keys@[k]@ {
            let (i, k) = choose|i: int, k: int|
                0 <= i < filter.transaction_accounts@.len() && 0 <= k < account_keys@.len()
                    && #[trigger] filter.transaction_accounts@[i]@
                    == #[trigger] account_keys@[k]@;
            assert(has_key(filter.transaction_accounts@, account_keys@[k]@));
        }
    }
}

/// A configured filter has the configured rules: each switch as it is configured, and a key is on
/// one of its lists exactly if it is on the configured one.
pub proof fn lemma_filter_has_configured_rules(
    config: ConfigShmPreFilter,
    filter: ShmPreFilter,
    key: Seq<u8>,
)
    requires
        call_ensures(ShmPreFilter::from_config, (Some(config),), filter),
    ensures
        filter.disable_accounts == config.disable_accounts,
        filter.disable_transactions == config.disable_transactions,
        filter.disable_entries == config.disable_entries,
        filter.exclude_votes == config.exclude_votes,
        filter.exclude_failed == config.exclude_failed,
        (exists|i: int|
            0 <= i < filter.account_pubkeys@.len() && #[trigger] filter.account_pubkeys@[i]@ == key)
            <==> (exists|i: int|
            0 <= i < config.account_pubkeys@.len() && #[trigger] config.account_pubkeys@[i]@
                == key),
        (exists|i: int|
            0 <= i < filter.account_owners@.len() && #[trigger] filter.account_owners@[i]@ == key)
            <==> (exists|i: int|
            0 <= i < config.account_owners@.len() && #[trigger] config.account_owners@[i]@ == key),
        (exists|i: int|
            0 <= i < filter.transaction_accounts@.len()
                && #[trigger] filter.transaction_accounts@[i]@ == key) <==> (exists|i: int|
            0 <= i < config.transaction_accounts@.len()
                && #[trigger] config.transaction_accounts@[i]@ == key),
        filter.account_pubkeys@.len() == 0 <==> config.account_pubkeys@.len() == 0,
        filter.account_owners@.len() == 0 <==> config.account_owners@.len() == 0,
        filter.transaction_accounts@.len() == 0 <==> config.transaction_accounts@.len() == 0,
{
    assert(has_key(filter.account_pubkeys@, key) <==> has_key(config.account_pubkeys@, key));
    assert(has_key(filter.account_owners@, key) <==> has_key(config.account_owners@, key));
    assert(has_key(filter.transaction_accounts@, key) <==> has_key(
        config.transaction_accounts@,
        key,
    ));
}

/// A configured filter has no key twice on a list, however often it is configured.
pub proof fn lemma_filter_lists_no_key_twice(
    config: Option<ConfigShmPreFilter>,
    filter: ShmPreFilter,
    i: int,
    j: int,
)
    requires
        call_ensures(ShmPreFilter::from_config, (config,), filter),
        0 <= i < j,
    ensures
        j < filter.account_pubkeys@.len() ==> filter.account_pubkeys@[i]@
            != filter.account_pubkeys@[j]@,
        j < filter.account_owners@.len() ==> filter.account_owners@[i]@
            != filter.account_owners@[j]@,
        j < filter.transaction_accounts@.len() ==> filter.transaction_accounts@[i]@
            != filter.transaction_accounts@[j]@,
{
}

/// A configuration that nothing was set in makes a filter that passes every message.
pub proof fn lemma_default_filter_passes_all(
    config: ConfigShmPreFilter,
    filter: ShmPreFilter,
    meta: &ShmEntryMeta,
    r: bool,
)
    requires
        call_ensures(ConfigShmPreFilter::default, (), config),
        call_ensures(ShmPreFilter::from_config, (Some(config),), filter),
        call_ensures(ShmPreFilter::should_accept, (&filter, meta), r),
    ensures
        r,
{
}

/// Without a configuration every message passes.
pub proof fn lemma_unconfigured_filter_passes_all(
    filter: ShmPreFilter,
    meta: &ShmEntryMeta,
    r: bool,
)
    requires
        call_ensures(ShmPreFilter::from_config, (None,), filter),
        call_ensures(ShmPreFilter::should_accept, (&filter, meta), r),
    ensures
        r,
{
}

} // verus!
