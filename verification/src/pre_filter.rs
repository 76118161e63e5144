//! Fast pre-filter on V2 index metadata: it decides whether to skip a message before its data
//! is read from the ring.
use vstd::prelude::*;

use crate::bloom256::contains_key;
use crate::bloom256::lemma_empty_filter_contains_nothing;
use crate::bloom256::may_contain;
use crate::bytes::get_u64;
use crate::config::ConfigShmPreFilter;
use crate::layout::to_array;
use crate::layout::FLAG_TX_FAILED;
use crate::layout::FLAG_TX_IS_VOTE;
use crate::layout::MSG_TYPE_ACCOUNT;
use crate::layout::MSG_TYPE_ENTRY;
use crate::layout::MSG_TYPE_TRANSACTION;

verus! {

/// What the pre-filter sees of a message.
#[derive(Debug, Clone, Copy)]
pub struct ShmEntryMeta {
    pub msg_type: u8,
    pub flags: u8,
    pub slot: u64,
    pub meta: [u8; 96],
}

/// The 32 bytes of `s` are one of `keys`.
pub open spec fn has_key(keys: Seq<[u8; 32]>, s: Seq<u8>) -> bool {
    exists|i: int| 0 <= i < keys.len() && #[trigger] keys[i]@ == s
}

/// `keys` is a set: no key occurs twice.
pub open spec fn all_different(keys: Seq<[u8; 32]>) -> bool {
    forall|i: int, j: int|
        0 <= i < j < keys.len() ==> #[trigger] keys[i]@ != #[trigger] keys[j]@
}

/// Two keys are the same bytes.
fn same_key(a: &[u8; 32], b: &[u8; 32]) -> (r: bool)
    ensures
        r == (a@ == b@),
{
    let mut i: usize = 0;
    while i < 32
        invariant
            i <= 32,
            forall|j: int| 0 <= j < i ==> a@[j] == b@[j],
        decreases 32 - i,
    {
        if a[i] != b[i] {
            return false;
        }
        i += 1;
    }
    assert(a@ =~= b@);
    true
}

/// Whether `key` is one of `keys`.
fn contains(keys: &Vec<[u8; 32]>, key: &[u8; 32]) -> (r: bool)
    ensures
        r == has_key(keys@, key@),
{
    let mut i: usize = 0;
    while i < keys.len()
        invariant
            i <= keys.len(),
            forall|j: int| 0 <= j < i ==> #[trigger] keys@[j]@ != key@,
        decreases keys.len() - i,
    {
        if same_key(&keys[i], key) {
            return true;
        }
        i += 1;
    }
    false
}

/// The keys of `keys`, each once.
fn collect_set(keys: &Vec<[u8; 32]>) -> (r: Vec<[u8; 32]>)
    ensures
        all_different(r@),
        forall|s: Seq<u8>| #[trigger] has_key(r@, s) <==> has_key(keys@, s),
        r@.len() == 0 <==> keys@.len() == 0,
{
    let mut r: Vec<[u8; 32]> = Vec::new();
    let mut i: usize = 0;
    while i < keys.len()
        invariant
            i <= keys.len(),
            all_different(r@),
            forall|j: int| 0 <= j < i ==> has_key(r@, #[trigger] keys@[j]@),
            forall|j: int| 0 <= j < r@.len() ==> has_key(keys@, #[trigger] r@[j]@),
        decreases keys.len() - i,
    {
        if !contains(&r, &keys[i]) {
            let ghost before = r@;
            r.push(keys[i]);
            assert(r@.last()@ == keys@[i as int]@);
            assert forall|j: int| 0 <= j <= i implies has_key(r@, #[trigger] keys@[j]@) by {
                if j < i {
                    assert(has_key(before, keys@[j]@));
                    let k = choose|k: int|
                        0 <= k < before.len() && #[trigger] before[k]@ == keys@[j]@;
                    assert(r@[k]@ == keys@[j]@);
                } else {
                    assert(r@[before.len() as int]@ == keys@[j]@);
                }
            }
            assert forall|a: int, b: int| 0 <= a < b < r@.len() implies #[trigger] r@[a]@
                != #[trigger] r@[b]@ by {
                if b == before.len() {
                    assert(r@[a] == before[a]);
                    assert(!has_key(before, keys@[i as int]@));
                } else {
                    assert(before[a]@ != before[b]@);
                }
            }
        }
        i += 1;
    }
    if keys.len() > 0 {
        assert(has_key(r@, keys@[0]@));
    }
    if r.len() > 0 {
        assert(has_key(keys@, r@[0]@));
    }
    r
}

/// The rules of a pre-filter. The lists of keys are sets: no key occurs twice.
#[derive(Debug, Clone)]
pub struct ShmPreFilter {
    pub disable_accounts: bool,
    pub disable_transactions: bool,
    pub disable_entries: bool,
    pub exclude_votes: bool,
    pub exclude_failed: bool,
    pub account_pubkeys: Vec<[u8; 32]>,
    pub account_owners: Vec<[u8; 32]>,
    pub transaction_accounts: Vec<[u8; 32]>,
}

impl ShmPreFilter {
    pub open spec fn wf(self) -> bool {
        &&& all_different(self.account_pubkeys@)
        &&& all_different(self.account_owners@)
        &&& all_different(self.transaction_accounts@)
    }

    /// The filter passes a message with this type, these flags and this metadata.
    pub open spec fn accepts(self, msg_type: u8, flags: u8, meta: Seq<u8>) -> bool {
        if msg_type == MSG_TYPE_ACCOUNT {
            &&& !self.disable_accounts
            &&& self.account_pubkeys@.len() == 0 || has_key(
                self.account_pubkeys@,
                meta.subrange(0, 32),
            )
            &&& self.account_owners@.len() == 0 || has_key(
                self.account_owners@,
                meta.subrange(32, 64),
            )
        } else if msg_type == MSG_TYPE_TRANSACTION {
            &&& !self.disable_transactions
            &&& !(self.exclude_votes && flags & FLAG_TX_IS_VOTE != 0)
            &&& !(self.exclude_failed && flags & FLAG_TX_FAILED != 0)
            &&& self.transaction_accounts@.len() == 0 || exists|i: int|
                0 <= i < self.transaction_accounts@.len() && contains_key(
                    meta.subrange(64, 96),
                    #[trigger] self.transaction_accounts@[i]@,
                )
        } else if msg_type == MSG_TYPE_ENTRY {
            !self.disable_entries
        } else {
            true
        }
    }

    /// No rule is set.
    pub open spec fn noop(self) -> bool {
        &&& !self.disable_accounts
        &&& !self.disable_transactions
        &&& !self.disable_entries
        &&& !self.exclude_votes
        &&& !self.exclude_failed
        &&& self.account_pubkeys@.len() == 0
        &&& self.account_owners@.len() == 0
        &&& self.transaction_accounts@.len() == 0
    }

    /// The rules that a configuration asks for; without one, none.
    pub fn from_config(config: Option<ConfigShmPreFilter>) -> (r: Self)
        ensures
            r.wf(),
            config is None ==> r.noop(),
            config matches Some(c) ==> {
                &&& r.disable_accounts == c.disable_accounts
                &&& r.disable_transactions == c.disable_transactions
                &&& r.disable_entries == c.disable_entries
                &&& r.exclude_votes == c.exclude_votes
                &&& r.exclude_failed == c.exclude_failed
                &&& forall|s: Seq<u8>| #[trigger]
                    has_key(r.account_pubkeys@, s) <==> has_key(c.account_pubkeys@, s)
                &&& forall|s: Seq<u8>| #[trigger]
                    has_key(r.account_owners@, s) <==> has_key(c.account_owners@, s)
                &&& forall|s: Seq<u8>| #[trigger]
                    has_key(r.transaction_accounts@, s) <==> has_key(c.transaction_accounts@, s)
                &&& r.account_pubkeys@.len() == 0 <==> c.account_pubkeys@.len() == 0
                &&& r.account_owners@.len() == 0 <==> c.account_owners@.len() == 0
                &&& r.transaction_accounts@.len() == 0 <==> c.transaction_accounts@.len() == 0
            },
    {
        let config = match config {
            Some(c) => c,
            None => ConfigShmPreFilter::default(),
        };
        ShmPreFilter {
            disable_accounts: config.disable_accounts,
            disable_transactions: config.disable_transactions,
            disable_entries: config.disable_entries,
            exclude_votes: config.exclude_votes,
            exclude_failed: config.exclude_failed,
            account_pubkeys: collect_set(&config.account_pubkeys),
            account_owners: collect_set(&config.account_owners),
            transaction_accounts: collect_set(&config.transaction_accounts),
        }
    }

    /// Whether the bloom filter may contain one of the wanted transaction accounts.
    fn any_account_in(&self, bloom: &[u8; 32]) -> (r: bool)
        ensures
            r == exists|i: int|
                0 <= i < self.transaction_accounts@.len() && contains_key(
                    bloom@,
                    #[trigger] self.transaction_accounts@[i]@,
                ),
    {
        let mut i: usize = 0;
        while i < self.transaction_accounts.len()
            invariant
                i <= self.transaction_accounts.len(),
                forall|j: int|
                    0 <= j < i ==> !contains_key(
                        bloom@,
                        #[trigger] self.transaction_accounts@[j]@,
                    ),
            decreases self.transaction_accounts.len() - i,
        {
            if may_contain(bloom, &self.transaction_accounts[i]) {
                return true;
            }
            i += 1;
        }
        false
    }

    /// Returns true if the message should be accepted (i.e. NOT skipped).
    pub fn should_accept(&self, meta: &ShmEntryMeta) -> (r: bool)
        ensures
            r == self.accepts(meta.msg_type, meta.flags, meta.meta@),
    {
        if meta.msg_type == MSG_TYPE_ACCOUNT {
            if self.disable_accounts {
                return false;
            }
            if self.account_pubkeys.len() > 0 {
                let pubkey: [u8; 32] = to_array::<32>(meta.meta.as_slice(), 0);
                if !contains(&self.account_pubkeys, &pubkey) {
                    return false;
                }
            }
            if self.account_owners.len() > 0 {
                let owner: [u8; 32] = to_array::<32>(meta.meta.as_slice(), 32);
                if !contains(&self.account_owners, &owner) {
                    return false;
                }
            }
            true
        } else if meta.msg_type == MSG_TYPE_TRANSACTION {
            if self.disable_transactions {
                return false;
            }
            if self.exclude_votes && meta.flags & FLAG_TX_IS_VOTE != 0 {
                return false;
            }
            if self.exclude_failed && meta.flags & FLAG_TX_FAILED != 0 {
                return false;
            }
            if self.transaction_accounts.len() > 0 {
                let bloom: [u8; 32] = to_array::<32>(meta.meta.as_slice(), 64);
                if !self.any_account_in(&bloom) {
                    return false;
                }
            }
            true
        } else if meta.msg_type == MSG_TYPE_ENTRY {
            !self.disable_entries
        } else {
            true
        }
    }

    /// Returns true if this filter does nothing (all defaults, no filtering).
    pub fn is_noop(&self) -> (r: bool)
        ensures
            r == self.noop(),
    {
        !self.disable_accounts && !self.disable_transactions && !self.disable_entries
            && !self.exclude_votes && !self.exclude_failed && self.account_pubkeys.len() == 0
            && self.account_owners.len() == 0 && self.transaction_accounts.len() == 0
    }

    /// A transaction with these account keys names one of the wanted accounts, or no account in
    /// particular is wanted.
    pub open spec fn wants_accounts(self, account_keys: Seq<[u8; 32]>) -> bool {
        self.transaction_accounts@.len() == 0 || exists|k: int|
            0 <= k < account_keys.len() && has_key(
                self.transaction_accounts@,
                #[trigger] account_keys[k]@,
            )
    }

    /// The exact check that follows the bloom filter once a transaction is parsed and its
    /// account keys are known.
    pub fn confirms(&self, account_keys: &Vec<[u8; 32]>) -> (r: bool)
        ensures
            r == self.wants_accounts(account_keys@),
    {
        if self.transaction_accounts.len() == 0 {
            return true;
        }
        let mut k: usize = 0;
        while k < account_keys.len()
            invariant
                k <= account_keys.len(),
                forall|j: int|
                    0 <= j < k ==> !has_key(
                        self.transaction_accounts@,
                        #[trigger] account_keys@[j]@,
                    ),
            decreases account_keys.len() - k,
        {
            if contains(&self.transaction_accounts, &account_keys[k]) {
                return true;
            }
            k += 1;
        }
        false
    }
}

/// A filter without rules accepts every message.
pub proof fn lemma_noop_accepts_all(filter: ShmPreFilter, msg_type: u8, flags: u8, meta: Seq<u8>)
    requires
        filter.noop(),
    ensures
        filter.accepts(msg_type, flags, meta),
{
}

/// The key that starts with the little-endian bytes of `n` and has only zeros behind them.
spec fn numbered_key(n: int) -> Seq<u8> {
    let a = n / 0x100;
    let b = a / 0x100;
    let c = b / 0x100;
    let d = c / 0x100;
    let e = d / 0x100;
    let f = e / 0x100;
    let g = f / 0x100;
    Seq::new(32, |i: int| 0u8).update(0, (n % 0x100) as u8).update(1, (a % 0x100) as u8).update(
        2,
        (b % 0x100) as u8,
    ).update(3, (c % 0x100) as u8).update(4, (d % 0x100) as u8).update(5, (e % 0x100) as u8).update(
        6,
        (f % 0x100) as u8,
    ).update(7, (g % 0x100) as u8)
}

/// A list has fewer keys than there are: some key is not on it.
proof fn lemma_some_key_unlisted(keys: Seq<[u8; 32]>)
    requires
        keys.len() <= u64::MAX,
    ensures
        exists|key: Seq<u8>| key.len() == 32 && !#[trigger] has_key(keys, key),
{
    let bound: int = 0x1_0000_0000_0000_0000;
    let numbers = keys.map_values(|k: [u8; 32]| get_u64(k@, 0) as int);
    if forall|n: int| 0 <= n < bound ==> #[trigger] has_key(keys, numbered_key(n)) {
        assert forall|n: int| 0 <= n < bound implies numbers.to_set().contains(n) by {
            let key = numbered_key(n);
            assert(has_key(keys, key));
            let i = choose|i: int| 0 <= i < keys.len() && #[trigger] keys[i]@ == key;
            assert(get_u64(key, 0) == n);
            assert(numbers[i] == n);
        }
        numbers.lemma_cardinality_of_set();
        vstd::seq_lib::seq_to_set_is_finite(numbers);
        vstd::set_lib::lemma_int_range(0, bound);
        vstd::set_lib::lemma_len_subset(
            vstd::set_lib::set_int_range(0, bound),
            numbers.to_set(),
        );
    } else {
        let n = choose|n: int| 0 <= n < bound && !#[trigger] has_key(keys, numbered_key(n));
        assert(numbered_key(n).len() == 32 && !has_key(keys, numbered_key(n)));
    }
}

/// A filter with any rule set skips some message: it is not a filter without rules in disguise.
pub proof fn lemma_rule_skips_some(filter: ShmPreFilter)
    requires
        !filter.noop(),
    ensures
        exists|msg_type: u8, flags: u8, meta: Seq<u8>|
            meta.len() == 96 && !#[trigger] filter.accepts(msg_type, flags, meta),
{
    let zeros: Seq<u8> = Seq::new(96, |i: int| 0u8);
    assert(zeros.len() == 96);
    if filter.disable_accounts {
        assert(!filter.accepts(MSG_TYPE_ACCOUNT, 0, zeros));
    } else if filter.disable_transactions {
        assert(!filter.accepts(MSG_TYPE_TRANSACTION, 0, zeros));
    } else if filter.disable_entries {
        assert(!filter.accepts(MSG_TYPE_ENTRY, 0, zeros));
    } else if filter.exclude_votes {
        assert(FLAG_TX_IS_VOTE & FLAG_TX_IS_VOTE != 0) by (bit_vector);
        assert(!filter.accepts(MSG_TYPE_TRANSACTION, FLAG_TX_IS_VOTE, zeros));
    } else if filter.exclude_failed {
        assert(FLAG_TX_FAILED & FLAG_TX_FAILED != 0) by (bit_vector);
        assert(!filter.accepts(MSG_TYPE_TRANSACTION, FLAG_TX_FAILED, zeros));
    } else if filter.account_pubkeys@.len() > 0 {
        assert(filter.account_pubkeys.len() == filter.account_pubkeys@.len());
        lemma_some_key_unlisted(filter.account_pubkeys@);
        let key = choose|key: Seq<u8>|
            key.len() == 32 && !#[trigger] has_key(filter.account_pubkeys@, key);
        let meta = key + Seq::new(64, |i: int| 0u8);
        assert(meta.subrange(0, 32) =~= key);
        assert(!filter.accepts(MSG_TYPE_ACCOUNT, 0, meta));
    } else if filter.account_owners@.len() > 0 {
        assert(filter.account_owners.len() == filter.account_owners@.len());
        lemma_some_key_unlisted(filter.account_owners@);
        let key = choose|key: Seq<u8>|
            key.len() == 32 && !#[trigger] has_key(filter.account_owners@, key);
        let meta = Seq::new(32, |i: int| 0u8) + key + Seq::new(32, |i: int| 0u8);
        assert(meta.subrange(32, 64) =~= key);
        assert(!filter.accepts(MSG_TYPE_ACCOUNT, 0, meta));
    } else {
        assert forall|i: int| 0 <= i < filter.transaction_accounts@.len() implies !contains_key(
            zeros.subrange(64, 96),
            #[trigger] filter.transaction_accounts@[i]@,
        ) by {
            lemma_empty_filter_contains_nothing(
                zeros.subrange(64, 96),
                filter.transaction_accounts@[i]@,
            );
        }
        assert(!filter.accepts(MSG_TYPE_TRANSACTION, 0, zeros));
    }
}

/// Slot updates, block metadata and message types yet unknown always pass.
pub proof fn lemma_other_types_pass(filter: ShmPreFilter, msg_type: u8, flags: u8, meta: Seq<u8>)
    requires
        msg_type != MSG_TYPE_ACCOUNT,
        msg_type != MSG_TYPE_TRANSACTION,
        msg_type != MSG_TYPE_ENTRY,
    ensures
        filter.accepts(msg_type, flags, meta),
{
}

/// The bloom filter has no false negatives: a transaction that the exact check confirms is never
/// skipped for its accounts, where its metadata carries the bloom filter of its account keys.
pub proof fn lemma_wanted_transaction_accepted(
    filter: ShmPreFilter,
    flags: u8,
    meta: Seq<u8>,
    account_keys: Seq<[u8; 32]>,
)
    requires
        meta.len() == 96,
        crate::bloom256::filter_of(meta.subrange(64, 96), account_keys),
        filter.wants_accounts(account_keys),
        !filter.disable_transactions,
        !(filter.exclude_votes && flags & FLAG_TX_IS_VOTE != 0),
        !(filter.exclude_failed && flags & FLAG_TX_FAILED != 0),
    ensures
        filter.accepts(MSG_TYPE_TRANSACTION, flags, meta),
{
    if filter.transaction_accounts@.len() > 0 {
        let k = choose|k: int|
            0 <= k < account_keys.len() && has_key(
                filter.transaction_accounts@,
                #[trigger] account_keys[k]@,
            );
        let i = choose|i: int|
            0 <= i < filter.transaction_accounts@.len()
                && #[trigger] filter.transaction_accounts@[i]@ == account_keys[k]@;
        crate::bloom256::lemma_filter_finds_its_keys(meta.subrange(64, 96), account_keys, k);
        assert(contains_key(meta.subrange(64, 96), filter.transaction_accounts@[i]@));
    }
}

} // verus!
