//! Configuration values, as the rest of the library reads them.
use vstd::prelude::*;
use vstd::std_specs::convert::FromSpecImpl;

verus! {

/// Which kinds of messages the server leaves out.
#[derive(Debug, Clone, Copy, PartialEq, Eq, Structural)]
pub struct ConfigShmFilter {
    pub disable_accounts: bool,
    pub disable_transactions: bool,
    pub disable_entries: bool,
}

impl Default for ConfigShmFilter {
    fn default() -> (r: Self)
        ensures
            !r.disable_accounts,
            !r.disable_transactions,
            !r.disable_entries,
    {
        ConfigShmFilter {
            disable_accounts: false,
            disable_transactions: false,
            disable_entries: false,
        }
    }
}

/// The filter that a subscription to the message source takes.
#[derive(Debug, Clone, Copy, PartialEq, Eq, Structural)]
pub struct RichatFilter {
    pub disable_accounts: bool,
    pub disable_transactions: bool,
    pub disable_entries: bool,
}

impl From<ConfigShmFilter> for RichatFilter {
    fn from(f: ConfigShmFilter) -> (r: Self) {
        RichatFilter {
            disable_accounts: f.disable_accounts,
            disable_transactions: f.disable_transactions,
            disable_entries: f.disable_entries,
        }
    }
}

impl FromSpecImpl<ConfigShmFilter> for RichatFilter {
    open spec fn obeys_from_spec() -> bool {
        true
    }

    open spec fn from_spec(f: ConfigShmFilter) -> RichatFilter {
        RichatFilter {
            disable_accounts: f.disable_accounts,
            disable_transactions: f.disable_transactions,
            disable_entries: f.disable_entries,
        }
    }
}

/// Where the server writes, and how large the region is.
#[derive(Debug, Clone)]
pub struct ConfigShmServer {
    pub path: String,
    pub max_messages: usize,
    pub max_bytes: usize,
    pub filter: Option<ConfigShmFilter>,
    /// Channel capacity of the bridge from the message stream to the writer
    pub channel_capacity: usize,
}

impl ConfigShmServer {
    pub fn default_path() -> (r: String)
        ensures
            r@ == "/dev/shm/richat"@,
    {
        String::from_str("/dev/shm/richat")
    }

    pub fn default_max_messages() -> (r: usize)
        ensures
            r == 2_097_152,
    {
        2_097_152
    }

    /// 15 GiB, a size that takes a 64-bit address space.
    pub fn default_max_bytes() -> (r: usize)
        requires
            usize::BITS == 64,
        ensures
            r == 15 * 1024 * 1024 * 1024,
    {
        let kib: usize = 1024;
        15 * kib * kib * kib  // 15 GiB
    }

    pub fn default_channel_capacity() -> (r: usize)
        ensures
            r == 4096,
    {
        4096
    }
}

/// Where a reader finds the region.
#[derive(Debug, Clone)]
pub struct ConfigShmClient {
    pub path: String,
}

impl ConfigShmClient {
    pub fn default_path() -> (r: String)
        ensures
            r@ == "/dev/shm/richat"@,
    {
        String::from_str("/dev/shm/richat")
    }
}

/// The servers that an application starts.
#[derive(Debug, Clone)]
pub struct ConfigAppsRichat {
    pub shm: Option<ConfigShmServer>,
}

impl Default for ConfigAppsRichat {
    fn default() -> (r: Self)
        ensures
            r.shm is None,
    {
        ConfigAppsRichat { shm: None }
    }
}

/// What a reader of a V2 region lets through. Empty lists of keys let every key through.
#[derive(Debug, Clone)]
pub struct ConfigShmPreFilter {
    pub disable_accounts: bool,
    pub disable_transactions: bool,
    pub disable_entries: bool,
    pub exclude_votes: bool,
    pub exclude_failed: bool,
    pub account_pubkeys: Vec<[u8; 32]>,
    pub account_owners: Vec<[u8; 32]>,
    pub transaction_accounts: Vec<[u8; 32]>,
}

impl Default for ConfigShmPreFilter {
    fn default() -> (r: Self)
        ensures
            !r.disable_accounts,
            !r.disable_transactions,
            !r.disable_entries,
            !r.exclude_votes,
            !r.exclude_failed,
            r.account_pubkeys@ == Seq::<[u8; 32]>::empty(),
            r.account_owners@ == Seq::<[u8; 32]>::empty(),
            r.transaction_accounts@ == Seq::<[u8; 32]>::empty(),
    {
        ConfigShmPreFilter {
            disable_accounts: false,
            disable_transactions: false,
            disable_entries: false,
            exclude_votes: false,
            exclude_failed: false,
            account_pubkeys: Vec::new(),
            account_owners: Vec::new(),
            transaction_accounts: Vec::new(),
        }
    }
}

} // verus!
