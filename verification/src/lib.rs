//! Shared-memory ring buffer transport.
//!
//! One writer appends messages to a memory region made of a fixed header, a ring of index
//! entries and a ring of message bytes; any number of readers follow it and notice when they
//! have been overtaken. The library holds the region's layout, the writer's and the reader's
//! decisions, the account bloom filter and the pre-filter built on it, and the rules by which
//! sources are subscribed, polled and reloaded. Files, memory maps, threads and atomics are
//! left to the application around it.

pub mod bloom256;
pub mod bytes;
pub mod capacity;
pub mod config;
pub mod filter_laws;
pub mod journal;
pub mod journal_laws;
pub mod layout;
pub mod plugin;
pub mod plugin_laws;
pub mod pre_filter;
pub mod quantity;
pub mod reader;
pub mod reader_laws;
pub mod region_laws;
pub mod ring;
pub mod server;
pub mod source;
pub mod source_call_laws;
pub mod source_laws;
pub mod writer;
pub mod writer_laws;
