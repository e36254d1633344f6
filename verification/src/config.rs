//! The daemon's settings.
use vstd::prelude::*;
use crate::time::{Span, UtcInstant};

verus! {

/// Where the scan starts and which RPC nodes it asks.
#[derive(Debug)]
pub struct Scanner {
    pub rpc_nodes: Vec<String>,
    pub start_block: Option<u64>,
    pub start_datetime: Option<UtcInstant>,
}

/// Where podpings are persisted.
#[derive(Debug, Clone, Copy, PartialEq, Eq)]
pub enum WriterType {
    Disk,
    ObjectStorage,
}

/// How podpings are written.
#[derive(Debug)]
pub struct Writer {
    pub enabled: bool,
    pub disable_persistence_warnings: bool,
    pub type_: Option<WriterType>,
    pub disk_directory: Option<String>,
    pub disk_trim_old: Option<bool>,
    pub disk_trim_keep_duration: Option<Span>,
    pub object_storage_base_url: Option<String>,
    pub object_storage_bucket_name: Option<String>,
    pub object_storage_access_key: Option<String>,
    pub object_storage_access_secret: Option<String>,
}

#[derive(Debug)]
pub struct Settings {
    pub debug: bool,
    pub scanner: Scanner,
    pub writer: Writer,
}

/// The warnings to log at start-up when podpings are not persisted.
#[derive(Debug, Clone, Copy, PartialEq, Eq)]
pub struct PersistenceWarnings {
    /// Warn that the persistent writer is disabled.
    pub writer_disabled: bool,
    /// Warn that a configured start block or time applies on every start.
    pub start_repeats: bool,
}

/// With the persistent writer disabled and its warnings not silenced, warn of
/// it, and also of a configured start block or start time, which then applies
/// on every start.
pub fn persistence_warnings(settings: &Settings) -> (w: PersistenceWarnings)
    ensures
        w.writer_disabled == (!settings.writer.enabled && !settings.writer.disable_persistence_warnings),
        w.start_repeats == (w.writer_disabled && (settings.scanner.start_block is Some
            || settings.scanner.start_datetime is Some)),
{
    let writer_disabled = !settings.writer.enabled && !settings.writer.disable_persistence_warnings;
    PersistenceWarnings {
        writer_disabled,
        start_repeats: writer_disabled && (settings.scanner.start_block.is_some()
            || settings.scanner.start_datetime.is_some()),
    }
}

} // verus!
