//! Store configuration and the errors surfaced to callers.
use vstd::prelude::*;

verus! {

/// When the write path asks for a durability barrier. Durations are in
/// milliseconds.
#[derive(Clone, Copy, Debug, PartialEq, Eq, Structural)]
pub enum SyncPolicy {
    /// After every successful append.
    Always,
    /// Never; the OS flushes at close.
    Never,
    /// When at least this long has passed since the last sync.
    Periodic(u64),
    /// When at least this many bytes were appended since the last sync.
    PerThreadBufferBytes(u32),
    /// When at least this many bytes were appended since the last sync.
    TotalBufferBytes(u32),
}

/// The configuration of a write store. Durations are in milliseconds.
#[derive(Clone, Copy, Debug, PartialEq, Eq, Structural)]
pub struct Options {
    pub sync_policy: SyncPolicy,
    pub file_roll_size: u64,
    pub blocking_minimum_retention: Option<u64>,
    pub max_total_bytes: u64,
    pub max_file_age: Option<u64>,
}

/// The options a producer is opened with.
pub type ProducerOptions = Options;

pub const DEFAULT_SYNC_INTERVAL_MS: u64 = 1000;

pub const DEFAULT_FILE_ROLL_SIZE: u64 = 67_108_864;

pub const DEFAULT_MAX_TOTAL_BYTES: u64 = 536_870_912;

impl Default for Options {
    fn default() -> (r: Options)
        ensures
            r.sync_policy == SyncPolicy::Periodic(DEFAULT_SYNC_INTERVAL_MS),
            r.file_roll_size == DEFAULT_FILE_ROLL_SIZE,
            r.blocking_minimum_retention is None,
            r.max_total_bytes == DEFAULT_MAX_TOTAL_BYTES,
            r.max_file_age is None,
    {
        Options {
            sync_policy: SyncPolicy::Periodic(DEFAULT_SYNC_INTERVAL_MS),
            file_roll_size: DEFAULT_FILE_ROLL_SIZE,
            blocking_minimum_retention: None,
            max_total_bytes: DEFAULT_MAX_TOTAL_BYTES,
            max_file_age: None,
        }
    }
}

/// The kinds of failure a store reports.
#[derive(Clone, Copy, Debug, PartialEq, Eq, Structural)]
pub enum LogError {
    /// The filesystem failed.
    Io,
    /// The segment files contradict each other or their names.
    Corruption,
    /// An internal precondition failed.
    Invariant,
    /// Retention forbids accepting more data for now.
    Backpressure,
}

} // verus!
