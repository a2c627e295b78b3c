//! The error taxonomy of the storage subsystem.

use vstd::prelude::*;

verus! {

/// Errors surfaced by the stores, the worker and the front door.
#[derive(Clone, Copy, Debug, PartialEq, Eq, Structural)]
pub enum StoreError {
    /// A read asked for a version strictly below the store's watermark.
    VersionPruned,
    /// A write batch could not be persisted; fatal for the worker.
    CommitFailed,
    /// A stored value failed to decode as the requested record type.
    ValueCorrupt,
    /// A lookup used a key kind the store does not serve.
    UnsupportedStateKey,
    /// A persisted watermark exceeds the latest committed version.
    WatermarkBeyondLatest,
}

} // verus!
