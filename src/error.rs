use vstd::prelude::*;

verus! {

/// The ways a cache operation can fail.
#[derive(Debug, Clone, Copy, PartialEq, Eq, Structural)]
pub enum CacheError {
    /// The fetch failed: network error, timeout or a non-success status.
    DownloadFailed,
    /// A filesystem operation failed.
    IoError,
    /// A persisted manifest exists but does not describe a valid manifest.
    CorruptManifest,
    /// No record for the key, or its file is missing.
    NotAvailable,
}

} // verus!
