//! An offline asset cache: a manifest of downloaded assets keyed by their
//! remote path, the decisions of a download from fetch to commit, and the
//! storage accounting that cross-checks records against the files on disk.
//!
//! Everything that touches the filesystem or the network is done by the
//! caller, which hands this library plain values (an HTTP status, a byte
//! count, which files exist) and performs the actions it returns.

use vstd::prelude::*;

pub mod accounting;
pub mod download;
pub mod error;
pub mod inflight;
pub mod manifest;
pub mod record;
pub mod sanitize;

verus! {

} // verus!
