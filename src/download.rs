//! The decisions of one download, from fetch to manifest commit.
//!
//! The caller performs each action and reports what happened as an event:
//! it fetches, writes the bytes to the partial path and renames them into
//! place, and commits the record to the manifest under the manifest lock.
use vstd::prelude::*;

use crate::error::CacheError;
use crate::record::AssetRecord;
use crate::sanitize::{joined, local_path_for, partial_path_for, partial_suffix, sanitized};

verus! {

/// Whether an HTTP status code reports success (the 2xx range).
pub open spec fn status_success(status: u16) -> bool {
    200 <= status <= 299
}

/// Whether an HTTP status code reports success (the 2xx range).
pub fn is_success_status(status: u16) -> (r: bool)
    ensures
        r == status_success(status),
{
    200 <= status && status <= 299
}

/// Relies on `chrono::DateTime::<Utc>::from(SystemTime)` and
/// `DateTime::to_rfc3339`: the current time as an RFC 3339 string. The
/// conversion handles clocks set before the Unix epoch. The formatter always
/// writes the date, `T`, the time and the offset `+00:00`, so the string has
/// at least 25 characters; nothing else is stated of a value that depends on
/// the clock.
#[verifier::external_body]
fn now_rfc3339() -> (r: String)
    ensures
        r@.len() >= 25,
{
    chrono::DateTime::<chrono::Utc>::from(std::time::SystemTime::now()).to_rfc3339()
}

/// Where a download stands.
#[derive(Debug)]
pub enum Stage {
    /// Waiting for the fetch to complete.
    Fetching,
    /// The payload of `size` bytes is being written into place.
    Writing { size: u64 },
    /// The record is being committed to the manifest.
    Committing { record: AssetRecord },
    /// Over; no further event changes anything.
    Finished,
}

/// What the caller observed after performing the last action.
#[derive(Debug)]
pub enum Event {
    /// The fetch failed: network error or timeout.
    FetchFailed,
    /// The fetch returned a response with this status and a payload of `size` bytes.
    Fetched { status: u16, size: u64 },
    /// Writing the payload or renaming it into place failed.
    WriteFailed,
    /// The payload is in place under the final path.
    Written,
    /// Loading or saving the manifest failed with this error.
    CommitFailed { error: CacheError },
    /// The record is in the saved manifest.
    Committed,
}

/// What the caller is to do next.
#[derive(Debug)]
pub enum Action {
    /// Write the fetched payload to the partial path, then rename it to the final path.
    Write,
    /// Under the manifest lock: load the manifest, insert this record, save it.
    Commit { record: AssetRecord },
    /// The download is over with this result; drop any partial file.
    Finish { result: Result<AssetRecord, CacheError> },
    /// The event does not belong to the current stage; nothing changed.
    Ignore,
}

/// One download of the asset `key` into `local_path`.
#[derive(Debug)]
pub struct Download {
    pub key: String,
    pub group_label: String,
    /// The final location of the asset, derived from its key.
    pub local_path: String,
    /// Where the payload is written before it is renamed to `local_path`.
    pub partial_path: String,
    pub stage: Stage,
}

/// `a` ends the download with the error `e`.
pub open spec fn fails_with(a: Action, e: CacheError) -> bool {
    &&& a is Finish
    &&& a->Finish_result is Err
    &&& a->Finish_result->Err_0 == e
}

/// `r` records the completion of `d` with a payload of `size` bytes, with
/// a timestamp of at least 25 characters (an RFC 3339 time; which time it
/// is, the clock decides).
pub open spec fn records_download(r: AssetRecord, d: Download, size: u64) -> bool {
    &&& r.key@ == d.key@
    &&& r.group_label@ == d.group_label@
    &&& r.local_path@ == d.local_path@
    &&& r.size_bytes == size
    &&& r.downloaded_at@.len() >= 25
}

impl Download {
    /// A download of `key` into `offline_dir`, waiting for its fetch.
    pub fn new(offline_dir: &str, key: String, group_label: String) -> (r: Download)
        ensures
            r.key == key,
            r.group_label == group_label,
            r.local_path@ == joined(offline_dir@, sanitized(key@)),
            r.partial_path@ == r.local_path@ + partial_suffix(),
            r.stage is Fetching,
    {
        let local_path = local_path_for(offline_dir, key.as_str());
        let partial_path = partial_path_for(local_path.as_str());
        Download { key, group_label, local_path, partial_path, stage: Stage::Fetching }
    }

    /// The record of this download, completed at `downloaded_at` with `size` bytes.
    pub fn record(&self, downloaded_at: String, size: u64) -> (r: AssetRecord)
        ensures
            r.key@ == self.key@,
            r.group_label@ == self.group_label@,
            r.local_path@ == self.local_path@,
            r.downloaded_at == downloaded_at,
            r.size_bytes == size,
    {
        AssetRecord::new(
            self.key.clone(),
            self.group_label.clone(),
            self.local_path.clone(),
            downloaded_at,
            size,
        )
    }

    /// Advances the download by what the caller observed.
    pub fn step(&mut self, event: Event) -> (a: Action)
        ensures
            final(self).key == old(self).key,
            final(self).group_label == old(self).group_label,
            final(self).local_path == old(self).local_path,
            final(self).partial_path == old(self).partial_path,
            match (old(self).stage, event) {
                (Stage::Fetching, Event::FetchFailed) => {
                    &&& final(self).stage is Finished
                    &&& fails_with(a, CacheError::DownloadFailed)
                },
                (Stage::Fetching, Event::Fetched { status, size }) => if status_success(status) {
                    &&& final(self).stage == (Stage::Writing { size })
                    &&& a is Write
                } else {
                    &&& final(self).stage is Finished
                    &&& fails_with(a, CacheError::DownloadFailed)
                },
                (Stage::Writing { size: _ }, Event::WriteFailed) => {
                    &&& final(self).stage is Finished
                    &&& fails_with(a, CacheError::IoError)
                },
                (Stage::Writing { size }, Event::Written) => {
                    &&& final(self).stage is Committing
                    &&& a is Commit
                    &&& a->Commit_record@ == final(self).stage->Committing_record@
                    &&& records_download(a->Commit_record, *old(self), size)
                },
                (Stage::Committing { record: _ }, Event::CommitFailed { error }) => {
                    &&& final(self).stage is Finished
                    &&& fails_with(a, error)
                },
                (Stage::Committing { record }, Event::Committed) => {
                    &&& final(self).stage is Finished
                    &&& a is Finish
                    &&& a->Finish_result is Ok
                    &&& a->Finish_result->Ok_0@ == record@
                },
                _ => a is Ignore && final(self).stage == old(self).stage,
            },
    {
        let mut stage = Stage::Finished;
        std::mem::swap(&mut self.stage, &mut stage);
        match (stage, event) {
            (Stage::Fetching, Event::FetchFailed) => {
                Action::Finish { result: Err(CacheError::DownloadFailed) }
            },
            (Stage::Fetching, Event::Fetched { status, size }) => {
                if is_success_status(status) {
                    self.stage = Stage::Writing { size };
                    Action::Write
                } else {
                    Action::Finish { result: Err(CacheError::DownloadFailed) }
                }
            },
            (Stage::Writing { size: _ }, Event::WriteFailed) => {
                Action::Finish { result: Err(CacheError::IoError) }
            },
            (Stage::Writing { size }, Event::Written) => {
                let record = self.record(now_rfc3339(), size);
                let commit = record.duplicate();
                self.stage = Stage::Committing { record };
                Action::Commit { record: commit }
            },
            (Stage::Committing { record: _ }, Event::CommitFailed { error }) => {
                Action::Finish { result: Err(error) }
            },
            (Stage::Committing { record }, Event::Committed) => {
                Action::Finish { result: Ok(record) }
            },
            (other, _) => {
                self.stage = other;
                Action::Ignore
            },
        }
    }
}

} // verus!
