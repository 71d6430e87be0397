//! Outcomes of batch maintenance jobs.

use crate::ids::TrackId;
use vstd::prelude::*;

verus! {

/// Outcome of a batch operation over many items.
#[derive(Debug)]
pub struct BatchOutcome {
    /// Number of items that succeeded.
    pub succeeded: u64,
    /// Number of items that were skipped.
    pub skipped: u64,
    /// Descriptions of the items that failed.
    pub failed: Vec<String>,
    /// Error that aborted the batch operation prematurely.
    ///
    /// If `None` the batch operation finished regularly.
    pub aborted_error: Option<String>,
}

impl Default for BatchOutcome {
    /// A fresh outcome: nothing counted, nothing failed, not aborted.
    fn default() -> (r: Self)
        ensures
            r.succeeded == 0,
            r.skipped == 0,
            r.failed@ == Seq::<String>::empty(),
            r.aborted_error is None,
    {
        BatchOutcome { succeeded: 0, skipped: 0, failed: Vec::new(), aborted_error: None }
    }
}

impl BatchOutcome {
    /// Marks the outcome as aborted by the given error, keeping the
    /// counts gathered so far. An outcome aborts at most once.
    pub fn abort(self, error: String) -> (r: Self)
        requires
            self.aborted_error is None,
        ensures
            r.succeeded == self.succeeded,
            r.skipped == self.skipped,
            r.failed == self.failed,
            r.aborted_error matches Some(e) && e == error,
    {
        BatchOutcome {
            succeeded: self.succeeded,
            skipped: self.skipped,
            failed: self.failed,
            aborted_error: Some(error),
        }
    }
}

/// Why a track's media file is unusable.
#[derive(Debug, Clone, PartialEq, Eq)]
pub enum TrackFileIssue {
    /// Probing the file failed; the description of the failure.
    FileError(String),
    /// The file does not exist.
    FileMissing,
}

/// A track whose media file is missing or inaccessible.
#[derive(Debug, Clone)]
pub struct TrackFileIssueItem {
    pub db_id: TrackId,
    pub db_path: String,
    /// The absolute file path.
    pub file_path: String,
    pub file_issue: TrackFileIssue,
}

} // verus!
