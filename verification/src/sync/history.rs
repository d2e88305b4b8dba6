//! The record kept of each run in the run history.

use vstd::prelude::*;
use crate::sync::outcome::{failed_count, summary_text, SyncOutcome};
use crate::text::owned;

verus! {

/// One run of one job, as the history keeps it.
#[derive(Clone, Debug, PartialEq, Eq)]
pub struct SyncHistoryEntry {
    pub job_id: String,
    pub label: String,
    pub started_at_unix: u64,
    pub finished_at_unix: u64,
    pub copied: usize,
    pub skipped: usize,
    pub deleted: usize,
    pub failed: usize,
    pub cancelled: bool,
    pub summary: String,
}

impl SyncHistoryEntry {
    /// The history record of a run of job `job_id` labelled `label`.
    pub fn from_outcome(
        job_id: &str,
        label: &str,
        started_at_unix: u64,
        finished_at_unix: u64,
        outcome: &SyncOutcome,
    ) -> (r: SyncHistoryEntry)
        requires
            outcome.failures@.len() + outcome.truncated_failures <= usize::MAX,
        ensures
            r.job_id@ == job_id@,
            r.label@ == label@,
            r.started_at_unix == started_at_unix,
            r.finished_at_unix == finished_at_unix,
            r.copied == outcome.copied,
            r.skipped == outcome.skipped,
            r.deleted == outcome.deleted,
            r.failed == failed_count(*outcome),
            r.cancelled == outcome.cancelled,
            r.summary@ == summary_text(
                outcome.copied as nat,
                outcome.skipped as nat,
                outcome.deleted as nat,
                failed_count(*outcome),
                outcome.resumed,
                outcome.cancelled,
            ),
    {
        SyncHistoryEntry {
            job_id: owned(job_id),
            label: owned(label),
            started_at_unix,
            finished_at_unix,
            copied: outcome.copied,
            skipped: outcome.skipped,
            deleted: outcome.deleted,
            failed: outcome.failures.len() + outcome.truncated_failures,
            cancelled: outcome.cancelled,
            summary: outcome.summary(),
        }
    }
}

} // verus!
