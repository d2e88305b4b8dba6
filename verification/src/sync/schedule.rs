//! The decisions of the background loop that schedules runs: which job runs on a
//! tick, when an interval has elapsed, how often progress is passed on, what is
//! kept of an interrupted run, and what the log says of a finished one.

use vstd::prelude::*;
use crate::config::{first_with_id, find_job_index, SyncJob};
use crate::sync::outcome::{failed_count, summary_text, SyncOutcome};
use crate::text::{chars_of, push_all, push_str, string_from};

verus! {

/// Progress events are passed on at most this often (milliseconds).
pub const PROGRESS_EVENT_INTERVAL_MS: u64 = 120;

/// The resume point is written to the settings at most this often (milliseconds).
pub const CURSOR_PERSIST_INTERVAL_MS: u64 = 5000;

/// A job runs on a tick when the user asked for it, or when automatic runs are
/// on, the job is enabled and it is due. The global switch stops automatic runs
/// only: a run the user asked for always happens.
pub fn should_run(manual_requested: bool, auto_enabled: bool, job_enabled: bool, due: bool) -> (r: bool)
    ensures
        r == (manual_requested || (auto_enabled && job_enabled && due)),
{
    manual_requested || (auto_enabled && job_enabled && due)
}

/// The interval actually waited: zero counts as one second.
pub open spec fn effective_interval_secs(interval_secs: u32) -> nat {
    if interval_secs == 0 {
        1
    } else {
        interval_secs as nat
    }
}

/// An interval job is due when it never ran in this process, or when its interval
/// has elapsed since the last run (`elapsed_ms`, milliseconds).
pub fn interval_due(elapsed_ms: Option<u64>, interval_secs: u32) -> (r: bool)
    ensures
        r == match elapsed_ms {
            None => true,
            Some(e) => e >= effective_interval_secs(interval_secs) * 1000,
        },
{
    match elapsed_ms {
        None => true,
        Some(e) => {
            let secs: u64 = if interval_secs == 0 {
                1
            } else {
                interval_secs as u64
            };
            e >= secs * 1000
        },
    }
}

/// Seconds since a stored Unix time, or `None` when the stored time lies in the
/// future (the clock went back): such a job is treated as never run.
pub fn elapsed_since_unix(now_unix: u64, then_unix: u64) -> (r: Option<u64>)
    ensures
        then_unix <= now_unix ==> r == Some((now_unix - then_unix) as u64),
        then_unix > now_unix ==> r is None,
{
    now_unix.checked_sub(then_unix)
}

/// Whether a throttled event may go out: the first one always, later ones once
/// `interval_ms` has passed since the previous one.
pub fn throttle_open(since_last_ms: Option<u64>, interval_ms: u64) -> (r: bool)
    ensures
        r == match since_last_ms {
            None => true,
            Some(e) => e >= interval_ms,
        },
{
    match since_last_ms {
        None => true,
        Some(e) => e >= interval_ms,
    }
}

/// What is kept of a finished run for the next one: the path last reported, when
/// the run was stopped and had reported one. A run that went to the end starts the
/// next one from the beginning.
pub fn next_resume_cursor(cancelled: bool, last_reported: &str) -> (r: Option<String>)
    ensures
        r is Some <==> (cancelled && last_reported@.len() > 0),
        r is Some ==> r->0@ == last_reported@,
{
    if cancelled && !last_reported.is_empty() {
        Some(crate::text::owned(last_reported))
    } else {
        None
    }
}

/// The jobs after recording the progress of job `id`: its resume point becomes
/// `cursor`, and its last run time `last_run_unix` when given. Only the first job
/// with that id changes; without one nothing changes.
pub open spec fn with_job_progress(
    jobs: Seq<SyncJob>,
    id: Seq<char>,
    cursor: Option<String>,
    last_run_unix: Option<u64>,
) -> Seq<SyncJob> {
    match first_with_id(jobs, id) {
        Some(k) => jobs.update(
            k,
            SyncJob {
                resume_cursor: cursor,
                last_run_unix: match last_run_unix {
                    Some(t) => Some(t),
                    None => jobs[k].last_run_unix,
                },
                ..jobs[k]
            },
        ),
        None => jobs,
    }
}

/// Records the progress of one job in the stored list of jobs.
pub fn apply_job_progress(
    jobs: &mut Vec<SyncJob>,
    id: &str,
    cursor: Option<String>,
    last_run_unix: Option<u64>,
)
    ensures
        final(jobs)@ == with_job_progress(old(jobs)@, id@, cursor, last_run_unix),
{
    let idc = chars_of(id);
    let found = find_job_index(jobs.as_slice(), idc.as_slice());
    match found {
        Some(k) => {
            jobs[k].resume_cursor = cursor;
            if let Some(t) = last_run_unix {
                jobs[k].last_run_unix = Some(t);
            }
            proof {
                assert(jobs@ =~= with_job_progress(old(jobs)@, id@, cursor, last_run_unix));
            }
        },
        None => {},
    }
}

/// Whether a job with this id is still configured (run times of removed jobs are
/// forgotten).
pub fn job_listed(jobs: &[SyncJob], id: &str) -> (r: bool)
    ensures
        r == (first_with_id(jobs@, id@) is Some),
{
    let idc = chars_of(id);
    find_job_index(jobs, idc.as_slice()).is_some()
}

/// Level of a line in the log.
#[derive(Clone, Copy, Debug, PartialEq, Eq, Structural)]
pub enum LogLevel {
    Info,
    Warn,
}

/// The log line for a finished run of the job labelled `label`, if the run is
/// worth a line: a stopped run, a run with failures, or one that changed files.
pub open spec fn finish_log(label: Seq<char>, o: SyncOutcome) -> Option<(LogLevel, Seq<char>)> {
    let summary = summary_text(
        o.copied as nat,
        o.skipped as nat,
        o.deleted as nat,
        failed_count(o),
        o.resumed,
        o.cancelled,
    );
    if o.cancelled {
        Some((LogLevel::Info, "동기화 '"@ + label + "' 중지됨: "@ + summary))
    } else if o.failures@.len() > 0 || o.truncated_failures > 0 {
        Some((LogLevel::Warn, "동기화 '"@ + label + "' 완료(실패 포함): "@ + summary))
    } else if o.copied > 0 || o.deleted > 0 {
        Some((LogLevel::Info, "동기화 '"@ + label + "' 완료: "@ + summary))
    } else {
        None
    }
}

fn labelled_line(head: &str, label: &str, middle: &str, summary: &String) -> (r: String)
    ensures
        r@ == head@ + label@ + middle@ + summary@,
{
    let mut v: Vec<char> = Vec::new();
    push_str(&mut v, head);
    push_str(&mut v, label);
    push_str(&mut v, middle);
    push_str(&mut v, summary.as_str());
    string_from(v.as_slice())
}

/// Builds the log line of a finished run, as [`finish_log`] says.
pub fn finished_run_log(label: &str, outcome: &SyncOutcome) -> (r: Option<(LogLevel, String)>)
    requires
        outcome.failures@.len() + outcome.truncated_failures <= usize::MAX,
    ensures
        match r {
            Some((level, line)) => finish_log(label@, *outcome) == Some((level, line@)),
            None => finish_log(label@, *outcome) is None,
        },
{
    if outcome.cancelled {
        let s = outcome.summary();
        Some((LogLevel::Info, labelled_line("동기화 '", label, "' 중지됨: ", &s)))
    } else if outcome.has_failures() {
        let s = outcome.summary();
        Some((LogLevel::Warn, labelled_line("동기화 '", label, "' 완료(실패 포함): ", &s)))
    } else if outcome.copied > 0 || outcome.deleted > 0 {
        let s = outcome.summary();
        Some((LogLevel::Info, labelled_line("동기화 '", label, "' 완료: ", &s)))
    } else {
        None
    }
}

/// After a run: a stopped run also stops the rest of the tick and drops the runs
/// still asked for by hand. Returns whether the tick stops here.
pub fn after_run(cancelled: bool, run_now: &mut Vec<String>) -> (stop_tick: bool)
    ensures
        stop_tick == cancelled,
        cancelled ==> final(run_now)@.len() == 0,
        !cancelled ==> final(run_now)@ == old(run_now)@,
{
    if cancelled {
        run_now.clear();
    }
    cancelled
}

/// Whether `job` is due: a job that runs on changes once its changes have been
/// quiet for [`crate::watch::REALTIME_DEBOUNCE_MS`] (they are then taken), any
/// other job once its interval has elapsed since its last run (`elapsed_ms`, none
/// when it never ran in this process).
pub fn job_due(
    job: &SyncJob,
    debounce: &mut crate::watch::DebounceState,
    now_ms: u64,
    elapsed_ms: Option<u64>,
) -> (r: bool)
    requires
        old(debounce).wf(),
    ensures
        final(debounce).wf(),
        job.watch_mode == crate::config::WatchMode::Realtime ==> {
            &&& r == (old(debounce).view().contains_key(job.id@) && now_ms >= old(debounce).view()[job.id@]
                + crate::watch::REALTIME_DEBOUNCE_MS)
            &&& r ==> final(debounce).view() == old(debounce).view().remove(job.id@)
            &&& !r ==> final(debounce).view() == old(debounce).view()
        },
        job.watch_mode != crate::config::WatchMode::Realtime ==> {
            &&& r == match elapsed_ms {
                None => true,
                Some(e) => e >= effective_interval_secs(job.interval_secs) * 1000,
            }
            &&& final(debounce).view() == old(debounce).view()
        },
{
    match job.watch_mode {
        crate::config::WatchMode::Realtime => debounce.ready(job.id.as_str(), now_ms),
        _ => interval_due(elapsed_ms, job.interval_secs),
    }
}

} // verus!
