use convenience_tools::config::{SyncJob, WatchMode};
use convenience_tools::watch::{DebounceState, WatchBook, WatchChange};

#[test]
fn debounce_coalesces_changes_until_two_seconds_are_quiet() {
    // Milliseconds on a monotonic clock.
    let started: u64 = 10_000;
    let mut state = DebounceState::new();

    state.mark("job-1".to_string(), started);
    assert!(!state.ready("job-1", started + 1_000));

    // A second change starts the quiet period again.
    state.mark("job-1".to_string(), started + 1_000);
    assert!(!state.ready("job-1", started + 2_999));
    assert!(state.ready("job-1", started + 3_000));
    assert!(!state.ready("job-1", started + 4_000));
}

#[test]
fn cleared_jobs_and_other_jobs_are_not_ready() {
    let mut state = DebounceState::new();
    state.mark("a".to_string(), 0);
    state.mark("b".to_string(), 0);
    state.clear("a");
    assert!(!state.ready("a", 10_000));
    assert!(!state.ready("c", 10_000));
    assert!(state.ready("b", 2_000));
    // A clock that went back does not count as quiet time.
    state.mark("d".to_string(), 5_000);
    assert!(!state.ready("d", 1_000));
}

fn realtime_job(id: &str, source: &str, mode: WatchMode) -> SyncJob {
    let mut job = SyncJob::with_id(id.to_string());
    job.source = source.to_string();
    job.watch_mode = mode;
    job
}

fn watches(changes: &[WatchChange]) -> Vec<(String, String)> {
    changes
        .iter()
        .filter_map(|c| match c {
            WatchChange::Watch { id, path } => Some((id.clone(), path.clone())),
            WatchChange::Reset { .. } => None,
        })
        .collect()
}

#[test]
fn watch_failure_is_reported_once_until_the_job_mode_changes() {
    let mut book = WatchBook::new();
    let jobs = vec![realtime_job("job-1", "C:\\src", WatchMode::Realtime)];
    let changes = book.reconcile(&jobs);
    assert_eq!(watches(&changes), vec![("job-1".to_string(), "C:\\src".to_string())]);
    book.watch_started("job-1", "C:\\src".to_string());
    assert!(book.is_watching("job-1"));

    // The first failure is reported; the watcher was running.
    assert_eq!(book.watch_failed("job-1"), (true, true));
    assert!(!book.is_watching("job-1"));
    // The same failure again is not.
    assert_eq!(book.watch_failed("job-1"), (false, false));
    // Nothing changed: a failed job is not watched again.
    assert!(watches(&book.reconcile(&jobs)).is_empty());

    // Changing the job's mode resets it, and a new failure is reported again.
    book.reconcile(&vec![realtime_job("job-1", "C:\\src", WatchMode::Interval)]);
    let again = book.reconcile(&jobs);
    assert_eq!(watches(&again), vec![("job-1".to_string(), "C:\\src".to_string())]);
    assert_eq!(book.watch_failed("job-1").0, true);
}

fn resets(changes: &[WatchChange]) -> Vec<(String, bool)> {
    changes
        .iter()
        .filter_map(|c| match c {
            WatchChange::Reset { id, unwatch } => Some((id.clone(), *unwatch)),
            WatchChange::Watch { .. } => None,
        })
        .collect()
}

#[test]
fn reconcile_keeps_fitting_watchers_and_resets_changed_or_removed_jobs() {
    let mut book = WatchBook::new();
    let jobs = vec![
        realtime_job("a", "C:\\a", WatchMode::Realtime),
        realtime_job("b", "C:\\b", WatchMode::Realtime),
    ];
    book.reconcile(&jobs);
    book.watch_started("a", "C:\\a".to_string());
    book.watch_started("b", "C:\\b".to_string());

    // Nothing changed: both watchers stay, nothing is asked.
    let same = book.reconcile(&jobs);
    assert!(same.is_empty());
    assert!(book.is_watching("a") && book.is_watching("b"));

    // "a" now watches another folder, "b" is gone.
    let moved = vec![realtime_job("a", "D:\\a", WatchMode::Realtime)];
    let changes = book.reconcile(&moved);
    let mut r = resets(&changes);
    r.sort();
    assert_eq!(r, vec![("a".to_string(), true), ("b".to_string(), true)]);
    assert_eq!(watches(&changes), vec![("a".to_string(), "D:\\a".to_string())]);
    assert!(!book.is_watching("a"));
    assert!(!book.is_watching("b"));
}
