use convenience_tools::config::SyncJob;
use convenience_tools::sync::failures::{drop_oldest, take_in_failures, MAX_TRACKED_FAILURES};
use convenience_tools::sync::history::SyncHistoryEntry;
use convenience_tools::sync::outcome::{SyncFailure, SyncOutcome};
use convenience_tools::sync::schedule::{
    after_run,
    apply_job_progress, elapsed_since_unix, finished_run_log, interval_due, job_listed,
    next_resume_cursor, should_run, throttle_open, LogLevel,
};

fn failure(path: &str) -> SyncFailure {
    SyncFailure { path: path.to_string(), reason: "잠김".to_string() }
}

#[test]
fn manual_runs_ignore_the_automatic_switch() {
    assert!(should_run(true, false, false, false));
    assert!(should_run(false, true, true, true));
    assert!(!should_run(false, false, true, true));
    assert!(!should_run(false, true, false, true));
    assert!(!should_run(false, true, true, false));
}

#[test]
fn intervals_and_throttles() {
    assert!(interval_due(None, 60));
    assert!(!interval_due(Some(59_999), 60));
    assert!(interval_due(Some(60_000), 60));
    // A zero interval waits one second.
    assert!(!interval_due(Some(999), 0));
    assert!(interval_due(Some(1_000), 0));
    assert_eq!(elapsed_since_unix(100, 40), Some(60));
    assert_eq!(elapsed_since_unix(40, 100), None);
    assert!(throttle_open(None, 120));
    assert!(!throttle_open(Some(119), 120));
    assert!(throttle_open(Some(120), 120));
}

#[test]
fn only_stopped_runs_keep_a_resume_point() {
    assert_eq!(next_resume_cursor(true, "nested/b.txt"), Some("nested/b.txt".to_string()));
    assert_eq!(next_resume_cursor(true, ""), None);
    assert_eq!(next_resume_cursor(false, "nested/b.txt"), None);
}

#[test]
fn progress_is_recorded_on_the_matching_job_only() {
    let mut a = SyncJob::with_id("a".to_string());
    a.last_run_unix = Some(5);
    let b = SyncJob::with_id("b".to_string());
    let mut jobs = vec![a, b];
    apply_job_progress(&mut jobs, "a", Some("x.txt".to_string()), None);
    assert_eq!(jobs[0].resume_cursor.as_deref(), Some("x.txt"));
    assert_eq!(jobs[0].last_run_unix, Some(5));
    apply_job_progress(&mut jobs, "a", None, Some(9));
    assert_eq!(jobs[0].resume_cursor, None);
    assert_eq!(jobs[0].last_run_unix, Some(9));
    assert!(jobs[1].resume_cursor.is_none());
    apply_job_progress(&mut jobs, "zzz", Some("y".to_string()), Some(1));
    assert!(job_listed(&jobs, "b"));
    assert!(!job_listed(&jobs, "zzz"));
}

#[test]
fn finished_runs_log_what_matters() {
    let mut outcome = SyncOutcome::new();
    assert!(finished_run_log("백업", &outcome).is_none());
    outcome.copied = 2;
    let (level, line) = finished_run_log("백업", &outcome).unwrap();
    assert_eq!(level, LogLevel::Info);
    assert_eq!(line, "동기화 '백업' 완료: 복사 2건, 건너뜀 0건");
    outcome.fail("a".to_string(), "b".to_string());
    assert_eq!(finished_run_log("백업", &outcome).unwrap().0, LogLevel::Warn);
    outcome.cancelled = true;
    let (level, line) = finished_run_log("백업", &outcome).unwrap();
    assert_eq!(level, LogLevel::Info);
    assert!(line.starts_with("동기화 '백업' 중지됨: "));
}

#[test]
fn history_records_the_counts_and_summary() {
    let mut outcome = SyncOutcome::new();
    outcome.copied = 1;
    outcome.fail("a".to_string(), "b".to_string());
    outcome.truncated_failures = 2;
    let entry = SyncHistoryEntry::from_outcome("job", "백업", 10, 20, &outcome);
    assert_eq!(entry.failed, 3);
    assert_eq!(entry.summary, "복사 1건, 건너뜀 0건, 실패 3건");
    assert_eq!((entry.started_at_unix, entry.finished_at_unix), (10, 20));
}

#[test]
fn known_failures_are_listed_once() {
    let mut known = vec![failure("a")];
    let incoming = vec![failure("a"), failure("b"), failure("b"), failure("c")];
    let silenced = vec!["c|잠김".to_string()];
    let (listed, fresh) = take_in_failures(&mut known, &incoming, &silenced);
    assert_eq!(listed, 2);
    assert_eq!(fresh, 1);
    let paths: Vec<&str> = known.iter().map(|f| f.path.as_str()).collect();
    assert_eq!(paths, vec!["a", "b", "c"]);
    // The next run meets the same failures: nothing new is listed or noticed.
    assert_eq!(take_in_failures(&mut known, &incoming, &Vec::new()), (0, 0));
    assert_eq!(known.len(), 3);
}

#[test]
fn the_failure_list_keeps_the_newest() {
    let mut known: Vec<SyncFailure> = Vec::new();
    let incoming: Vec<SyncFailure> = (0..(MAX_TRACKED_FAILURES + 10)).map(|i| failure(&format!("f{i}"))).collect();
    let (listed, fresh) = take_in_failures(&mut known, &incoming, &Vec::new());
    assert_eq!(listed, MAX_TRACKED_FAILURES + 10);
    assert_eq!(fresh, MAX_TRACKED_FAILURES + 10);
    assert_eq!(known.len(), MAX_TRACKED_FAILURES);
    assert_eq!(known[0].path, "f10");
    let mut v = vec![1, 2, 3];
    drop_oldest(&mut v, 2);
    assert_eq!(v, vec![2, 3]);
}

#[test]
fn a_stopped_run_stops_the_tick_and_drops_the_manual_queue() {
    let mut run_now = vec!["a".to_string(), "b".to_string()];
    assert!(!after_run(false, &mut run_now));
    assert_eq!(run_now.len(), 2);
    assert!(after_run(true, &mut run_now));
    assert!(run_now.is_empty());
}
