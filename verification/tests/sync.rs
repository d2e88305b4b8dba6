use convenience_tools::config::SyncJob;
use convenience_tools::sync::engine::{
    hidden_or_system, EntryMeta, SyncAction, SyncEngine, SyncEvent, TargetMeta,
};
use convenience_tools::sync::outcome::{describe_io_error, IoErrorInfo, IoErrorKind, SyncFailure, SyncOutcome};
use std::collections::{BTreeMap, BTreeSet};

/// An in-memory pair of folder trees that answers the engine's requests.
#[derive(Default)]
struct MemFs {
    dirs: BTreeSet<String>,
    files: BTreeMap<String, (Vec<u8>, i128)>,
    clock: i128,
    /// Files another program holds open without sharing.
    locked: BTreeSet<String>,
    /// Files carrying the hidden or system attribute.
    attribute_hidden: BTreeSet<String>,
}

fn join(base: &str, parts: &[String]) -> String {
    let mut p = base.to_string();
    for part in parts {
        p.push('/');
        p.push_str(part);
    }
    p
}

fn not_found() -> IoErrorInfo {
    IoErrorInfo { kind: IoErrorKind::NotFound, raw_os_error: Some(2), message: "not found".to_string() }
}

impl MemFs {
    fn mkdir(&mut self, path: &str) {
        let mut acc = String::new();
        for (i, part) in path.split('/').enumerate() {
            if i > 0 {
                acc.push('/');
            }
            acc.push_str(part);
            if !acc.is_empty() {
                self.dirs.insert(acc.clone());
            }
        }
    }

    fn write(&mut self, path: &str, data: &[u8]) {
        let parent = path.rsplit_once('/').map(|(p, _)| p).unwrap_or("");
        self.mkdir(parent);
        self.clock += 10_000_000_000;
        self.files.insert(path.to_string(), (data.to_vec(), self.clock));
    }

    fn read(&self, path: &str) -> Option<Vec<u8>> {
        self.files.get(path).map(|(d, _)| d.clone())
    }

    fn has(&self, path: &str) -> bool {
        self.files.contains_key(path) || self.dirs.contains(path)
    }

    fn children(&self, dir: &str) -> Option<Vec<String>> {
        if !self.dirs.contains(dir) {
            return None;
        }
        let prefix = format!("{dir}/");
        let mut names: BTreeSet<String> = BTreeSet::new();
        for p in self.dirs.iter().chain(self.files.keys()) {
            if let Some(rest) = p.strip_prefix(&prefix) {
                if !rest.is_empty() && !rest.contains('/') {
                    names.insert(rest.to_string());
                }
            }
        }
        // Listings come in no particular order; hand them out reversed.
        Some(names.into_iter().rev().collect())
    }

    fn remove(&mut self, path: &str) {
        let prefix = format!("{path}/");
        self.files.retain(|p, _| p != path && !p.starts_with(&prefix));
        self.dirs.retain(|p| p != path && !p.starts_with(&prefix));
    }
}

struct Run {
    outcome: SyncOutcome,
    reports: Vec<(String, usize)>,
}

/// Runs one job to the end. `cancel_on_report` raises the stop request when the
/// engine reports its first file.
fn run_job(fs: &mut MemFs, job: &SyncJob, resume_from: Option<&str>, cancel_on_report: bool) -> Run {
    let source = job.source.trim().to_string();
    let target = job.target.trim().to_string();
    let mut engine = SyncEngine::new(job, resume_from, '/');
    let mut event = SyncEvent::Start;
    let mut cancelled = false;
    let mut reports = Vec::new();
    loop {
        assert!(engine.expects(&event));
        let action = engine.step(event, cancelled);
        event = match action {
            SyncAction::CheckSource => SyncEvent::SourceChecked { is_dir: fs.dirs.contains(&source) },
            SyncAction::CheckTargetInside => SyncEvent::InsideChecked {
                inside: target == source || target.starts_with(&format!("{source}/")),
            },
            SyncAction::CreateTargetRoot => {
                fs.mkdir(&target);
                SyncEvent::Done(Ok(()))
            }
            SyncAction::ListSource { dir } => match fs.children(&join(&source, &dir)) {
                Some(names) => SyncEvent::Listed(Ok(names.into_iter().map(Ok).collect())),
                None => SyncEvent::Listed(Err(not_found())),
            },
            SyncAction::StatSource { path } => {
                let p = join(&source, &path);
                if fs.dirs.contains(&p) {
                    SyncEvent::Stat(Ok(EntryMeta { is_symlink: false, is_dir: true, hidden_attribute: None, len: 0, modified_nanos: None }))
                } else if let Some((data, at)) = fs.files.get(&p) {
                    SyncEvent::Stat(Ok(EntryMeta {
                        is_symlink: false,
                        is_dir: false,
                        hidden_attribute: if fs.attribute_hidden.contains(&p) { Some(true) } else { None },
                        len: data.len() as u64,
                        modified_nanos: Some(*at),
                    }))
                } else {
                    SyncEvent::Stat(Err(not_found()))
                }
            }
            SyncAction::CreateTargetDir { path } => {
                fs.mkdir(&join(&target, &path));
                SyncEvent::Done(Ok(()))
            }
            SyncAction::Report(progress) => {
                reports.push((progress.current_path, progress.copied));
                if cancel_on_report {
                    cancelled = true;
                }
                SyncEvent::Acknowledged
            }
            SyncAction::StatTarget { path } => match fs.files.get(&join(&target, &path)) {
                Some((data, at)) => SyncEvent::TargetStat(Ok(TargetMeta { len: data.len() as u64, modified_nanos: Some(*at) })),
                None => SyncEvent::TargetStat(Err(not_found())),
            },
            SyncAction::CopyFile { path } => {
                let from = join(&source, &path);
                if fs.locked.contains(&from) {
                    SyncEvent::Done(Err(IoErrorInfo {
                        kind: IoErrorKind::Other,
                        raw_os_error: Some(32),
                        message: "The process cannot access the file because it is being used by another process."
                            .to_string(),
                    }))
                } else {
                    let data = fs.read(&from).unwrap();
                    fs.write(&join(&target, &path), &data);
                    SyncEvent::Done(Ok(()))
                }
            }
            SyncAction::ListTarget { dir } => match fs.children(&join(&target, &dir)) {
                Some(names) => SyncEvent::Listed(Ok(names.into_iter().map(Ok).collect())),
                None => SyncEvent::Listed(Err(not_found())),
            },
            SyncAction::RemoveTarget { path } => {
                fs.remove(&join(&target, &path));
                SyncEvent::Done(Ok(()))
            }
            SyncAction::Proceed => SyncEvent::Acknowledged,
            SyncAction::Finished => break,
        };
    }
    Run { outcome: engine.outcome, reports }
}

fn job(source: &str, target: &str) -> SyncJob {
    let mut job = SyncJob::with_id("job".to_string());
    job.source = source.to_string();
    job.target = target.to_string();
    job
}

fn run_sync_job(fs: &mut MemFs, job: &SyncJob) -> SyncOutcome {
    run_job(fs, job, None, false).outcome
}

#[test]
fn tests_copies_nested_files_and_skips_unchanged_on_second_run() {
    let mut fs = MemFs::default();
    fs.mkdir("/r/src/nested");
    fs.write("/r/src/a.txt", b"hello");
    fs.write("/r/src/nested/b.txt", b"world");
    let job = job("/r/src", "/r/dst");

    let first = run_sync_job(&mut fs, &job);
    assert_eq!(first.copied, 2, "failures: {:?}", first.failures);
    assert_eq!(fs.read("/r/dst/a.txt").unwrap(), b"hello");
    assert_eq!(fs.read("/r/dst/nested/b.txt").unwrap(), b"world");

    let second = run_sync_job(&mut fs, &job);
    assert_eq!(second.copied, 0, "failures: {:?}", second.failures);
    assert_eq!(second.skipped, 2);
}

#[test]
fn tests_recopies_when_size_differs() {
    let mut fs = MemFs::default();
    fs.write("/r/src/a.txt", b"one");
    let job = job("/r/src", "/r/dst");
    run_sync_job(&mut fs, &job);

    fs.write("/r/src/a.txt", b"a much longer content");
    let outcome = run_sync_job(&mut fs, &job);
    assert_eq!(outcome.copied, 1);
    assert_eq!(fs.read("/r/dst/a.txt").unwrap(), b"a much longer content");
}

#[test]
fn tests_mirror_deletes_removes_extra_target_files() {
    let mut fs = MemFs::default();
    fs.write("/r/src/keep.txt", b"keep");
    fs.write("/r/dst/stale.txt", b"stale");
    let mut job = job("/r/src", "/r/dst");
    job.mirror_deletes = true;

    let outcome = run_sync_job(&mut fs, &job);
    assert_eq!(outcome.deleted, 1, "failures: {:?}", outcome.failures);
    assert!(!fs.has("/r/dst/stale.txt"));
    assert!(fs.has("/r/dst/keep.txt"));
}

#[test]
fn tests_rejects_target_inside_source() {
    let mut fs = MemFs::default();
    fs.mkdir("/r/src/inner");
    let outcome = run_sync_job(&mut fs, &job("/r/src", "/r/src/inner"));
    assert!(outcome.has_failures());
    assert!(outcome.failures[0].reason.contains("내부"));
}

#[test]
fn tests_missing_source_reports_failure() {
    let mut fs = MemFs::default();
    fs.mkdir("/r");
    let outcome = run_sync_job(&mut fs, &job("/r/nope", "/r/dst"));
    assert!(outcome.has_failures());
    assert_eq!(outcome.failures[0].path, "/r/nope");
    assert_eq!(outcome.failures[0].reason, "원본 폴더가 존재하지 않거나 폴더가 아닙니다.");
}

#[test]
fn empty_folders_are_a_settings_failure() {
    let mut fs = MemFs::default();
    let outcome = run_sync_job(&mut fs, &job("  ", "/r/dst"));
    assert_eq!(
        outcome.failures,
        vec![SyncFailure { path: "(설정)".to_string(), reason: "원본 또는 대상 폴더가 비어 있습니다.".to_string() }]
    );
}

#[test]
fn tests_progress_reports_each_file_with_running_counters() {
    let mut fs = MemFs::default();
    fs.write("/r/src/a.txt", b"one");
    fs.write("/r/src/nested/b.txt", b"two");
    let run = run_job(&mut fs, &job("/r/src", "/r/dst"), None, false);

    assert_eq!(run.outcome.copied, 2, "failures: {:?}", run.outcome.failures);
    let paths: Vec<&str> = run.reports.iter().map(|(p, _)| p.as_str()).collect();
    assert!(paths.contains(&"a.txt"), "{paths:?}");
    assert!(paths.iter().any(|p| p.ends_with("b.txt")), "{paths:?}");
    assert_eq!(paths, vec!["a.txt", "nested/b.txt"]);
    // Reported before the copy: the first report still counts no copy.
    assert_eq!(run.reports[0].1, 0);
    assert_eq!(run.reports[1].1, 1);
}

#[test]
fn tests_cancel_flag_stops_traversal_and_marks_outcome_cancelled() {
    let mut fs = MemFs::default();
    for index in 0..50 {
        fs.write(&format!("/r/src/file-{index:02}.txt"), b"payload");
    }
    let run = run_job(&mut fs, &job("/r/src", "/r/dst"), None, true);

    assert!(run.outcome.cancelled);
    assert!(run.outcome.copied < 50, "copied={}", run.outcome.copied);
    assert!(run.outcome.summary().contains("중지됨"), "{}", run.outcome.summary());
}

#[test]
fn tests_cancelled_run_does_not_mirror_delete_unvisited_targets() {
    let mut fs = MemFs::default();
    for index in 0..20 {
        fs.write(&format!("/r/src/keep-{index:02}.txt"), b"payload");
    }
    fs.write("/r/dst/keep-19.txt", b"stale");
    let mut cancelled_job = job("/r/src", "/r/dst");
    cancelled_job.mirror_deletes = true;
    let run = run_job(&mut fs, &cancelled_job, None, true);

    assert!(run.outcome.cancelled);
    assert_eq!(run.outcome.deleted, 0);
    assert!(fs.has("/r/dst/keep-19.txt"));
}

#[test]
fn sync_windows_long_path_error_code_has_actionable_reason() {
    let error = IoErrorInfo { kind: IoErrorKind::Other, raw_os_error: Some(206), message: "os error 206".to_string() };
    let reason = describe_io_error(&error);
    assert!(reason.contains("경로가 너무 깁니다"));
    assert!(reason.contains("(code 206)"));
}

#[test]
fn tests_windows_long_path_error_code_has_actionable_reason() {
    let error = IoErrorInfo { kind: IoErrorKind::Other, raw_os_error: Some(206), message: "os error 206".to_string() };
    let reason = describe_io_error(&error);
    assert!(reason.contains("경로가 너무 깁니다"));
    assert!(reason.contains("(code 206)"));
}

#[test]
fn io_reasons_prefer_the_code_then_the_kind_then_the_message() {
    let sharing = IoErrorInfo { kind: IoErrorKind::PermissionDenied, raw_os_error: Some(32), message: "x".to_string() };
    assert_eq!(describe_io_error(&sharing), "다른 프로세스가 파일을 사용 중입니다(공유 위반). (code 32)");
    let denied = IoErrorInfo { kind: IoErrorKind::PermissionDenied, raw_os_error: Some(13), message: "x".to_string() };
    assert_eq!(describe_io_error(&denied), "접근이 거부되었습니다(권한 부족).");
    let other = IoErrorInfo { kind: IoErrorKind::Other, raw_os_error: None, message: "disk on fire".to_string() };
    assert_eq!(describe_io_error(&other), "disk on fire");
}

#[test]
fn resuming_skips_everything_before_the_cursor() {
    let mut fs = MemFs::default();
    for name in ["a.txt", "b.txt", "c.txt", "d.txt"] {
        fs.write(&format!("/r/src/{name}"), name.as_bytes());
    }
    let run = run_job(&mut fs, &job("/r/src", "/r/dst"), Some("c.txt"), false);

    assert_eq!(run.outcome.copied, 2, "{:?}", run.outcome.failures);
    assert!(run.outcome.resumed);
    assert!(!fs.has("/r/dst/a.txt"));
    assert!(!fs.has("/r/dst/b.txt"));
    assert!(fs.has("/r/dst/c.txt"));
    assert!(fs.has("/r/dst/d.txt"));
}

#[test]
fn resuming_walks_into_the_directory_the_cursor_points_at() {
    let mut fs = MemFs::default();
    fs.write("/r/src/alpha/1.txt", b"1");
    fs.write("/r/src/alpha/2.txt", b"2");
    fs.write("/r/src/beta/3.txt", b"3");
    let run = run_job(&mut fs, &job("/r/src", "/r/dst"), Some("alpha/2.txt"), false);

    assert_eq!(run.outcome.copied, 2, "{:?}", run.outcome.failures);
    assert!(!fs.has("/r/dst/alpha/1.txt"));
    assert!(fs.has("/r/dst/alpha/2.txt"));
    assert!(fs.has("/r/dst/beta/3.txt"));
}

#[test]
fn resuming_accepts_backslash_cursors() {
    let mut fs = MemFs::default();
    fs.write("/r/src/alpha/1.txt", b"1");
    fs.write("/r/src/alpha/2.txt", b"2");
    let run = run_job(&mut fs, &job("/r/src", "/r/dst"), Some(r"alpha\2.txt"), false);
    assert_eq!(run.outcome.copied, 1);
}

#[test]
fn resuming_never_mirror_deletes_files_it_has_not_examined() {
    let mut fs = MemFs::default();
    for name in ["a.txt", "b.txt", "c.txt"] {
        fs.write(&format!("/r/src/{name}"), name.as_bytes());
        fs.write(&format!("/r/dst/{name}"), name.as_bytes());
    }
    fs.write("/r/dst/stale.txt", b"stale");
    let mut job = job("/r/src", "/r/dst");
    job.mirror_deletes = true;
    let run = run_job(&mut fs, &job, Some("c.txt"), false);

    assert!(fs.has("/r/dst/a.txt") && fs.has("/r/dst/b.txt"));
    assert!(!fs.has("/r/dst/stale.txt"));
    assert_eq!(run.outcome.deleted, 1);
}

#[test]
fn a_run_without_a_cursor_still_walks_everything() {
    let mut fs = MemFs::default();
    for name in ["a.txt", "b.txt"] {
        fs.write(&format!("/r/src/{name}"), name.as_bytes());
    }
    let outcome = run_sync_job(&mut fs, &job("/r/src", "/r/dst"));
    assert_eq!(outcome.copied, 2);
    assert!(!outcome.resumed);
}

#[test]
fn hidden_entries_are_skipped_only_when_excluded() {
    let mut fs = MemFs::default();
    fs.write("/r/src/.secret", b"s");
    fs.write("/r/src/plain.txt", b"p");
    let mut job = job("/r/src", "/r/dst");
    let included = run_sync_job(&mut fs, &job);
    assert_eq!(included.copied, 2);
    job.include_hidden = false;
    job.target = "/r/other".to_string();
    let excluded = run_sync_job(&mut fs, &job);
    assert_eq!(excluded.copied, 1);
    assert_eq!(excluded.skipped, 1);
    assert!(!fs.has("/r/other/.secret"));
}

#[test]
fn summaries_name_every_count() {
    let mut outcome = SyncOutcome::new();
    outcome.copied = 3;
    outcome.skipped = 2;
    outcome.deleted = 1;
    outcome.resumed = true;
    outcome.fail("a".to_string(), "b".to_string());
    assert_eq!(outcome.summary(), "복사 3건, 건너뜀 2건, 삭제 1건, 실패 1건 — 이어서 실행");
    assert_eq!(outcome.failures[0].key(), "a|b");
}

#[test]
fn failures_beyond_the_list_are_counted() {
    let mut outcome = SyncOutcome::new();
    for i in 0..105 {
        outcome.fail(format!("f{i}"), "r".to_string());
    }
    assert_eq!(outcome.failures.len(), 100);
    assert_eq!(outcome.truncated_failures, 5);
    assert!(outcome.has_failures());
}

#[test]
fn hidden_and_system_attribute_bits_mark_hidden_entries() {
    assert!(hidden_or_system(0x2));
    assert!(hidden_or_system(0x4));
    assert!(hidden_or_system(0x26));
    assert!(!hidden_or_system(0x1));
    assert!(!hidden_or_system(0x20));
    assert!(!hidden_or_system(0));
}

#[test]
fn tests_locked_source_reports_windows_sharing_violation_code_32() {
    let mut fs = MemFs::default();
    fs.write("/r/src/open.xlsx", b"locked workbook");
    fs.locked.insert("/r/src/open.xlsx".to_string());
    let blocked = run_sync_job(&mut fs, &job("/r/src", "/r/dst"));
    assert_eq!(blocked.copied, 0);
    assert!(
        blocked.failures.iter().any(|f| f.reason.contains("공유 위반") && f.reason.contains("(code 32)")),
        "locked source should expose the actionable Windows reason: {:?}",
        blocked.failures
    );

    fs.locked.clear();
    let recovered = run_sync_job(&mut fs, &job("/r/src", "/r/dst"));
    assert_eq!(recovered.copied, 1, "failures: {:?}", recovered.failures);
    assert_eq!(fs.read("/r/dst/open.xlsx").unwrap(), b"locked workbook");
}

#[test]
fn tests_hidden_and_system_file_is_copied_when_included_and_skipped_when_disabled() {
    let mut fs = MemFs::default();
    fs.write("/r/src/protected.dat", b"hidden-system-content");
    fs.attribute_hidden.insert("/r/src/protected.dat".to_string());

    let included = run_sync_job(&mut fs, &job("/r/src", "/r/included"));
    assert_eq!(included.copied, 1, "failures: {:?}", included.failures);
    assert_eq!(fs.read("/r/included/protected.dat").unwrap(), b"hidden-system-content");

    let mut excluded_job = job("/r/src", "/r/excluded");
    excluded_job.include_hidden = false;
    let excluded = run_sync_job(&mut fs, &excluded_job);
    assert_eq!(excluded.copied, 0, "failures: {:?}", excluded.failures);
    assert_eq!(excluded.skipped, 1);
    assert!(!fs.has("/r/excluded/protected.dat"));
}

#[test]
fn equal_sized_files_are_copied_when_the_source_is_two_seconds_newer() {
    let mut fs = MemFs::default();
    fs.write("/r/src/a.txt", b"same");
    let job = job("/r/src", "/r/dst");
    run_sync_job(&mut fs, &job);
    let dst_time = fs.files["/r/dst/a.txt"].1;

    // Less than two seconds newer: up to date.
    fs.files.insert("/r/src/a.txt".to_string(), (b"same".to_vec(), dst_time + 1_999_999_999));
    let outcome = run_sync_job(&mut fs, &job);
    assert_eq!((outcome.copied, outcome.skipped), (0, 1));

    // Exactly two seconds newer: copied.
    fs.files.insert("/r/src/a.txt".to_string(), (b"same".to_vec(), dst_time + 2_000_000_000));
    let outcome = run_sync_job(&mut fs, &job);
    assert_eq!((outcome.copied, outcome.skipped), (1, 0));
}
