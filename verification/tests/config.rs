use convenience_tools::config::{
    choose_new_interval, interval_select, add_interval_preset, carry_over_engine_progress, default_interval_presets, interval_options,
    normalize_interval_presets, remove_interval_preset, JobIdGenerator, LogConfig, SymlinkMode,
    SyncJob, WatchMode,
};

use convenience_tools::interval::TimeUnit;

fn job_with(id: &str) -> SyncJob {
    SyncJob::with_id(id.to_string())
}

#[test]
fn new_sync_jobs_have_unique_ids() {
    let mut ids = JobIdGenerator::new();
    let a = SyncJob::with_id(ids.next_id(1_700_000_000));
    let b = SyncJob::with_id(ids.next_id(1_700_000_000));
    assert_ne!(a.id, b.id);
    assert!(a.exclude_patterns.is_empty());
    assert!(b.exclude_patterns.is_empty());
}

#[test]
fn job_ids_are_creation_time_and_sequence_in_hex() {
    let mut ids = JobIdGenerator::new();
    assert_eq!(ids.next_id(255), "ff-0");
    assert_eq!(ids.next_id(255), "ff-1");
    assert_eq!(ids.next_id(4096), "1000-2");
}

#[test]
fn sync_job_without_id_gets_one() {
    let mut job = job_with("");
    job.source = r"C:\a".to_string();
    job.target = r"C:\b".to_string();

    assert!(job.id.is_empty());
    assert!(job.exclude_patterns.is_empty());
    assert_eq!(job.watch_mode, WatchMode::Interval);
    let mut ids = JobIdGenerator::new();
    job.ensure_id(ids.next_id(1_700_000_000));
    assert!(!job.id.is_empty());

    // An existing id is kept.
    let existing = job.id.clone();
    job.ensure_id(ids.next_id(1_700_000_001));
    assert_eq!(job.id, existing);
}

#[test]
fn saving_ui_snapshot_keeps_engine_progress() {
    let mut stored_job = job_with("job-1");
    stored_job.source = r"D:\a".to_string();
    stored_job.last_run_unix = Some(1_700_000_000);
    stored_job.resume_cursor = Some(r"nested\file.txt".to_string());
    let stored = vec![stored_job];

    // The UI saves a rename without knowing the progress.
    let mut renamed = job_with("job-1");
    renamed.name = "이름 변경".to_string();
    renamed.source = r"D:\a".to_string();
    let mut incoming = vec![renamed];
    carry_over_engine_progress(&stored, &mut incoming);

    assert_eq!(incoming[0].name, "이름 변경");
    assert_eq!(incoming[0].last_run_unix, Some(1_700_000_000));
    assert_eq!(incoming[0].resume_cursor.as_deref(), Some(r"nested\file.txt"));

    // A job the stored list does not have is left alone.
    let mut fresh = vec![job_with("job-2")];
    carry_over_engine_progress(&stored, &mut fresh);
    assert!(fresh[0].resume_cursor.is_none());
    assert!(fresh[0].last_run_unix.is_none());
}

#[test]
fn label_falls_back_to_source_folder_name() {
    let mut job = job_with("a");
    job.source = r"D:\작업\원본폴더".to_string();
    assert_eq!(job.label(), "원본폴더");

    let mut named = job_with("b");
    named.name = "내 백업".to_string();
    named.source = r"D:\작업\원본폴더".to_string();
    assert_eq!(named.label(), "내 백업");
}

#[test]
fn label_of_blank_name_and_root_source() {
    let mut job = job_with("a");
    job.name = "   ".to_string();
    job.source = r"D:\data\".to_string();
    assert_eq!(job.label(), "data");
    job.source = r"D:\".to_string();
    assert_eq!(job.label(), r"D:\");
    job.source = "photos/2024/..".to_string();
    assert_eq!(job.label(), "photos/2024/..");
}

#[test]
fn new_job_defaults() {
    let job = job_with("x");
    assert!(job.enabled);
    assert_eq!(job.interval_secs, 60);
    assert_eq!(job.symlink_mode, SymlinkMode::Skip);
    assert!(!job.mirror_deletes);
    assert!(job.include_hidden);
    let log = LogConfig::default();
    assert!(log.file_enabled);
    assert_eq!((log.max_files, log.max_age_days, log.max_file_size_mb), (10, 30, 5));
}

#[test]
fn presets_are_sorted_unique_and_positive() {
    assert_eq!(default_interval_presets(), vec![10, 30, 60]);
    let mut presets = vec![60, 0, 10, 60, 30, 10];
    normalize_interval_presets(&mut presets);
    assert_eq!(presets, vec![10, 30, 60]);
}

#[test]
fn current_value_outside_the_presets_stays_selectable() {
    assert_eq!(interval_options(&vec![10, 30, 60], 45), vec![10, 30, 45, 60]);
    assert_eq!(interval_options(&vec![10, 30, 60], 30), vec![10, 30, 60]);
}

#[test]
fn adding_and_removing_presets_keeps_at_least_one() {
    let mut presets = vec![10, 30, 60];
    assert!(add_interval_preset(&mut presets, 20));
    assert_eq!(presets, vec![10, 20, 30, 60]);
    assert!(!add_interval_preset(&mut presets, 30));
    assert_eq!(presets, vec![10, 20, 30, 60]);

    assert_eq!(remove_interval_preset(&mut presets, 20), Ok(()));
    assert_eq!(presets, vec![10, 30, 60]);
    let mut last = vec![10];
    assert_eq!(
        remove_interval_preset(&mut last, 10),
        Err("마지막 프리셋은 삭제할 수 없습니다.".to_string())
    );
    assert_eq!(last, vec![10]);
}

#[test]
fn an_added_preset_is_chosen_at_once() {
    let mut presets = vec![10, 30, 60];
    let (secs, options, selected) = choose_new_interval(&mut presets, " 2 ", TimeUnit::Minutes).unwrap();
    assert_eq!(secs, 120);
    assert_eq!(presets, vec![10, 30, 60, 120]);
    assert_eq!(options, vec![10, 30, 60, 120]);
    assert_eq!(selected, 3);

    // A preset already known is chosen, not added again.
    let (secs, _, selected) = choose_new_interval(&mut presets, "30", TimeUnit::Seconds).unwrap();
    assert_eq!((secs, selected), (30, 1));
    assert_eq!(presets.len(), 4);

    // What is no interval changes nothing.
    assert_eq!(choose_new_interval(&mut presets, "abc", TimeUnit::Seconds), Err("숫자만 입력할 수 있습니다.".to_string()));
    assert_eq!(presets, vec![10, 30, 60, 120]);
}

#[test]
fn the_current_interval_is_always_among_the_options() {
    let (options, selected) = interval_select(&vec![10, 30], 45);
    assert_eq!(options, vec![10, 30, 45]);
    assert_eq!(selected, Some(2));
    let (options, selected) = interval_select(&vec![10, 30], 0);
    assert_eq!(options, vec![10, 30]);
    assert_eq!(selected, None);
}

#[test]
fn label_of_share_roots_and_verbatim_paths_is_the_whole_source() {
    let mut job = job_with("a");
    let label_of = |job: &mut SyncJob, source: &str| {
        job.source = source.to_string();
        job.label()
    };
    // A share root is a prefix, not a name.
    assert_eq!(label_of(&mut job, r"\\srv\share"), r"\\srv\share");
    assert_eq!(label_of(&mut job, r"\\srv\share\"), r"\\srv\share\");
    assert_eq!(label_of(&mut job, "//srv/share"), "//srv/share");
    assert_eq!(label_of(&mut job, r"\\srv\share\backup"), "backup");
    // Verbatim forms.
    assert_eq!(label_of(&mut job, r"\\?\UNC\srv\share"), r"\\?\UNC\srv\share");
    assert_eq!(label_of(&mut job, r"\\?\C:\"), r"\\?\C:\");
    assert_eq!(label_of(&mut job, r"\\?\C:\data"), "data");
    assert_eq!(label_of(&mut job, r"\\?\C:\data\."), r"\\?\C:\data\.");
    // A device path.
    assert_eq!(label_of(&mut job, r"\\.\pipe\name"), "name");
    // A lone server name is a name.
    assert_eq!(label_of(&mut job, r"\\srv"), "srv");
}
