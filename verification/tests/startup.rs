use convenience_tools::config::{JobIdGenerator, SyncJob};
use convenience_tools::startup::{startup_state, StoredSettings};

fn stored(jobs: Vec<SyncJob>) -> StoredSettings {
    StoredSettings {
        service_enabled: false,
        targets: Vec::new(),
        scan_interval_secs: 0,
        sync_enabled: false,
        sync_jobs: jobs,
        interval_presets: vec![0, 60, 30, 60],
        suppressed_issue_keys: vec!["b".to_string(), "  ".to_string(), "a".to_string(), "b".to_string()],
    }
}

#[test]
fn without_settings_the_defaults_are_used() {
    let mut ids = JobIdGenerator::new();
    let state = startup_state(None, &mut ids, 0, &Vec::new());
    assert!(state.app_state.is_active);
    assert_eq!(state.app_state.targets.len(), 1);
    assert_eq!(state.app_state.targets[0].process_name, "KakaoTalk.exe");
    assert_eq!(state.scan_interval_secs, 10);
    assert!(state.sync_enabled);
    assert!(state.jobs.is_empty());
    assert_eq!(state.selected_job, None);
    assert_eq!(state.interval_presets, vec![10, 30, 60]);
    assert!(state.cursors.is_empty());
}

#[test]
fn stored_settings_are_cleaned_up_on_start() {
    let mut with_cursor = SyncJob::with_id("job-1".to_string());
    with_cursor.resume_cursor = Some(r"nested\file.txt".to_string());
    let without_id = SyncJob::with_id(String::new());
    let mut ids = JobIdGenerator::new();
    let state = startup_state(Some(stored(vec![with_cursor, without_id])), &mut ids, 0x10, &Vec::new());

    assert!(!state.app_state.is_active);
    // No target configured: the default one.
    assert_eq!(state.app_state.targets.len(), 1);
    assert_eq!(state.app_state.targets[0].process_name, "KakaoTalk.exe");
    assert_eq!(state.app_state.log_entries.last().unwrap().message, "설정 파일을 불러왔습니다.");
    assert_eq!(state.scan_interval_secs, 1);
    assert!(!state.sync_enabled);
    assert_eq!(state.jobs[0].id, "job-1");
    assert_eq!(state.jobs[1].id, "10-1");
    assert_eq!(state.selected_job, Some(0));
    assert_eq!(state.interval_presets, vec![30, 60]);
    assert_eq!(state.cursors, vec![("job-1".to_string(), r"nested\file.txt".to_string())]);
    assert_eq!(state.suppressed_issue_keys, vec!["a".to_string(), "b".to_string()]);
}

#[test]
fn presets_with_nothing_positive_fall_back_to_the_defaults() {
    let mut settings = stored(Vec::new());
    settings.interval_presets = vec![0, 0];
    let state = startup_state(Some(settings), &mut JobIdGenerator::new(), 0, &Vec::new());
    assert_eq!(state.interval_presets, vec![10, 30, 60]);
    assert_eq!(state.selected_job, None);
}

#[test]
fn a_running_enabled_target_is_seen_at_startup() {
    let running = vec!["explorer.exe".to_string(), "kakaotalk.EXE".to_string()];
    let state = startup_state(None, &mut JobIdGenerator::new(), 0, &running);
    assert!(state.app_state.is_target_running);
    let state = startup_state(None, &mut JobIdGenerator::new(), 0, &vec!["explorer.exe".to_string()]);
    assert!(!state.app_state.is_target_running);
}
