use convenience_tools::state::finish_sync_run;
use convenience_tools::sync::outcome::SyncFailure;
use convenience_tools::state::{
    sync_changes_log_line, sync_failure_log_line, sync_failure_notice, toggle_name, AppState,
    SyncJobStatus, SyncRunning, MAX_UI_LOG_ENTRIES,
};
use convenience_tools::sync::outcome::SyncOutcome;

fn running(path: &str) -> SyncRunning {
    SyncRunning {
        id: "job".to_string(),
        label: "백업".to_string(),
        current_path: path.to_string(),
        copied: 0,
        skipped: 0,
        failed: 0,
        stopping: false,
    }
}

#[test]
fn running_path_keeps_the_file_name_when_the_path_is_too_long() {
    let mut running = running("");

    assert_eq!(running.display_path(), "폴더를 검사하는 중…");

    running.current_path = r"docs\report.xlsx".to_string();
    assert_eq!(running.display_path(), r"docs\report.xlsx", "short paths are shown as-is");

    running.current_path = format!(r"{}\분기보고서.xlsx", r"deeply\nested".repeat(20));
    let shortened = running.display_path();
    assert!(
        shortened.chars().count() <= 72,
        "long paths must be bounded, got {} chars",
        shortened.chars().count()
    );
    assert!(
        shortened.starts_with('…') && shortened.ends_with("분기보고서.xlsx"),
        "the head is dropped so the file name survives: {shortened}"
    );
}

#[test]
fn counters_line() {
    let mut r = running("a");
    r.copied = 3;
    r.skipped = 12;
    r.failed = 1;
    assert_eq!(r.counters(), "복사 3 · 건너뜀 12 · 실패 1");
}

#[test]
fn status_lines() {
    let never = SyncJobStatus::new();
    assert_eq!(never.line(), "아직 실행되지 않았습니다.");
    let outcome = SyncOutcome::new();
    let status = SyncJobStatus::finished("09:30:00".to_string(), &outcome);
    assert_eq!(status.line(), "최근 실행 09:30:00 — 복사 0건, 건너뜀 0건");
    assert!(!status.failed);
    let summary_only = SyncJobStatus { last_run: None, summary: "대기".to_string(), failed: false };
    assert_eq!(summary_only.line(), "대기");
}

#[test]
fn default_state_blocks_kakaotalk() {
    let state = AppState::default();
    assert!(state.is_active);
    assert_eq!(state.targets.len(), 1);
    assert_eq!(state.targets[0].process_name, "KakaoTalk.exe");
    assert_eq!(state.targets[0].ad_window_class, "Chrome_WidgetWin_1");
    assert_eq!(state.log_entries[0].message, "앱을 시작했습니다.");
}

#[test]
fn targets_are_added_once_and_shown_without_exe() {
    let mut state = AppState::default();
    assert!(!state.add_target_process("kakaotalk.EXE"));
    assert!(state.add_target_process("Slack.exe"));
    assert_eq!(state.targets[1].display_name, "Slack");
    assert_eq!(state.targets[1].ad_window_class, "auto:webview");
    assert!(state.add_target_process("tool"));
    assert_eq!(state.targets[2].display_name, "tool");

    assert!(state.set_target_enabled(1, false));
    assert!(!state.targets[1].enabled);
    assert_eq!(state.log_entries.last().unwrap().message, "Slack.exe 활성 상태 변경: false");
    assert!(!state.set_target_enabled(9, false));
    assert!(state.remove_target(2));
    assert_eq!(state.log_entries.last().unwrap().message, "타겟을 삭제했습니다: tool");
    assert_eq!(state.targets.len(), 2);
}

#[test]
fn log_panel_keeps_the_latest_lines() {
    let mut state = AppState::default();
    for i in 0..(MAX_UI_LOG_ENTRIES + 5) {
        state.push_log("INFO", format!("line {i}"));
    }
    assert_eq!(state.log_entries.len(), MAX_UI_LOG_ENTRIES);
    assert_eq!(state.log_entries.last().unwrap().message, format!("line {}", MAX_UI_LOG_ENTRIES + 4));
    state.record_ad_blocked();
    assert_eq!(state.blocked_count, 1);
    assert_eq!(state.log_entries.last().unwrap().level, "SUCCESS");
}

#[test]
fn sync_failures_log_one_summary_line() {
    let line = sync_failure_log_line("야간 백업", 25, 7).unwrap();
    assert!(line.contains("25건") && line.contains("7건"), "{line}");
    assert!(!line.contains("locked-0.xlsx"));
    assert_eq!(sync_failure_log_line("야간 백업", 0, 0), None);
    assert_eq!(
        sync_failure_notice("야간 백업", 3),
        "'야간 백업' 동기화 중 3건을 복사하지 못했습니다. 파일 동기화 패널에서 사유를 확인하세요."
    );
    let mut outcome = SyncOutcome::new();
    assert_eq!(sync_changes_log_line("백업", &outcome), None);
    outcome.copied = 4;
    assert_eq!(sync_changes_log_line("백업", &outcome).unwrap(), "[백업] 복사 4건, 건너뜀 0건");
}

#[test]
fn favourite_names_toggle() {
    let mut names = vec!["Spooler".to_string()];
    toggle_name(&mut names, "W32Time");
    assert_eq!(names, vec!["Spooler".to_string(), "W32Time".to_string()]);
    toggle_name(&mut names, "Spooler");
    assert_eq!(names, vec!["W32Time".to_string()]);
}

#[test]
fn sync_failures_log_one_summary_line_instead_of_one_entry_per_file() {

    let failures: Vec<SyncFailure> = (0..25)
        .map(|index| SyncFailure {
            path: format!("locked-{index}.xlsx"),
            reason: "다른 프로세스가 파일을 사용 중입니다(공유 위반). (code 32)".to_string(),
        })
        .collect();
    let mut outcome = SyncOutcome::new();
    outcome.copied = 4;
    outcome.failures = failures.clone();
    outcome.truncated_failures = 7;

    let mut known: Vec<SyncFailure> = Vec::new();
    let report = finish_sync_run(&mut known, &Vec::new(), "야간 백업", &outcome, false);
    let error_lines: Vec<&str> =
        report.lines.iter().filter(|entry| entry.level == "ERROR").map(|entry| entry.message.as_str()).collect();

    assert_eq!(error_lines.len(), 1, "32 failures must collapse into a single log line, got: {error_lines:?}");
    assert!(error_lines[0].contains("25건") && error_lines[0].contains("7건"), "{}", error_lines[0]);
    assert!(!error_lines[0].contains("locked-0.xlsx"), "{}", error_lines[0]);
    assert_eq!(known.len(), 25, "the failure list itself still keeps every recorded entry");
    assert!(report.notice.is_none());
}

#[test]
fn a_finished_run_notifies_only_new_unsilenced_failures() {

    let failure = |path: &str| SyncFailure { path: path.to_string(), reason: "잠김".to_string() };
    let mut outcome = SyncOutcome::new();
    outcome.failures = vec![failure("a"), failure("b")];
    let mut known = vec![failure("a")];
    let silenced = vec![failure("b").key()];

    // "a" is known and "b" is silenced: listed, logged, no notice.
    let report = finish_sync_run(&mut known, &silenced, "작업", &outcome, true);
    assert_eq!(known.len(), 2);
    assert_eq!(report.lines.len(), 1);
    assert_eq!(report.lines[0].level, "ERROR");
    assert!(report.notice.is_none());

    // A new failure that is not silenced is told.
    outcome.failures = vec![failure("c")];
    let report = finish_sync_run(&mut known, &silenced, "작업", &outcome, true);
    assert_eq!(
        report.notice.as_deref(),
        Some("'작업' 동기화 중 1건을 복사하지 못했습니다. 파일 동기화 패널에서 사유를 확인하세요.")
    );
}
