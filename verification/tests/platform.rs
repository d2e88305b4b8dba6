use convenience_tools::platform::{
    class_filter_matches, is_ad_window_candidate, listed_service, queried_service, restore_check,
    service_start_type_from_code, service_status_from_code, schtasks_failure,
    schtasks_launch_failure, snapshot_from, task_command_line, task_state_from_query,
    AdWindowShowState, AdWindowSnapshot, CaptureError, RestoreError, ShowCommand, SysServiceStartType,
    SysServiceStatus, TaskState, WinServiceState,
};

#[test]
fn explicit_class_filter_is_case_insensitive() {
    assert!(class_filter_matches("Chrome_WidgetWin_1", "chrome_widgetwin_1"));
    assert!(!class_filter_matches("Chrome_WidgetWin_1", "OtherWindow"));
}

#[test]
fn auto_webview_filter_matches_known_webview_classes() {
    assert!(class_filter_matches("Chrome_WidgetWin_1", "auto:webview"));
    assert!(class_filter_matches("WebView2Child", "AUTO:WEBVIEW"));
    assert!(!class_filter_matches("MainWindow", "auto:webview"));
}

#[test]
fn empty_class_filter_does_not_match_every_window() {
    assert!(!class_filter_matches("Chrome_WidgetWin_1", ""));
}

#[test]
fn main_windows_and_hidden_windows_are_not_candidates() {
    assert!(is_ad_window_candidate(true, "Chrome_WidgetWin_1", "auto:webview", true, false));
    assert!(is_ad_window_candidate(true, "Chrome_WidgetWin_1", "auto:webview", false, true));
    assert!(!is_ad_window_candidate(true, "Chrome_WidgetWin_1", "auto:webview", false, false));
    assert!(!is_ad_window_candidate(false, "Chrome_WidgetWin_1", "auto:webview", true, true));
    assert!(!is_ad_window_candidate(true, "MainWindow", "auto:webview", true, true));
}

#[test]
fn invalid_window_state_cannot_be_captured() {
    assert_eq!(snapshot_from(0, 0, None, true, false, false), Err(CaptureError::Unreadable));
    assert_eq!(snapshot_from(7, 26440, None, true, false, false), Err(CaptureError::Unreadable));
    assert_eq!(
        snapshot_from(7, 26440, Some((10, 20, 10, 220)), true, false, false),
        Err(CaptureError::EmptySize { width: 0, height: 200 })
    );
    let snap = snapshot_from(7, 26440, Some((10, 20, 310, 220)), true, true, true).unwrap();
    assert_eq!((snap.x, snap.y, snap.width, snap.height), (10, 20, 300, 200));
    assert_eq!(snap.show_state, AdWindowShowState::Minimized);
    let hidden = snapshot_from(7, 26440, Some((10, 20, 310, 220)), false, true, true).unwrap();
    assert_eq!(hidden.show_state, AdWindowShowState::Hidden);
}

#[test]
fn state_names_match_the_service_manager_wording() {
    assert_eq!(SysServiceStatus::StartPending.label(), "Starting...");
    assert_eq!(SysServiceStatus::Running.label(), "Running");
    assert_eq!(SysServiceStartType::Automatic.label(), "Automatic");
    assert_eq!(WinServiceState::NotInstalled.label(), "Not Installed");
    assert_eq!(TaskState::Ready.label(), "대기 중");
    assert_eq!(TaskState::NotInstalled.label(), "등록되지 않음");
}

#[test]
fn invalid_window_state_cannot_be_restored() {
    let snapshot = AdWindowSnapshot {
        handle: 0,
        process_id: 26440,
        x: 10,
        y: 20,
        width: 300,
        height: 200,
        show_state: AdWindowShowState::Normal,
    };
    // Handle 0 is no window.
    let err = restore_check(false, 0, &snapshot).unwrap_err();
    assert_eq!(err, RestoreError::WindowGone);
    assert_eq!(err.message(), "saved HWND is no longer valid");
}

#[test]
fn a_placement_goes_back_only_to_the_process_that_owned_it() {
    let snapshot = AdWindowSnapshot {
        handle: 77,
        process_id: 26440,
        x: 10,
        y: 20,
        width: 300,
        height: 200,
        show_state: AdWindowShowState::Minimized,
    };
    let err = restore_check(true, 31337, &snapshot).unwrap_err();
    assert_eq!(err, RestoreError::OtherProcess { expected: 26440, found: 31337 });
    assert_eq!(err.message(), "saved HWND belongs to a different process: expected 26440, got 31337");
    assert_eq!(restore_check(true, 26440, &snapshot), Ok(ShowCommand::ShowMinimizedNoActivate));
    let hidden = AdWindowSnapshot { show_state: AdWindowShowState::Hidden, ..snapshot };
    assert_eq!(restore_check(true, 26440, &hidden), Ok(ShowCommand::Hide));
}

#[test]
fn logon_task_state_is_read_from_the_query_output() {
    assert_eq!(task_state_from_query(None), TaskState::Unknown);
    assert_eq!(task_state_from_query(Some((false, String::new()))), TaskState::NotInstalled);
    let line = |status: &str| format!("\"\\gpui-convenience-tools\",\"N/A\",\"{status}\"\r\n");
    assert_eq!(task_state_from_query(Some((true, line("Running")))), TaskState::Running);
    assert_eq!(task_state_from_query(Some((true, line("실행 중")))), TaskState::Running);
    assert_eq!(task_state_from_query(Some((true, line("DISABLED")))), TaskState::Disabled);
    assert_eq!(task_state_from_query(Some((true, line("사용 안 함")))), TaskState::Disabled);
    assert_eq!(task_state_from_query(Some((true, line("Ready")))), TaskState::Ready);
}

#[test]
fn logon_task_command_and_errors() {
    assert_eq!(task_command_line("C:\\Tools\\app.exe"), "\"C:\\Tools\\app.exe\" --tray");
    assert_eq!(
        schtasks_failure("Create", "  ERROR: Access is denied.\r\n", "\n"),
        "schtasks /Create 실패: ERROR: Access is denied."
    );
    assert_eq!(schtasks_launch_failure("Run", "not found"), "schtasks /Run 실행 실패: not found");
}

#[test]
fn service_manager_codes_map_to_states() {
    let states: Vec<SysServiceStatus> = [1, 2, 3, 4, 5, 6, 7, 0].iter().map(|&c| service_status_from_code(c)).collect();
    assert_eq!(
        states,
        vec![
            SysServiceStatus::Stopped,
            SysServiceStatus::StartPending,
            SysServiceStatus::StopPending,
            SysServiceStatus::Running,
            SysServiceStatus::Unknown,
            SysServiceStatus::Unknown,
            SysServiceStatus::Paused,
            SysServiceStatus::Unknown,
        ]
    );
    assert_eq!(service_start_type_from_code(2), SysServiceStartType::Automatic);
    assert_eq!(service_start_type_from_code(3), SysServiceStartType::Manual);
    assert_eq!(service_start_type_from_code(4), SysServiceStartType::Disabled);
    assert_eq!(service_start_type_from_code(0), SysServiceStartType::Unknown);
}

#[test]
fn a_queried_service_shows_its_name_when_it_has_no_display_name() {
    let listed = listed_service("Spooler".to_string(), "Print Spooler".to_string(), 4);
    assert_eq!(listed.status, SysServiceStatus::Running);
    assert_eq!(listed.start_type, SysServiceStartType::Unknown);

    let full = queried_service("Spooler", 1, Some((2, "Print Spooler".to_string())));
    assert_eq!(full.display_name, "Print Spooler");
    assert_eq!(full.start_type, SysServiceStartType::Automatic);
    assert_eq!(full.status, SysServiceStatus::Stopped);
    let blank = queried_service("Spooler", 4, Some((3, String::new())));
    assert_eq!(blank.display_name, "Spooler");
    let unread = queried_service("Spooler", 4, None);
    assert_eq!((unread.display_name.as_str(), unread.start_type), ("Spooler", SysServiceStartType::Unknown));
}
