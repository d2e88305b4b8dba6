use convenience_tools::config::LogConfig;
use convenience_tools::logging::{
    civil_from_days, console_stream, is_log_file, is_rolled_log_file,
    log_line, now_hms, retention_plan, rolled_log_name, should_roll, update_config, utc_time_parts,
    LogFileState, Severity,
    DAY_NANOS,
};

#[test]
fn local_time_parts_are_in_range() {
    let secs = std::time::SystemTime::now()
        .duration_since(std::time::UNIX_EPOCH)
        .map(|d| d.as_secs())
        .unwrap_or(0);
    let (y, mo, d, h, mi, s) = utc_time_parts(secs);
    assert!(y >= 2020, "year should be sane: {y}");
    assert!((1..=12).contains(&mo), "month out of range: {mo}");
    assert!((1..=31).contains(&d), "day out of range: {d}");
    assert!(h < 24 && mi < 60 && s < 60);
}

#[test]
fn calendar_dates_of_known_days() {
    assert_eq!(civil_from_days(0), (1970, 1, 1));
    assert_eq!(civil_from_days(59), (1970, 3, 1));
    assert_eq!(civil_from_days(11_016), (2000, 2, 29));
    assert_eq!(civil_from_days(11_017), (2000, 3, 1));
    // 2100 is no leap year: February ends on the 28th.
    assert_eq!(civil_from_days(47_540), (2100, 2, 28));
    assert_eq!(civil_from_days(47_541), (2100, 3, 1));
    assert_eq!(civil_from_days(10_956), (1999, 12, 31));
    assert_eq!(civil_from_days(19_723), (2024, 1, 1));
    assert_eq!(utc_time_parts(1_700_000_000), (2023, 11, 14, 22, 13, 20));
    assert_eq!(now_hms((2023, 11, 14, 9, 5, 0)), "09:05:00");
}

#[test]
fn calendar_dates_before_1970() {
    assert_eq!(civil_from_days(-1), (1969, 12, 31));
    assert_eq!(civil_from_days(-365), (1969, 1, 1));
    // Year 0 is a leap year of the proleptic calendar.
    assert_eq!(civil_from_days(-719_468), (0, 3, 1));
    assert_eq!(civil_from_days(-719_469), (0, 2, 29));
    assert_eq!(civil_from_days(-719_529), (-1, 12, 31));
}

#[test]
fn rolled_file_detection_excludes_current_file() {
    assert!(!is_rolled_log_file("app.log", true));
    assert!(is_rolled_log_file("app-20260101-000000.log", true));
    assert!(!is_rolled_log_file("other.txt", true));
    assert!(!is_rolled_log_file("app-20260101-000000.log", false));
    assert!(is_log_file("APP.LOG", true));
    assert!(!is_log_file(".log", true));
    assert!(!is_log_file("log", true));
}

#[test]
fn rolled_names_carry_the_time_and_a_counter() {
    let parts = (2026, 1, 2, 3, 4, 5);
    assert_eq!(rolled_log_name(parts, 0), "app-20260102-030405.log");
    assert_eq!(rolled_log_name(parts, 3), "app-20260102-030405-3.log");
}

#[test]
fn lines_pad_the_level() {
    assert_eq!(
        log_line((2026, 1, 2, 3, 4, 5), Severity::Info, "app", "시작"),
        "2026-01-02 03:04:05 [INFO ] app: 시작\n"
    );
    assert_eq!(console_stream(Severity::Warn, Severity::Info), Some(true));
    assert_eq!(console_stream(Severity::Info, Severity::Info), Some(false));
    assert_eq!(console_stream(Severity::Debug, Severity::Info), None);
}

#[test]
fn rolling_and_settings_rules() {
    assert!(!should_roll(10 * 1024 * 1024, 0));
    assert!(!should_roll(5 * 1024 * 1024 - 1, 5));
    assert!(should_roll(5 * 1024 * 1024, 5));
    let config = |file_enabled: bool| LogConfig { file_enabled, max_files: 5, max_age_days: 7, max_file_size_mb: 10 };
    // Turning file logging off closes the file.
    let mut state = LogFileState { config: config(true), file_open: true, written: 42 };
    assert!(!update_config(&mut state, config(false)));
    assert!(!state.file_open);
    assert_eq!(state.written, 0);
    assert!(!state.config.file_enabled);
    // Turning it on again reopens it.
    assert!(update_config(&mut state, config(true)));
    // On and open: nothing to reopen, the size is kept.
    let mut state = LogFileState { config: config(true), file_open: true, written: 42 };
    assert!(!update_config(&mut state, config(true)));
    assert_eq!(state.written, 42);
    // On but no file open: reopen.
    let mut state = LogFileState { config: config(true), file_open: false, written: 0 };
    assert!(update_config(&mut state, config(true)));
}

#[test]
fn retention_deletes_old_files_then_keeps_the_newest() {
    let now: i128 = 100 * DAY_NANOS;
    let config = LogConfig { file_enabled: true, max_files: 3, max_age_days: 30, max_file_size_mb: 5 };
    // Two rolled files may stay besides the current one.
    let times = vec![99 * DAY_NANOS, 50 * DAY_NANOS, 98 * DAY_NANOS, 97 * DAY_NANOS, 98 * DAY_NANOS];
    assert_eq!(retention_plan(&times, now, &config), vec![false, true, false, true, true]);
    let keep_all = LogConfig { file_enabled: true, max_files: 100, max_age_days: 0, max_file_size_mb: 5 };
    assert_eq!(retention_plan(&times, now, &keep_all), vec![false; 5]);
    // One file in all is the current one: no rolled file stays.
    let only_current = LogConfig { file_enabled: true, max_files: 1, max_age_days: 0, max_file_size_mb: 5 };
    assert_eq!(retention_plan(&times, now, &only_current), vec![true; 5]);
}
