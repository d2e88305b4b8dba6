use convenience_tools::guest::{
    format_virtual_disk_error, parent_guest_path, select_all_paths, select_guest_range,
    selected_directory_index, toggle_guest_selection, GuestFileAttributes, GuestFileEntry,
    GuestFileKind, GuestFileTimes, GuestPath, GuestSelection, UnsupportedFormatKind,
    VirtualDiskError, HIDDEN_BITS, SYSTEM_BITS,
};
use convenience_tools::guest_copy::{
    copy_finished_notice, format_bytes, issue_silence_log_line, plan_guest_copy,
    toggle_issue_silence, CopyIssue, CopyNotice, CopyRefusal, CopyReport, VirtualDiskCopySummary,
};
use std::collections::HashSet;

fn file(path: &str, size: u64) -> GuestFileEntry {
    GuestFileEntry {
        path: GuestPath::new(path).unwrap(),
        kind: GuestFileKind::File,
        size_bytes: size,
        attributes: GuestFileAttributes::default(),
        times: GuestFileTimes::default(),
    }
}

fn texts(selection: &GuestSelection) -> HashSet<String> {
    selection.paths.iter().map(|p| p.as_str().to_string()).collect()
}

#[test]
fn running_vm_error_explains_the_safe_offline_boundary() {
    let message = format_virtual_disk_error(&VirtualDiskError::ReadOnlyViolation(
        "실행 중인 VM이 VDI를 사용 중입니다".to_string(),
    ));

    assert!(message.contains("실행 중인 VM"));
    assert!(message.contains("VM을 완전히 종료"));
    assert!(message.contains("직접 읽을 수 없습니다"));
}

#[test]
fn unsupported_filesystem_error_names_the_supported_version() {
    let message = format_virtual_disk_error(&VirtualDiskError::UnsupportedFormat {
        kind: UnsupportedFormatKind::FileSystem,
        detail: "ext4 파티션".to_string(),
    });

    assert!(message.contains("지원하지 않는 파일시스템"));
    assert!(message.contains("NTFS 3.1"));
}

#[test]
fn encrypted_partition_error_explains_the_offline_boundary() {
    let message = format_virtual_disk_error(&VirtualDiskError::UnsupportedFormat {
        kind: UnsupportedFormatKind::FileSystem,
        detail: "BitLocker로 암호화된 파티션이라 복구 키 없이는 파일을 열 수 없습니다".to_string(),
    });

    assert!(message.contains("BitLocker"));
    assert!(message.contains("복호화된 사본"));
    assert!(message.contains("복구 키를 저장하거나 우회하지 않으며"));
}

#[test]
fn nested_entry_errors_name_the_entry_and_the_cause() {
    let message = format_virtual_disk_error(&VirtualDiskError::GuestEntry {
        path: "Users/guest".to_string(),
        source: Box::new(VirtualDiskError::UnsupportedFormat {
            kind: UnsupportedFormatKind::PartitionTable,
            detail: "APM".to_string(),
        }),
    });
    assert_eq!(message, "게스트 항목 Users/guest 읽기 실패: 지원하지 않는 파티션 테이블입니다. (APM)");
    let reserved = format_virtual_disk_error(&VirtualDiskError::UnsupportedFormat {
        kind: UnsupportedFormatKind::FileSystem,
        detail: "Microsoft Reserved 파티션".to_string(),
    });
    assert!(reserved.starts_with("Microsoft Reserved(MSR)"));
    assert_eq!(format_virtual_disk_error(&VirtualDiskError::Io("끊김".to_string())), "읽기 실패: 끊김");
}

#[test]
fn parent_path_stops_at_guest_root() {
    let nested = GuestPath::new("Users/guest/Documents").unwrap();
    let top = GuestPath::new("Users").unwrap();
    let root = GuestPath::root();

    assert_eq!(parent_guest_path(&nested).unwrap().as_str(), "Users/guest");
    assert_eq!(parent_guest_path(&top).unwrap().as_str(), "");
    assert!(parent_guest_path(&root).is_none());
}

#[test]
fn guest_paths_reject_empty_and_dot_components() {
    assert!(GuestPath::new("").unwrap().is_root());
    assert!(GuestPath::new("a/b.txt").is_ok());
    assert!(GuestPath::new(".hidden").is_ok());
    assert!(GuestPath::new("/a").is_err());
    assert!(GuestPath::new("a/").is_err());
    assert!(GuestPath::new("a//b").is_err());
    assert!(GuestPath::new("a/./b").is_err());
    assert!(GuestPath::new("../a").is_err());
}

#[test]
fn guest_selection_supports_single_and_additive_toggle() {
    let first = GuestPath::new("first.txt").unwrap();
    let second = GuestPath::new("second.txt").unwrap();
    let mut selected = GuestSelection::new();

    toggle_guest_selection(&mut selected, first.clone(), false);
    assert_eq!(selected.len(), 1);
    assert!(selected.contains(&first));

    toggle_guest_selection(&mut selected, second.clone(), true);
    assert_eq!(selected.len(), 2);

    toggle_guest_selection(&mut selected, second.clone(), true);
    assert_eq!(selected.len(), 1);
    assert!(selected.contains(&first));
}

#[test]
fn shift_range_selection_uses_anchor_in_both_directions() {
    let entries: Vec<_> = ["a.txt", "b.txt", "c.txt", "d.txt"]
        .into_iter()
        .map(|path| file(path, 1))
        .collect();
    let anchor = entries[2].path.clone();

    let forward = select_guest_range(&entries, &anchor, 3).unwrap();
    assert_eq!(
        texts(&forward),
        HashSet::from(["c.txt".to_string(), "d.txt".to_string()])
    );

    let reverse = select_guest_range(&entries, &anchor, 0).unwrap();
    assert_eq!(
        texts(&reverse),
        HashSet::from(["a.txt".to_string(), "b.txt".to_string(), "c.txt".to_string()])
    );
    assert!(select_guest_range(&entries, &GuestPath::new("missing.txt").unwrap(), 1).is_none());
    assert!(select_guest_range(&entries, &anchor, 4).is_none());
}

#[test]
fn select_all_includes_hidden_and_system_entries() {
    let mut hidden = file("hidden.sys", 2);
    hidden.attributes = GuestFileAttributes::from_bits(HIDDEN_BITS | SYSTEM_BITS);
    let entries = vec![file("visible.txt", 1), hidden];

    let selected = select_all_paths(&entries);

    assert_eq!(selected.len(), 2);
    assert!(selected.contains(&entries[0].path));
    assert!(selected.contains(&entries[1].path));
}

#[test]
fn enter_shortcut_requires_exactly_one_selected_directory() {
    let mut folder_entry = file("folder", 0);
    folder_entry.kind = GuestFileKind::Directory;
    let entries = vec![folder_entry, file("note.txt", 1)];
    let folder = entries[0].path.clone();
    let note = entries[1].path.clone();

    let mut only_folder = GuestSelection::new();
    only_folder.insert(folder.clone());
    assert_eq!(selected_directory_index(&entries, &only_folder), Some(0));

    let mut both = GuestSelection::new();
    both.insert(folder);
    both.insert(note.clone());
    assert_eq!(selected_directory_index(&entries, &both), None);

    let mut only_file = GuestSelection::new();
    only_file.insert(note);
    assert_eq!(selected_directory_index(&entries, &only_file), None);
}

#[test]
fn byte_counts_use_one_decimal_with_ties_to_even() {
    assert_eq!(format_bytes(0), "0 B");
    assert_eq!(format_bytes(1023), "1023 B");
    assert_eq!(format_bytes(1024), "1.0 KB");
    assert_eq!(format_bytes(1536), "1.5 KB");
    assert_eq!(format_bytes(1024 * 1024), "1.0 MB");
    assert_eq!(format_bytes(5 * 1024 * 1024 + 512 * 1024), "5.5 MB");
    for bytes in [1100u64, 1075, 1177, 2_000_000, 123_456_789, 1_048_575, 1024 * 1024 * 1024] {
        let expected = if bytes < 1024 {
            format!("{bytes} B")
        } else if bytes < 1024 * 1024 {
            format!("{:.1} KB", bytes as f64 / 1024.0)
        } else {
            format!("{:.1} MB", bytes as f64 / (1024.0 * 1024.0))
        };
        assert_eq!(format_bytes(bytes), expected, "bytes = {bytes}");
    }
}

#[test]
fn copy_summary_lines() {
    let report = CopyReport { copied_files: 3, copied_bytes: 1536, skipped_entries: 1, issues: vec![] };
    let done = VirtualDiskCopySummary::from_report(false, report, None);
    assert_eq!(done.line(), "완료 · 파일 3개 · 1.5 KB · 건너뜀 1 · 실패 0");
    let failed = VirtualDiskCopySummary::from_report(
        true,
        CopyReport { copied_files: 0, copied_bytes: 0, skipped_entries: 0, issues: vec![] },
        Some("읽기 실패: 끊김".to_string()),
    );
    assert_eq!(failed.line(), "복사하지 못했습니다: 읽기 실패: 끊김");
}

#[test]
fn copy_notice_respects_silenced_issues() {
    let issue = CopyIssue { kind: "지원 불가".to_string(), path: "a.sys".to_string(), detail: "압축".to_string() };
    let key = issue.key();
    assert_eq!(key, "지원 불가|a.sys|압축");
    let summary = VirtualDiskCopySummary::from_report(
        false,
        CopyReport { copied_files: 1, copied_bytes: 1, skipped_entries: 0, issues: vec![issue] },
        None,
    );
    assert_eq!(copy_finished_notice(&summary, &vec![]), CopyNotice::Failed);
    assert_eq!(copy_finished_notice(&summary, &vec![key]), CopyNotice::Completed);
    let stopped = VirtualDiskCopySummary::from_report(
        true,
        CopyReport { copied_files: 1, copied_bytes: 1, skipped_entries: 0, issues: vec![] },
        None,
    );
    assert_eq!(copy_finished_notice(&stopped, &vec![]), CopyNotice::Stopped);
}

#[test]
fn copy_requests_are_checked_in_order() {
    let entries = vec![file("a.txt", 1), file("b.txt", 1), file("c.txt", 1)];
    let mut sel = GuestSelection::new();
    assert_eq!(plan_guest_copy(true, true, Some(0), 1, "D:\\out", &entries, &sel).unwrap_err(), CopyRefusal::AlreadyRunning);
    assert_eq!(plan_guest_copy(false, false, Some(0), 1, "D:\\out", &entries, &sel).unwrap_err(), CopyRefusal::NoDisk);
    assert_eq!(plan_guest_copy(false, true, None, 1, "D:\\out", &entries, &sel).unwrap_err(), CopyRefusal::NoPartition);
    assert_eq!(plan_guest_copy(false, true, Some(0), 1, "   ", &entries, &sel).unwrap_err(), CopyRefusal::NoTarget);
    assert_eq!(plan_guest_copy(false, true, Some(0), 1, "D:\\out", &entries, &sel).unwrap_err(), CopyRefusal::NothingSelected);
    sel.insert(entries[2].path.clone());
    sel.insert(entries[0].path.clone());
    assert_eq!(plan_guest_copy(false, true, Some(3), 1, "D:\\out", &entries, &sel).unwrap_err(), CopyRefusal::PartitionMissing);
    let (target, chosen) = plan_guest_copy(false, true, Some(0), 1, "  D:\\out ", &entries, &sel).unwrap();
    assert_eq!(target, "D:\\out");
    assert_eq!(chosen, vec![0, 2]);
    assert_eq!(CopyRefusal::NoTarget.message(), "복사 대상 폴더를 입력하거나 선택하세요");
}

#[test]
fn silenced_issue_keys_stay_sorted_and_toggle() {
    let mut keys: Vec<String> = Vec::new();
    assert!(toggle_issue_silence(&mut keys, "read|b.txt|denied"));
    assert!(toggle_issue_silence(&mut keys, "read|a.txt|denied"));
    assert!(toggle_issue_silence(&mut keys, "write|c.txt|full"));
    assert_eq!(keys, vec!["read|a.txt|denied", "read|b.txt|denied", "write|c.txt|full"]);
    assert!(!toggle_issue_silence(&mut keys, "read|b.txt|denied"));
    assert_eq!(keys, vec!["read|a.txt|denied", "write|c.txt|full"]);
    assert_eq!(issue_silence_log_line("read|b.txt|denied", false), "VDI 오류 반복 알림을 다시 표시합니다: read|b.txt|denied");
}
