use convenience_tools::platform::{AdWindowShowState, AdWindowSnapshot};
use convenience_tools::scanner::{AdScanner, ScanAction, ScanEvent};
use convenience_tools::state::{AppState, TargetApp};
use std::collections::{BTreeMap, BTreeSet};

#[derive(Default)]
struct FakePlatform {
    running: BTreeSet<String>,
    windows: BTreeMap<String, Vec<isize>>,
    pids: BTreeMap<isize, u32>,
    collapsed: BTreeSet<isize>,
    live_pids: BTreeSet<u32>,
}

/// Runs one tick and returns the actions taken, in order.
fn tick(scanner: &mut AdScanner, fake: &mut FakePlatform, enabled: bool, targets: &[TargetApp]) -> Vec<String> {
    let mut event = ScanEvent::Tick { enabled, targets: targets.to_vec(), interval_secs: 0 };
    let mut log = Vec::new();
    loop {
        assert!(scanner.expects(&event));
        let action = scanner.step(event);
        event = match action {
            ScanAction::CheckTargetRunning { process_name } => ScanEvent::Answer(fake.running.contains(&process_name)),
            ScanAction::FindAdWindows { process_name, .. } => {
                ScanEvent::Windows(Ok(fake.windows.get(&process_name).cloned().unwrap_or_default()))
            }
            ScanAction::CheckWindowAlive { handle } => ScanEvent::Answer(fake.pids.contains_key(&handle)),
            ScanAction::ReadProcessId { handle } => match fake.pids.get(&handle) {
                Some(pid) => ScanEvent::ProcessId(Ok(*pid)),
                None => ScanEvent::ProcessId(Err("gone".to_string())),
            },
            ScanAction::CheckCollapsed { handle } => ScanEvent::Collapsed(Ok(fake.collapsed.contains(&handle))),
            ScanAction::Collapse { handle } => {
                log.push(format!("recollapse {handle}"));
                fake.collapsed.insert(handle);
                ScanEvent::Done(Ok(()))
            }
            ScanAction::Capture { handle } => ScanEvent::Captured(Ok(AdWindowSnapshot {
                handle,
                process_id: fake.pids[&handle],
                x: 1,
                y: 2,
                width: 300,
                height: 200,
                show_state: AdWindowShowState::Normal,
            })),
            ScanAction::CollapseCaptured { handle } => {
                log.push(format!("collapse {handle}"));
                fake.collapsed.insert(handle);
                ScanEvent::Done(Ok(()))
            }
            ScanAction::CheckProcessRunning { process_id } => ScanEvent::Answer(fake.live_pids.contains(&process_id)),
            ScanAction::RestoreWindow { snapshot } => {
                log.push(format!("restore {}", snapshot.handle));
                fake.collapsed.remove(&snapshot.handle);
                ScanEvent::Done(Ok(()))
            }
            ScanAction::NotifyAdBlocked => {
                log.push("blocked".to_string());
                ScanEvent::Acknowledged
            }
            ScanAction::NotifyTargetStatus { running } => {
                log.push(format!("status {running}"));
                ScanEvent::Acknowledged
            }
            ScanAction::Sleep { secs } => {
                log.push(format!("sleep {secs}"));
                break;
            }
        };
    }
    log
}

#[test]
fn ad_windows_are_collapsed_once_and_restored_when_the_program_ends() {
    let targets = AppState::default().targets;
    let mut fake = FakePlatform::default();
    fake.running.insert("KakaoTalk.exe".to_string());
    fake.windows.insert("KakaoTalk.exe".to_string(), vec![7, 7, 9]);
    fake.pids.insert(7, 100);
    fake.pids.insert(9, 100);
    fake.live_pids.insert(100);
    let mut scanner = AdScanner::new(true);

    assert_eq!(tick(&mut scanner, &mut fake, true, &targets), vec!["collapse 7", "blocked", "collapse 9", "blocked", "status true", "sleep 1"]);
    // Nothing to do while the windows stay collapsed.
    assert_eq!(tick(&mut scanner, &mut fake, true, &targets), vec!["sleep 1"]);
    // A window shown again by hand is collapsed again, without a new notice.
    fake.collapsed.remove(&9);
    assert_eq!(tick(&mut scanner, &mut fake, true, &targets), vec!["recollapse 9", "sleep 1"]);
    // The program ends: its windows are put back and the status changes.
    fake.running.clear();
    fake.live_pids.clear();
    assert_eq!(tick(&mut scanner, &mut fake, true, &targets), vec!["restore 7", "restore 9", "status false", "sleep 1"]);
    assert!(scanner.collapsed.is_empty());
}

#[test]
fn switching_blocking_off_restores_everything() {
    let targets = AppState::default().targets;
    let mut fake = FakePlatform::default();
    fake.running.insert("KakaoTalk.exe".to_string());
    fake.windows.insert("KakaoTalk.exe".to_string(), vec![7]);
    fake.pids.insert(7, 100);
    fake.live_pids.insert(100);
    let mut scanner = AdScanner::new(false);

    assert_eq!(tick(&mut scanner, &mut fake, true, &targets), vec!["collapse 7", "blocked", "sleep 1"]);
    assert_eq!(tick(&mut scanner, &mut fake, false, &targets), vec!["restore 7", "sleep 1"]);
    assert!(scanner.collapsed.is_empty());
}

#[test]
fn reused_handles_are_captured_again_and_dead_windows_forgotten() {
    let targets = AppState::default().targets;
    let mut fake = FakePlatform::default();
    fake.running.insert("KakaoTalk.exe".to_string());
    fake.windows.insert("KakaoTalk.exe".to_string(), vec![7]);
    fake.pids.insert(7, 100);
    fake.live_pids.insert(100);
    let mut scanner = AdScanner::new(true);
    tick(&mut scanner, &mut fake, true, &targets);

    // The handle now belongs to another process.
    fake.pids.insert(7, 200);
    fake.live_pids.insert(200);
    fake.collapsed.remove(&7);
    assert_eq!(tick(&mut scanner, &mut fake, true, &targets), vec!["collapse 7", "blocked", "sleep 1"]);
    assert_eq!(scanner.collapsed[0].process_id, 200);

    // The window is closed: its snapshot is dropped without a restore.
    fake.pids.remove(&7);
    fake.windows.insert("KakaoTalk.exe".to_string(), vec![]);
    assert_eq!(tick(&mut scanner, &mut fake, true, &targets), vec!["sleep 1"]);
    assert!(scanner.collapsed.is_empty());
}

#[test]
fn disabled_targets_are_not_scanned() {
    let mut targets = AppState::default().targets;
    targets[0].enabled = false;
    let mut fake = FakePlatform::default();
    fake.running.insert("KakaoTalk.exe".to_string());
    fake.windows.insert("KakaoTalk.exe".to_string(), vec![7]);
    fake.pids.insert(7, 100);
    let mut scanner = AdScanner::new(true);
    assert_eq!(tick(&mut scanner, &mut fake, true, &targets), vec!["status false", "sleep 1"]);
}

#[test]
fn the_scanner_sleeps_for_the_tick_interval() {
    let mut scanner = AdScanner::new(false);
    let action = scanner.step(ScanEvent::Tick { enabled: false, targets: Vec::new(), interval_secs: 7 });
    assert!(matches!(action, ScanAction::Sleep { secs: 7 }));
    let action = scanner.step(ScanEvent::Tick { enabled: true, targets: Vec::new(), interval_secs: 0 });
    assert!(matches!(action, ScanAction::Sleep { secs: 1 }));
}

#[test]
fn a_tick_asks_about_each_enabled_target_in_turn() {
    let mut targets = AppState::default().targets;
    let mut second = targets[0].clone();
    second.process_name = "Other.exe".to_string();
    targets.push(second);
    let mut scanner = AdScanner::new(false);
    let action = scanner.step(ScanEvent::Tick { enabled: true, targets: targets.clone(), interval_secs: 5 });
    assert!(matches!(&action, ScanAction::CheckTargetRunning { process_name } if process_name == "KakaoTalk.exe"));
    let action = scanner.step(ScanEvent::Answer(false));
    assert!(matches!(&action, ScanAction::CheckTargetRunning { process_name } if process_name == "Other.exe"));
    let action = scanner.step(ScanEvent::Answer(false));
    assert!(matches!(action, ScanAction::Sleep { secs: 5 }));
}
