use convenience_tools::config::SyncJob;
use convenience_tools::state::SyncJobStatus;
use convenience_tools::sync::requests::{
    add_sync_job, capture_sync_inputs, queue_run, remove_sync_job, request_sync_all,
    request_sync_job, SyncRequestError,
};

fn job_with(id: &str, source: &str, target: &str) -> SyncJob {
    let mut job = SyncJob::with_id(id.to_string());
    job.source = source.to_string();
    job.target = target.to_string();
    job
}

#[test]
fn capture_trims_the_inputs_of_the_chosen_job_only() {
    let mut jobs = vec![job_with("a", "C:\\a", "D:\\a"), job_with("b", "C:\\b", "D:\\b")];
    jobs[1].interval_secs = 300;
    assert!(capture_sync_inputs(&mut jobs, 1, "  사진  ", " C:\\Photos ", "\tE:\\Backup\n"));
    assert_eq!(jobs[1].name, "사진");
    assert_eq!(jobs[1].source, "C:\\Photos");
    assert_eq!(jobs[1].target, "E:\\Backup");
    assert_eq!(jobs[1].id, "b");
    assert_eq!(jobs[1].interval_secs, 300);
    assert_eq!(jobs[0].source, "C:\\a");
    assert!(!capture_sync_inputs(&mut jobs, 2, "x", "y", "z"));
    assert_eq!(jobs.len(), 2);
}

#[test]
fn add_then_remove_moves_the_selection() {
    let mut jobs = vec![job_with("a", "", ""), job_with("b", "", "")];
    assert_eq!(add_sync_job(&mut jobs, "c".to_string()), 2);
    assert_eq!(jobs[2].id, "c");
    assert!(jobs[2].enabled);
    assert_eq!(jobs[2].interval_secs, 60);

    // Removing the last job selects the one before it.
    let (removed, selection) = remove_sync_job(&mut jobs, 2).unwrap();
    assert_eq!(removed.id, "c");
    assert_eq!(selection, Some(1));
    // Removing the first selects the job that took its place.
    let (removed, selection) = remove_sync_job(&mut jobs, 0).unwrap();
    assert_eq!(removed.id, "a");
    assert_eq!(selection, Some(0));
    assert!(remove_sync_job(&mut jobs, 5).is_none());
    let (_, selection) = remove_sync_job(&mut jobs, 0).unwrap();
    assert_eq!(selection, None);
    assert!(jobs.is_empty());
}

#[test]
fn a_run_is_queued_once_and_needs_both_folders() {
    let jobs = vec![job_with("a", "C:\\a", "D:\\a"), job_with("b", "C:\\b", "   ")];
    let mut run_now: Vec<String> = Vec::new();
    assert_eq!(request_sync_job(&jobs, 0, &mut run_now), Ok("a".to_string()));
    assert_eq!(request_sync_job(&jobs, 0, &mut run_now), Ok("a".to_string()));
    assert_eq!(run_now, vec!["a".to_string()]);
    assert_eq!(request_sync_job(&jobs, 1, &mut run_now), Err(SyncRequestError::MissingFolders));
    assert_eq!(request_sync_job(&jobs, 9, &mut run_now), Err(SyncRequestError::NoSuchJob));
    assert_eq!(run_now, vec!["a".to_string()]);

    queue_run(&mut run_now, "z");
    queue_run(&mut run_now, "z");
    assert_eq!(run_now, vec!["a".to_string(), "z".to_string()]);
}

#[test]
fn asking_for_all_runs_replaces_the_queue() {
    let mut run_now = vec!["old".to_string()];
    assert!(!request_sync_all(&Vec::new(), &mut run_now));
    assert_eq!(run_now, vec!["old".to_string()]);
    let jobs = vec![job_with("a", "", ""), job_with("b", "", "")];
    assert!(request_sync_all(&jobs, &mut run_now));
    assert_eq!(run_now, vec!["a".to_string(), "b".to_string()]);

    let status = SyncJobStatus::requested();
    assert_eq!(status.last_run, None);
    assert_eq!(status.summary, "실행 요청됨 — 결과를 기다리는 중입니다.");
    assert!(!status.failed);
    assert_eq!(status.line(), "실행 요청됨 — 결과를 기다리는 중입니다.");
}

#[test]
fn changing_the_folders_drops_the_resume_cursor() {
    let mut jobs = vec![job_with("job", r"D:\원본", r"E:\대상")];
    jobs[0].resume_cursor = Some(r"nested\file.txt".to_string());

    // Saving with only the name changed keeps the resume point.
    assert!(capture_sync_inputs(&mut jobs, 0, "이름만 변경", r"D:\원본", r"E:\대상"));
    assert_eq!(jobs[0].resume_cursor.as_deref(), Some(r"nested\file.txt"));

    // Another source folder drops it.
    assert!(capture_sync_inputs(&mut jobs, 0, "이름만 변경", r"D:\다른원본", r"E:\대상"));
    assert!(jobs[0].resume_cursor.is_none());

    // So does another target folder.
    jobs[0].resume_cursor = Some(r"nested\file.txt".to_string());
    assert!(capture_sync_inputs(&mut jobs, 0, "이름만 변경", r"D:\다른원본", r"F:\대상"));
    assert!(jobs[0].resume_cursor.is_none());
}
