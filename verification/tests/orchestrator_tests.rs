use chunked_backup::errors::BackupError;
use chunked_backup::orchestrator::{init_run, step, tally_uploads, Phase, RunEvent};

#[test]
fn one_failed_upload_of_three_still_sweeps_and_reports_failure() {
    let mut run = init_run();
    step(&mut run, RunEvent::Validate { source_is_dir: true, credentials_ok: true });
    step(&mut run, RunEvent::BeginArchive);
    step(&mut run, RunEvent::ArchiveDone { ok: true, segments: 3 });
    // One simulated network error; the other two segments are still attempted.
    let outcomes = vec![true, false, true];
    let (uploaded, failed) = tally_uploads(&outcomes);
    assert_eq!((uploaded, failed), (2, 1));
    step(&mut run, RunEvent::UploadsDone { uploaded, failed });
    assert_eq!(run.phase, Phase::Sweeping);
    step(&mut run, RunEvent::SweepDone { removed: 0 });
    let report = run.report();
    assert_eq!(report.segments_created, 3);
    assert_eq!(report.segments_uploaded, 2);
    assert_eq!(report.segments_failed, 1);
    assert!(!report.success);
}

#[test]
fn clean_run_reports_success() {
    let mut run = init_run();
    step(&mut run, RunEvent::Validate { source_is_dir: true, credentials_ok: true });
    step(&mut run, RunEvent::BeginArchive);
    step(&mut run, RunEvent::ArchiveDone { ok: true, segments: 2 });
    step(&mut run, RunEvent::UploadsDone { uploaded: 2, failed: 0 });
    step(&mut run, RunEvent::SweepDone { removed: 4 });
    let report = run.report();
    assert!(report.success);
    assert_eq!(report.segments_uploaded, 2);
    assert_eq!(report.files_removed, 4);
}

#[test]
fn invalid_source_fails_with_filesystem_error_before_any_work() {
    let mut run = init_run();
    step(&mut run, RunEvent::Validate { source_is_dir: false, credentials_ok: true });
    assert_eq!(run.phase, Phase::Failed);
    assert_eq!(run.error, Some(BackupError::Filesystem));
    assert_eq!(run.segments_created, 0);
    assert!(!run.report().success);
}

#[test]
fn unresolvable_credentials_fail_with_config_error() {
    let mut run = init_run();
    step(&mut run, RunEvent::Validate { source_is_dir: true, credentials_ok: false });
    assert_eq!(run.phase, Phase::Failed);
    assert_eq!(run.error, Some(BackupError::Config));
}

#[test]
fn archive_failure_aborts_before_upload() {
    let mut run = init_run();
    step(&mut run, RunEvent::Validate { source_is_dir: true, credentials_ok: true });
    step(&mut run, RunEvent::BeginArchive);
    step(&mut run, RunEvent::ArchiveDone { ok: false, segments: 0 });
    assert_eq!(run.phase, Phase::Failed);
    assert_eq!(run.error, Some(BackupError::Archive));
    assert_eq!(run.segments_uploaded, 0);
}

#[test]
fn rejected_credentials_fail_the_run_before_any_upload() {
    let mut run = init_run();
    step(&mut run, RunEvent::Validate { source_is_dir: true, credentials_ok: true });
    step(&mut run, RunEvent::BeginArchive);
    step(&mut run, RunEvent::ArchiveDone { ok: true, segments: 2 });
    step(&mut run, RunEvent::CredentialsRejected);
    assert_eq!(run.phase, Phase::Failed);
    assert_eq!(run.error, Some(BackupError::Credential));
    assert_eq!(run.segments_uploaded, 0);
}

#[test]
fn error_descriptions_name_each_failure() {
    assert_eq!(BackupError::Config.describe(), "configuration error");
    assert_eq!(BackupError::Upload.describe(), "segment upload failed");
    assert_ne!(BackupError::Archive.describe(), BackupError::Retention.describe());
}
