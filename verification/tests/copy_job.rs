use phase::copy_job::{
    after_copy, check_written_hash, copyable_indices, job_worker_count, on_all_joined, on_cancel_seen,
    verify_hashes, verify_stats, CopyError, JobFlags, JobMsg, VerifyError,
};
use phase::copy_plan::{Action, PlannedFile};

fn planned(rel: &str, action: Action) -> PlannedFile {
    PlannedFile {
        rel_path: rel.into(),
        src_abs: format!("S/{rel}"),
        dst_abs: format!("D/{rel}"),
        size: 1,
        action,
    }
}

#[test]
fn error_messages_read_as_sentences() {
    assert_eq!(CopyError::Cancelled.message(), "cancelled");
    assert_eq!(
        CopyError::HashMismatch { path: "D/a.exr".into() }.message(),
        "hash mismatch after copy (D/a.exr)"
    );
    assert_eq!(CopyError::Other("open src x".into()).message(), "open src x");
    assert_eq!(
        VerifyError::SizeMismatch { src_size: 10, dst_size: 7 }.message(),
        "size mismatch after copy: source is 10 bytes, destination is 7 bytes"
    );
    assert_eq!(
        VerifyError::MtimeMismatch { src_mtime: 1_700_000_000, dst_mtime: -5 }.message(),
        "mtime mismatch after copy: source is 1700000000, destination is -5"
    );
    assert_eq!(VerifyError::HashMismatch.message(), "hash mismatch after copy");
}

#[test]
fn a_copy_must_match_its_source_in_size_time_and_content() {
    assert!(matches!(
        verify_stats(10, 11, 0, 0),
        Err(VerifyError::SizeMismatch { src_size: 10, dst_size: 11 })
    ));
    assert!(verify_stats(10, 10, 1000, 1002).is_ok());
    assert!(verify_stats(10, 10, 1002, 1000).is_ok());
    assert!(matches!(
        verify_stats(10, 10, 1000, 1003),
        Err(VerifyError::MtimeMismatch { src_mtime: 1000, dst_mtime: 1003 })
    ));
    assert!(verify_hashes("ab", "ab").is_ok());
    assert!(matches!(verify_hashes("ab", "ac"), Err(VerifyError::HashMismatch)));
    assert!(check_written_hash("D/a", "ff", "ff").is_ok());
    match check_written_hash("D/a", "ff", "fe") {
        Err(CopyError::HashMismatch { path }) => assert_eq!(path, "D/a"),
        _ => panic!("expected a hash mismatch"),
    }
}

#[test]
fn only_new_files_and_overwrites_are_copied() {
    let files = vec![
        planned("a", Action::New),
        planned("b", Action::Identical),
        planned("c", Action::Overwrite),
        planned("d", Action::Conflict { dest_newer: true }),
    ];
    assert_eq!(copyable_indices(&files), vec![0, 2]);
}

#[test]
fn workers_never_outnumber_the_files() {
    assert_eq!(job_worker_count(None, 0), 1);
    assert_eq!(job_worker_count(None, 3), 3);
    assert_eq!(job_worker_count(None, 20), 4);
    assert_eq!(job_worker_count(Some(8), 5), 5);
    assert_eq!(job_worker_count(Some(0), 5), 1);
    assert_eq!(job_worker_count(Some(2), 5), 2);
}

#[test]
fn a_job_ends_with_exactly_one_closing_message() {
    // A clean run: every file reported, then `Finished`.
    let mut flags = JobFlags::new();
    let (msg, go_on) = after_copy(&mut flags, "a.exr", &Ok(()));
    assert!(go_on);
    assert!(matches!(msg, Some(JobMsg::FileDone { rel_path }) if rel_path == "a.exr"));
    assert!(matches!(on_all_joined(&flags), Some(JobMsg::Finished)));

    // A failure stops every worker and is the only ending reported.
    let mut flags = JobFlags::new();
    let (msg, go_on) = after_copy(&mut flags, "b.exr", &Err(CopyError::Other("disk full".into())));
    assert!(!go_on);
    assert!(flags.cancel);
    assert!(matches!(msg, Some(JobMsg::FileFailed { rel_path, error }) if rel_path == "b.exr" && error == "disk full"));
    let (msg, _) = after_copy(&mut flags, "c.exr", &Err(CopyError::Cancelled));
    assert!(msg.is_none());
    assert!(on_cancel_seen(&mut flags).is_none());
    assert!(on_all_joined(&flags).is_none());

    // A user cancel is reported once, however many workers notice it.
    let mut flags = JobFlags::new();
    flags.cancel = true;
    assert!(matches!(on_cancel_seen(&mut flags), Some(JobMsg::Cancelled)));
    assert!(on_cancel_seen(&mut flags).is_none());
    assert!(on_all_joined(&flags).is_none());
}
