use phase::ingest_job::FileState;
use phase::ingest_worker::{
    after_copy, after_copy_attempt, after_verify_attempt, cancelled_error, recheck_confirms,
    starting_state, AttemptNext, CopyOutcome,
};

#[test]
fn a_copy_is_tried_three_times_before_it_is_reported() {
    assert!(matches!(after_copy_attempt(1, Err("busy".into()), false), AttemptNext::Retry));
    assert!(matches!(after_copy_attempt(2, Err("busy".into()), false), AttemptNext::Retry));
    match after_copy_attempt(3, Err("busy".into()), false) {
        AttemptNext::GaveUp(e) => assert_eq!(e, "busy"),
        other => panic!("unexpected {other:?}"),
    }
    match after_copy_attempt(3, Ok("hash".into()), false) {
        AttemptNext::Succeeded(h) => assert_eq!(h, "hash"),
        other => panic!("unexpected {other:?}"),
    }
}

#[test]
fn a_verify_is_tried_twice() {
    assert!(matches!(after_verify_attempt(1, Err("mismatch".into()), false), AttemptNext::Retry));
    assert!(matches!(after_verify_attempt(2, Err("mismatch".into()), false), AttemptNext::GaveUp(_)));
}

#[test]
fn a_cancelled_card_fails_quietly() {
    assert!(matches!(after_copy_attempt(1, Err(cancelled_error()), true), AttemptNext::Cancelled));
    assert_eq!(after_copy(Err(cancelled_error()), true), CopyOutcome::Quiet);
    assert_eq!(after_copy(Err("disk full".into()), false), CopyOutcome::Report("disk full".into()));
    assert_eq!(after_copy(Ok("abc".into()), true), CopyOutcome::Verify("abc".into()));
    assert_eq!(starting_state(true, false), None);
    assert_eq!(starting_state(false, false), Some(FileState::Copying));
    assert_eq!(starting_state(false, true), Some(FileState::Verifying));
    assert_eq!(cancelled_error(), "cancelled");
}

#[test]
fn a_recheck_needs_the_recorded_hash() {
    assert!(recheck_confirms("deadbeef", Some("deadbeef")));
    assert!(!recheck_confirms("deadbeef", Some("cafe")));
    assert!(!recheck_confirms("deadbeef", None));
}
