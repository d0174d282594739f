use phase::ingest_job::{
    most_busy, partial_path, plan_for,
    prepare_file, FileState, Plan, COPY_WORKERS, VERIFY_QUEUE_DEPTH, VERIFY_WORKERS,
};
use phase::manifest::{Entry, Freshness, Manifest};
use phase::scan::IngestFile;

fn ingest_file(rel: &str, size: u64, mtime: i64) -> IngestFile {
    IngestFile {
        rel_path: rel.to_string(),
        src_abs: format!("I:/{rel}"),
        size,
        mtime,
    }
}

fn entry(size: u64, mtime: i64) -> Entry {
    Entry {
        src_size: size,
        src_mtime: mtime,
        dst_size: size,
        dst_mtime: mtime,
        blake3: "deadbeef".into(),
        thumb: None,
        camera: None,
    }
}

#[test]
fn at_most_one_file_per_worker_can_look_busy() {
    // The grid should never show more busy squares than there are workers plus the
    // small hand-off queue between the two stages. A deep queue used to make dozens of
    // files look like they were being verified at once.
    assert!(VERIFY_QUEUE_DEPTH <= COPY_WORKERS);
    let most = COPY_WORKERS + VERIFY_QUEUE_DEPTH + VERIFY_WORKERS;
    assert!(most <= 16, "{most} busy squares is too many to read");
    assert_eq!(most_busy(), most);
}

#[test]
fn states_classify_as_busy_and_settled_correctly() {
    assert!(FileState::Copying.is_busy());
    assert!(FileState::Verifying.is_busy());
    assert!(!FileState::Pending.is_busy());
    assert!(!FileState::Incomplete.is_busy());

    assert!(FileState::Done.is_settled());
    assert!(FileState::Failed.is_settled());
    for state in [FileState::Pending, FileState::Incomplete, FileState::Copying, FileState::Verifying] {
        assert!(!state.is_settled(), "{state:?} is not settled");
    }
}

#[test]
fn a_file_the_manifest_already_covers_is_not_re_copied() {
    let dst_mtime = 1_700_000_000;
    let file = ingest_file("DCIM/A.NEF", 5, dst_mtime);
    let mut manifest = Manifest::new();
    manifest.insert(&file.rel_path, entry(5, dst_mtime));
    assert_eq!(prepare_file(&manifest, &file, Some((5, dst_mtime)), false), Plan::AlreadyDone);
    assert_eq!(Plan::AlreadyDone.initial_state(), FileState::Done);
}

#[test]
fn a_file_with_no_destination_is_copied() {
    let file = ingest_file("DCIM/A.NEF", 5, 100);
    assert_eq!(prepare_file(&Manifest::new(), &file, None, false), Plan::Copy);
    assert_eq!(Plan::Copy.initial_state(), FileState::Pending);
}

#[test]
fn a_leftover_partial_shows_as_incomplete_rather_than_pending() {
    // What a killed run leaves behind: `DCIM/A.NEF.partial` and no `DCIM/A.NEF`.
    let file = ingest_file("DCIM/A.NEF", 5, 100);
    assert_eq!(partial_path("P:/_INGEST/c/DCIM/A.NEF"), "P:/_INGEST/c/DCIM/A.NEF.partial");
    assert_eq!(prepare_file(&Manifest::new(), &file, None, true), Plan::Incomplete);
    assert_eq!(Plan::Incomplete.initial_state(), FileState::Incomplete);
}

#[test]
fn a_timestamp_shift_asks_for_a_recheck_carrying_the_recorded_hash() {
    let dst_mtime = 1_700_000_000;
    // Same size, source timestamp an hour out: a DST artefact on a FAT card.
    let file = ingest_file("DCIM/A.NEF", 5, dst_mtime + 3600);
    let mut manifest = Manifest::new();
    manifest.insert(&file.rel_path, entry(5, dst_mtime));
    assert_eq!(
        prepare_file(&manifest, &file, Some((5, dst_mtime)), false),
        Plan::Recheck("deadbeef".into())
    );
    assert_eq!(Plan::Recheck(String::new()).initial_state(), FileState::Pending);
}

#[test]
fn a_stale_file_is_copied_again_even_with_a_record() {
    let hash = "cafe".to_string();
    assert_eq!(plan_for(Freshness::Stale, Some(&hash), false), Plan::Copy);
    assert_eq!(plan_for(Freshness::Current, Some(&hash), true), Plan::AlreadyDone);
    assert_eq!(plan_for(Freshness::Recheck, Some(&hash), false), Plan::Recheck("cafe".into()));
}


