use phase::card_run::{
    apply_prepared, cancel_card_ingest, begin_flush, deliver, finish_settled_cards, forget_drive,
    card_detail_line, ingest_busy, ingest_tasks, pump_ingest_messages, reconcile_ingest_runs, rescan_cards, start_card_ingest,
    write_card_log, header_action, CardAction, CardRun, HeaderProgress, IngestMsg, StartDecision,
};
use phase::ingest::CardFingerprint;
use phase::ingest_job::{FileState, Plan};
use phase::manifest::{Entry, Manifest};
use phase::scan::{CardScan, IngestFile, Skipped};

fn ingest_file(rel: &str, size: u64, mtime: i64) -> IngestFile {
    IngestFile {
        rel_path: rel.to_string(),
        src_abs: format!("I:/{rel}"),
        size,
        mtime,
    }
}

fn entry(size: u64) -> Entry {
    Entry {
        src_size: size,
        src_mtime: 0,
        dst_size: size,
        dst_mtime: 0,
        blake3: "deadbeef".into(),
        thumb: None,
        camera: None,
    }
}

fn scan_of(files: Vec<IngestFile>) -> CardScan {
    CardScan {
        files,
        ext_counts: Vec::new(),
        cameras: Vec::new(),
        skipped: Skipped { jpeg_with_raw: 0, other: 0 },
    }
}

fn run_with(states: Vec<FileState>) -> CardRun {
    let files: Vec<IngestFile> = (0..states.len())
        .map(|i| ingest_file(&format!("A{i}.NEF"), 10, 0))
        .collect();
    CardRun {
        id: 1,
        drive_letter: 'I',
        card_name: "120GB_671658".into(),
        card_signature: "sig".into(),
        root: "I:\\".into(),
        dest_dir: r"P:\_INGEST\120GB_671658".into(),
        scan: scan_of(files),
        states,
        errors: Vec::new(),
        manifest: Manifest::new(),
        unflushed: 0,
        started: true,
        logged: false,
        cancelled: false,
    }
}

fn card(letter: char, signature: &str, name: &str) -> CardFingerprint {
    CardFingerprint {
        drive_letter: letter,
        label: String::new(),
        volume_serial: 1,
        fs_type: "exFAT".into(),
        total_bytes: 64_000_000_000,
        signature: signature.into(),
        friendly_name: name.into(),
    }
}

#[test]
fn a_card_is_complete_only_when_every_file_is_green() {
    let run = run_with(vec![FileState::Done, FileState::Done]);
    assert!(run.is_complete());
    assert!(run.is_settled());
    assert_eq!(run.done_count(), 2);

    // One failure means settled but not complete — no eject offer.
    let run = run_with(vec![FileState::Done, FileState::Failed]);
    assert!(run.is_settled());
    assert!(!run.is_complete());
    assert_eq!(run.failed_count(), 1);

    // Still working.
    let run = run_with(vec![FileState::Done, FileState::Copying]);
    assert!(!run.is_settled());
    assert!(!run.is_complete());
    assert!(run.is_running());

    // A card with no files at all is neither complete nor settled.
    let run = run_with(Vec::new());
    assert!(!run.is_complete());
    assert!(!run.is_settled());
}

#[test]
fn outstanding_bytes_exclude_what_is_already_done() {
    let run = run_with(vec![FileState::Done, FileState::Pending, FileState::Failed]);
    assert_eq!(run.bytes_outstanding(), 20);
}

#[test]
fn a_cancelled_card_is_no_longer_running() {
    let mut run = run_with(vec![FileState::Copying]);
    assert!(run.is_running());
    cancel_card_ingest(&mut run);
    assert!(!run.is_running());
}

#[test]
fn cancelling_sends_unfinished_files_back_to_pending() {
    let mut run = run_with(vec![FileState::Done, FileState::Copying, FileState::Verifying, FileState::Failed]);
    cancel_card_ingest(&mut run);
    assert_eq!(
        run.states,
        vec![FileState::Done, FileState::Pending, FileState::Pending, FileState::Failed]
    );
    assert!(!run.started);
    assert!(run.cancelled);
    assert_eq!(run.file_count(), 4);
}

#[test]
fn messages_reach_only_their_own_card() {
    let mut other = run_with(vec![FileState::Pending]);
    other.id = 2;
    let mut runs = vec![run_with(vec![FileState::Pending, FileState::Pending]), other];

    deliver(&mut runs, IngestMsg::Stage { card: 1, index: 0, state: FileState::Copying });
    assert_eq!(runs[0].states, vec![FileState::Copying, FileState::Pending]);
    assert_eq!(runs[1].states, vec![FileState::Pending]);

    // A message for a card that is gone changes nothing.
    deliver(&mut runs, IngestMsg::Stage { card: 9, index: 0, state: FileState::Verifying });
    assert_eq!(runs[0].states, vec![FileState::Copying, FileState::Pending]);
    assert_eq!(runs[1].states, vec![FileState::Pending]);
}

#[test]
fn a_finished_file_joins_the_manifest_and_clears_its_failure() {
    let mut runs = vec![run_with(vec![FileState::Pending, FileState::Pending])];
    runs[0].scan.files[0].rel_path = r"DCIM\A0.NEF".into();
    pump_ingest_messages(
        &mut runs,
        vec![
            IngestMsg::Failed { card: 1, index: 0, error: "read error".into() },
            IngestMsg::Failed { card: 1, index: 1, error: "disk full".into() },
            IngestMsg::Done { card: 1, index: 0, entry: entry(10) },
        ],
    );
    let run = &runs[0];
    assert_eq!(run.states, vec![FileState::Done, FileState::Failed]);
    assert_eq!(run.errors, vec![(1, "disk full".to_string())]);
    assert_eq!(run.unflushed, 1);
    assert!(run.manifest.get("DCIM/A0.NEF").is_some());
    assert!(run.manifest.get("A1.NEF").is_none());
}

#[test]
fn a_second_failure_of_a_file_replaces_the_first() {
    let mut runs = vec![run_with(vec![FileState::Pending])];
    pump_ingest_messages(
        &mut runs,
        vec![
            IngestMsg::Failed { card: 1, index: 0, error: "first".into() },
            IngestMsg::Failed { card: 1, index: 0, error: "second".into() },
        ],
    );
    assert_eq!(runs[0].errors, vec![(0, "second".to_string())]);
}

#[test]
fn settled_runs_are_flushed_and_logged_once() {
    let mut busy = run_with(vec![FileState::Copying]);
    busy.unflushed = 3;
    let mut settled = run_with(vec![FileState::Done]);
    settled.unflushed = 1;
    let mut logged = run_with(vec![FileState::Done]);
    logged.logged = true;
    let mut unstarted = run_with(vec![FileState::Done]);
    unstarted.started = false;
    let runs = vec![busy, settled, logged, unstarted];

    let (flush, log) = finish_settled_cards(&runs, 3);
    assert_eq!(flush, vec![0, 1]);
    assert_eq!(log, vec![1]);

    let (flush, _) = finish_settled_cards(&runs, 100);
    assert_eq!(flush, vec![1]);
}

#[test]
fn a_flush_waits_for_the_previous_write() {
    let mut run = run_with(vec![FileState::Done]);
    run.unflushed = 5;
    assert!(!begin_flush(&mut run, true));
    assert_eq!(run.unflushed, 5);
    assert!(begin_flush(&mut run, false));
    assert_eq!(run.unflushed, 0);
}

#[test]
fn the_card_log_summarises_the_run() {
    let mut run = run_with(vec![FileState::Done, FileState::Failed, FileState::Done]);
    run.scan.files[1].rel_path = r"DCIM\A1.NEF".into();
    run.scan.files[2].size = 25;
    run.scan.cameras = vec!["Nikon Z 7".into()];
    run.scan.skipped = Skipped { jpeg_with_raw: 2, other: 1 };
    run.errors = vec![(1, "hash mismatch after copy".into()), (7, "not on this card".into())];
    run.cancelled = true;

    let summary = write_card_log(&mut run);
    assert!(run.logged);
    assert_eq!(summary.card_name, "120GB_671658");
    assert_eq!(summary.card_signature, "sig");
    assert_eq!(summary.destination, r"P:\_INGEST\120GB_671658");
    assert_eq!(summary.cameras, vec!["Nikon Z 7".to_string()]);
    assert_eq!(summary.ingested, 2);
    assert_eq!(summary.bytes, 35);
    assert_eq!(summary.skipped, Skipped { jpeg_with_raw: 2, other: 1 });
    assert_eq!(
        summary.failures,
        vec![("DCIM/A1.NEF".to_string(), "hash mismatch after copy".to_string())]
    );
    assert!(summary.cancelled);
    assert!(!summary.safe_to_format());
}

#[test]
fn runs_follow_the_cards_that_are_plugged_in() {
    let mut started = run_with(vec![FileState::Copying]);
    started.card_signature = "gone-but-started".into();
    let mut stale = run_with(Vec::new());
    stale.card_signature = "gone".into();
    stale.started = false;
    let mut kept = run_with(Vec::new());
    kept.card_signature = "still-here".into();
    kept.started = false;
    let mut runs = vec![started, stale, kept];
    let cards = vec![
        card('E', "still-here", "64GB_aaaaaa"),
        card('F', "new", "128GB_bbbbbb"),
        card('G', "new", "128GB_bbbbbb"),
    ];
    let mut next_id = 10;
    let to_scan = reconcile_ingest_runs(&mut runs, &cards, &mut next_id, "P:/_INGEST");

    let signatures: Vec<&str> = runs.iter().map(|r| r.card_signature.as_str()).collect();
    assert_eq!(signatures, vec!["gone-but-started", "still-here", "new"]);
    assert_eq!(to_scan, vec!["new".to_string()]);
    assert_eq!(next_id, 11);
    let fresh = &runs[2];
    assert_eq!(fresh.id, 10);
    assert_eq!(fresh.drive_letter, 'F');
    assert_eq!(fresh.root, "F:\\");
    assert_eq!(fresh.card_name, "128GB_bbbbbb");
    assert_eq!(fresh.dest_dir, "P:/_INGEST/128GB_bbbbbb");
    assert!(!fresh.started);
    assert!(fresh.states.is_empty());
}

#[test]
fn a_finished_scan_sets_each_files_starting_state() {
    let mut fresh = run_with(Vec::new());
    fresh.started = false;
    fresh.card_signature = "abc".into();
    let mut runs = vec![fresh];
    let scan = scan_of(vec![
        ingest_file("A.NEF", 1, 0),
        ingest_file("B.NEF", 2, 0),
        ingest_file("C.NEF", 3, 0),
    ]);
    let plans = vec![Plan::AlreadyDone, Plan::Incomplete, Plan::Recheck("x".into())];
    apply_prepared(&mut runs, "abc", scan, Manifest::new(), &plans);
    let run = &runs[0];
    assert_eq!(run.states, vec![FileState::Done, FileState::Incomplete, FileState::Pending]);
    assert_eq!(run.file_count(), 3);
    assert_eq!(run.manifest.card_signature, "abc");
    assert_eq!(run.manifest.card_name, "120GB_671658");

    // A scan for a card no run has is dropped.
    apply_prepared(&mut runs, "zzz", scan_of(Vec::new()), Manifest::new(), &Vec::new());
    assert_eq!(runs[0].file_count(), 3);
}

#[test]
fn starting_a_card_refuses_when_the_destination_is_too_full() {
    let mut run = run_with(vec![FileState::Done, FileState::Pending, FileState::Failed]);
    run.started = false;
    match start_card_ingest(&mut run, Some(19)) {
        StartDecision::NotEnoughSpace { needed, free } => {
            assert_eq!(needed, 20);
            assert_eq!(free, 19);
        }
        _ => panic!("expected a refusal"),
    }
    assert!(!run.started);

    match start_card_ingest(&mut run, None) {
        StartDecision::Started { needed, plans } => {
            assert_eq!(needed, 20);
            assert_eq!(plans, vec![Plan::AlreadyDone, Plan::Copy, Plan::Copy]);
        }
        _ => panic!("expected the run to start"),
    }
    assert!(run.started);
    assert!(matches!(start_card_ingest(&mut run, Some(1_000)), StartDecision::Ignored));

    let mut empty = run_with(Vec::new());
    empty.started = false;
    assert!(matches!(start_card_ingest(&mut empty, Some(1_000)), StartDecision::Ignored));
}

#[test]
fn a_rescan_keeps_only_running_cards_and_an_eject_forgets_its_drive() {
    let running = run_with(vec![FileState::Copying]);
    let mut idle = run_with(vec![FileState::Done]);
    idle.drive_letter = 'J';
    let mut runs = vec![running, idle];
    assert!(ingest_busy(false, false, &runs));

    forget_drive(&mut runs, 'J');
    assert_eq!(runs.len(), 1);
    rescan_cards(&mut runs);
    assert_eq!(runs.len(), 1);

    cancel_card_ingest(&mut runs[0]);
    assert!(!ingest_busy(false, false, &runs));
    assert!(ingest_busy(true, false, &runs));
    rescan_cards(&mut runs);
    assert!(runs.is_empty());
}

#[test]
fn tasks_cover_every_file_not_already_done() {
    let mut run = run_with(vec![FileState::Done, FileState::Pending, FileState::Pending]);
    run.dest_dir = "P:/_INGEST/120GB_671658".into();
    run.scan.files[1].rel_path = "DCIM\\100NIKON\\A1.NEF".into();
    let plans = vec![Plan::AlreadyDone, Plan::Recheck("cafe".into()), Plan::Copy];
    let tasks = ingest_tasks(&run, &plans);
    assert_eq!(tasks.len(), 2);
    assert_eq!(tasks[0].index, 1);
    assert_eq!(tasks[0].card, 1);
    assert_eq!(tasks[0].dst, "P:/_INGEST/120GB_671658/DCIM\\100NIKON\\A1.NEF");
    assert_eq!(tasks[0].thumb_rel, "thumbs/DCIM/100NIKON/A1.NEF.jpg");
    assert_eq!(tasks[0].recheck.as_deref(), Some("cafe"));
    assert_eq!(tasks[1].index, 2);
    assert_eq!(tasks[1].thumb_abs, "P:/_INGEST/120GB_671658/thumbs/A2.NEF.jpg");
    assert!(tasks[1].recheck.is_none());
}

#[test]
fn the_header_action_follows_the_run() {
    let progress = HeaderProgress { files_done: 3, files_total: 10, bytes_done_text: "1.5 GB".into() };
    let run = run_with(vec![FileState::Done, FileState::Done]);
    assert_eq!(header_action(&run, true, &progress, None, "0 B"), None);
    assert_eq!(
        header_action(&run, false, &progress, None, "0 B"),
        Some(("Safely remove 120GB_671658".to_string(), CardAction::Eject))
    );

    let run = run_with(vec![FileState::Done, FileState::Copying]);
    assert_eq!(
        header_action(&run, false, &progress, Some("ETL 2 minutes"), "10 B"),
        Some(("3 / 10 \u{b7} 1.5 GB \u{b7} ETL 2 minutes".to_string(), CardAction::Cancel))
    );
    assert_eq!(
        header_action(&run, false, &progress, None, "10 B"),
        Some(("3 / 10 \u{b7} 1.5 GB".to_string(), CardAction::Cancel))
    );

    let mut run = run_with(vec![FileState::Done, FileState::Pending, FileState::Failed]);
    run.started = false;
    assert_eq!(
        header_action(&run, false, &progress, None, "20 B"),
        Some(("Ingest 2 files \u{b7} 20 B".to_string(), CardAction::Start))
    );
    let mut run = run_with(vec![FileState::Done, FileState::Pending]);
    run.started = false;
    assert_eq!(
        header_action(&run, false, &progress, None, "10 B"),
        Some(("Ingest 1 file \u{b7} 10 B".to_string(), CardAction::Start))
    );
    let mut empty = run_with(Vec::new());
    empty.started = false;
    assert_eq!(header_action(&empty, false, &progress, None, "0 B"), None);
}

#[test]
fn the_detail_line_says_what_is_on_the_card() {
    let mut run = run_with(vec![FileState::Done, FileState::Failed, FileState::Failed]);
    run.scan.ext_counts = vec![("NEF".to_string(), 2), ("JPG".to_string(), 1)];
    run.scan.cameras = vec!["Nikon Z 7".to_string(), "Sony A7".to_string()];
    run.scan.skipped = Skipped { jpeg_with_raw: 0, other: 3 };
    let expected_skipped = run.scan.skipped.describe().unwrap();
    assert_eq!(
        card_detail_line(&run, false, 0, true),
        format!("2 NEF, 1 JPG   Cameras: Nikon Z 7, Sony A7   {expected_skipped}   2 failed")
    );
    assert_eq!(card_detail_line(&run, true, 41, false), "Scanning\u{2026} 41 files   card removed");

    let quiet = run_with(Vec::new());
    assert_eq!(card_detail_line(&quiet, false, 0, true), "");
    assert_eq!(card_detail_line(&quiet, false, 0, false), "card removed");
}
