use phase::ingest_log::{format_timestamp, plural, render, Summary};
use phase::scan::Skipped;

fn summary() -> Summary {
    Summary {
        card_name: "120GB_671658".into(),
        card_signature: "671658a1b2c3d4e5".into(),
        destination: r"P:\_INGEST\120GB_671658".into(),
        cameras: vec!["Nikon Z 7".into()],
        ingested: 2120,
        bytes: 108_500_000_000,
        skipped: Skipped { jpeg_with_raw: 0, other: 1 },
        failures: Vec::new(),
        cancelled: false,
    }
}

/// How the interface writes 108.5 billion bytes.
const SIZE: &str = "101.05 GB";

#[test]
fn a_clean_run_says_the_card_is_safe_to_format() {
    let text = render(&summary(), "1.8.0", "2026-09-16 14:32:11", SIZE);
    assert!(text.contains("PHASE ingest — 2026-09-16 14:32:11 — v1.8.0"));
    assert!(text.contains("120GB_671658  (signature 671658a1b2c3d4e5)"));
    assert!(text.contains("Cameras:     Nikon Z 7"));
    assert!(text.contains("Ingested:    2120 files"));
    assert!(text.contains("Skipped:     1 non-image"));
    assert!(text.contains("Failed:      0"));
    assert!(text.contains("SAFE TO FORMAT: YES"));
    assert!(summary().safe_to_format());
}

#[test]
fn failures_are_named_and_flip_the_verdict() {
    let mut summary = summary();
    summary.failures = vec![
        ("DCIM/100/IMG_1.NEF".into(), "hash mismatch".into()),
        ("DCIM/100/IMG_2.NEF".into(), "RAW decode failed".into()),
    ];
    let text = render(&summary, "1.8.0", "now", SIZE);
    assert!(text.contains("Failed:      2"));
    assert!(text.contains("DCIM/100/IMG_1.NEF — hash mismatch"));
    assert!(text.contains("DCIM/100/IMG_2.NEF — RAW decode failed"));
    assert!(text.contains("SAFE TO FORMAT: NO — the files listed above"));
    assert!(!summary.safe_to_format());
}

#[test]
fn a_cancelled_run_is_never_safe_to_format() {
    let mut summary = summary();
    summary.cancelled = true;
    assert!(render(&summary, "1.8.0", "now", SIZE).contains("SAFE TO FORMAT: NO — this run was cancelled"));
    assert!(!summary.safe_to_format());
}

#[test]
fn an_empty_run_is_never_safe_to_format() {
    let mut summary = summary();
    summary.ingested = 0;
    assert!(render(&summary, "1.8.0", "now", SIZE).contains("SAFE TO FORMAT: NO — nothing was ingested"));
    assert!(!summary.safe_to_format());
}

#[test]
fn one_file_is_not_pluralised() {
    let mut summary = summary();
    summary.ingested = 1;
    assert!(render(&summary, "1.8.0", "now", SIZE).contains("Ingested:    1 file —"));
}

#[test]
fn the_size_and_destination_are_written_out() {
    let text = render(&summary(), "1.8.0", "now", SIZE);
    assert!(text.contains("101.05 GB"));
    assert!(text.contains(r"P:\_INGEST\120GB_671658"));
    assert!(text.ends_with("\n\n"));
}

#[test]
fn plurals_follow_the_count() {
    assert_eq!(plural(0, "file"), "0 files");
    assert_eq!(plural(1, "file"), "1 file");
    assert_eq!(plural(12, "file"), "12 files");
}

#[test]
fn the_timestamp_looks_like_a_timestamp() {
    let now = format_timestamp(2026, 9, 16, 4, 2, 1);
    assert_eq!(now, "2026-09-16 04:02:01");
    assert_eq!(now.len(), 19, "{now}");
    assert!(now.starts_with("20"), "{now}");
    let (date, time) = now.split_once(' ').unwrap();
    assert_eq!(date.split('-').count(), 3);
    assert_eq!(time.split(':').count(), 3);
}
