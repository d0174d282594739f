use phase::manifest::{backup_path, key_for, temp_path, Entry, Freshness, Manifest};
use phase::scan::IngestFile;

fn file(mtime: i64, size: u64) -> IngestFile {
    IngestFile {
        rel_path: "DCIM/100/IMG_1.NEF".to_string(),
        src_abs: r"I:\DCIM\100\IMG_1.NEF".to_string(),
        size,
        mtime,
    }
}

fn manifest_with(entry: Entry) -> Manifest {
    let mut manifest = Manifest::new();
    manifest.insert(&file(0, 0).rel_path, entry);
    manifest
}

fn entry(src_mtime: i64, size: u64) -> Entry {
    Entry {
        src_size: size,
        src_mtime,
        dst_size: size,
        dst_mtime: src_mtime,
        blake3: "abc123".into(),
        thumb: Some("thumbs/DCIM/100/IMG_1.NEF.jpg".into()),
        camera: Some("Nikon Z 7".into()),
    }
}

#[test]
fn an_untouched_pair_is_current() {
    let manifest = manifest_with(entry(1_700_000_000, 50));
    assert_eq!(
        manifest.freshness(&file(1_700_000_000, 50), Some((50, 1_700_000_000))),
        Freshness::Current
    );
}

#[test]
fn sub_second_rounding_is_tolerated_on_both_sides() {
    let manifest = manifest_with(entry(1_700_000_000, 50));
    // exFAT and the NAS both round; ±2s must not force a re-copy.
    assert_eq!(
        manifest.freshness(&file(1_700_000_002, 50), Some((50, 1_699_999_998))),
        Freshness::Current
    );
}

#[test]
fn a_missing_or_unknown_destination_is_stale() {
    let manifest = manifest_with(entry(1_700_000_000, 50));
    assert_eq!(manifest.freshness(&file(1_700_000_000, 50), None), Freshness::Stale);
    assert_eq!(
        Manifest::new().freshness(&file(1_700_000_000, 50), Some((50, 1_700_000_000))),
        Freshness::Stale
    );
}

#[test]
fn any_size_change_is_stale() {
    let manifest = manifest_with(entry(1_700_000_000, 50));
    assert_eq!(
        manifest.freshness(&file(1_700_000_000, 51), Some((50, 1_700_000_000))),
        Freshness::Stale
    );
    assert_eq!(
        manifest.freshness(&file(1_700_000_000, 50), Some((49, 1_700_000_000))),
        Freshness::Stale
    );
}

#[test]
fn a_touched_destination_is_stale_even_if_the_source_is_unchanged() {
    let manifest = manifest_with(entry(1_700_000_000, 50));
    assert_eq!(
        manifest.freshness(&file(1_700_000_000, 50), Some((50, 1_700_000_900))),
        Freshness::Stale
    );
}

#[test]
fn a_whole_hour_shift_on_the_card_asks_for_a_hash_rather_than_a_recopy() {
    // FAT-family cards store local time with no zone, so a DST change moves every
    // timestamp by an hour without a byte having changed. Re-copying 100 GB over that
    // would be absurd; re-hashing the source settles it.
    let manifest = manifest_with(entry(1_700_000_000, 50));
    for shift in [3600, -3600, 7200, -7200, 12 * 3600] {
        assert_eq!(
            manifest.freshness(&file(1_700_000_000 + shift, 50), Some((50, 1_700_000_000))),
            Freshness::Recheck,
            "shift of {shift}s should be treated as a timezone artefact"
        );
    }
    // Half-hour zones exist too (India, parts of Australia).
    assert_eq!(
        manifest.freshness(&file(1_700_000_000 + 1800, 50), Some((50, 1_700_000_000))),
        Freshness::Recheck
    );
}

#[test]
fn an_arbitrary_timestamp_change_is_stale_not_a_timezone_artefact() {
    let manifest = manifest_with(entry(1_700_000_000, 50));
    for shift in [60, 600, 3000, 2 * 24 * 3600] {
        assert_eq!(
            manifest.freshness(&file(1_700_000_000 + shift, 50), Some((50, 1_700_000_000))),
            Freshness::Stale,
            "shift of {shift}s should not be excused"
        );
    }
}

#[test]
fn keys_are_portable_across_path_separators() {
    assert_eq!(key_for(r"DCIM\115NCZ_7\PHC_2730.NEF"), "DCIM/115NCZ_7/PHC_2730.NEF");
    assert_eq!(key_for("DCIM/115NCZ_7/PHC_2730.NEF"), "DCIM/115NCZ_7/PHC_2730.NEF");
}

#[test]
fn a_path_written_either_way_finds_the_same_entry() {
    let mut manifest = Manifest::new();
    manifest.insert(r"DCIM\100\IMG_1.NEF", entry(1, 10));
    assert_eq!(manifest.get("DCIM/100/IMG_1.NEF"), Some(&entry(1, 10)));
    // Inserting again under the other spelling replaces rather than duplicates.
    manifest.insert("DCIM/100/IMG_1.NEF", entry(2, 20));
    assert_eq!(manifest.entries.len(), 1);
    assert_eq!(manifest.get(r"DCIM\100\IMG_1.NEF"), Some(&entry(2, 20)));
    assert_eq!(manifest.get("DCIM/100/IMG_2.NEF"), None);
}

#[test]
fn saves_go_through_a_temp_file_and_keep_a_backup() {
    assert_eq!(temp_path("E:/x/.phase-ingest.json"), "E:/x/.phase-ingest.json.tmp");
    assert_eq!(backup_path("E:/x/.phase-ingest.json"), "E:/x/.phase-ingest.json.bak");
    assert_eq!(Manifest::path_in("E:/x"), "E:/x/.phase-ingest.json");
}
