use phase::copy_plan::is_excluded_for_pull;
use phase::ingest::{
    card_dir, extension_of, is_card_log, is_skipped_dir, format_camera, is_ingestable_extension, is_raw_extension,
    is_still_extension, path_join_str, thumb_rel_path, CardFingerprint,
};

#[test]
fn raw_list_covers_every_raw_format_pull_excludes() {
    // Both lists name the same family of files for opposite reasons; if one grows a
    // format the other must too.
    for ext in ["tif", "tiff", "nef", "cr2", "cr3", "arw", "rw2", "orf", "raf", "dng"] {
        assert!(is_excluded_for_pull(&format!("x.{ext}")));
        // `tif`/`tiff` are excluded from pull for unrelated reasons.
        if matches!(ext, "tif" | "tiff") {
            continue;
        }
        assert!(
            is_raw_extension(ext),
            "{ext} is treated as RAW by pull but not by ingest"
        );
    }
}

#[test]
fn magic_lantern_assets_are_not_photographs() {
    for ext in ["bmp", "lua", "mo", "rbf", "sym", "cfg", "lut", "dat", "fir"] {
        assert!(!is_ingestable_extension(ext), "{ext} should be skipped");
    }
}

#[test]
fn video_and_sidecars_are_not_ingested() {
    for ext in ["mov", "mp4", "avi", "mts", "m4v", "xmp", "thm", "lrc", "wav"] {
        assert!(!is_ingestable_extension(ext), "{ext} should be skipped");
    }
}

#[test]
fn extensions_are_matched_case_insensitively() {
    assert_eq!(extension_of("DSC03798.ARW"), "arw");
    assert_eq!(extension_of("PHC_2730.NEF"), "nef");
    assert!(is_raw_extension(&extension_of("PHC_2730.NEF")));
    assert!(is_still_extension(&extension_of("DSC03798.JPG")));
    assert_eq!(extension_of("NOEXTENSION"), "");
    assert!(!is_ingestable_extension(&extension_of("NOEXTENSION")));
}

#[test]
fn camera_names_read_like_a_person_wrote_them() {
    assert_eq!(format_camera("NIKON CORPORATION", "NIKON Z 7"), "Nikon Z 7");
    assert_eq!(format_camera("SONY", "ILCE-7R"), "Sony ILCE-7R");
    assert_eq!(format_camera("Canon", "Canon EOS 600D"), "Canon EOS 600D");
    assert_eq!(format_camera("CANON", "CANON EOS 600D"), "Canon EOS 600D");
    assert_eq!(format_camera("FUJIFILM", "X-T4"), "Fujifilm X-T4");
    // Degenerate halves must not produce stray whitespace.
    assert_eq!(format_camera("", "ILCE-7R"), "ILCE-7R");
    assert_eq!(format_camera("SONY", ""), "Sony");
    assert_eq!(format_camera("", ""), "");
}

#[test]
fn thumbnails_mirror_the_card_tree_without_colliding() {
    assert_eq!(
        thumb_rel_path("DCIM/115NCZ_7/PHC_2730.NEF"),
        "thumbs/DCIM/115NCZ_7/PHC_2730.NEF.jpg"
    );
    // Same stem, different source format: distinct thumbnails.
    assert_ne!(
        thumb_rel_path("DCIM/100/IMG_1.NEF"),
        thumb_rel_path("DCIM/100/IMG_1.JPG")
    );
    // A file at the card root still lands under thumbs/.
    assert_eq!(thumb_rel_path("LOOSE.JPG"), "thumbs/LOOSE.JPG.jpg");
}

#[test]
fn stills_and_raws_are_both_ingestable() {
    assert!(is_ingestable_extension("jpg"));
    assert!(is_ingestable_extension("nef"));
    assert!(is_still_extension("jpeg"));
    assert!(!is_raw_extension("jpg"));
}

#[test]
fn a_card_lands_in_a_folder_named_after_it() {
    let card = CardFingerprint {
        drive_letter: 'E',
        label: "NIKON Z 7".to_string(),
        volume_serial: 0x88c2_52aa,
        fs_type: "exFAT".to_string(),
        total_bytes: 64_000_000_000,
        signature: "sig".to_string(),
        friendly_name: "64GB_88c252".to_string(),
    };
    assert_eq!(card_dir("D:/ingest", &card), "D:/ingest/64GB_88c252");
    assert_eq!(card_dir("D:/ingest/", &card), "D:/ingest/64GB_88c252");
    assert_eq!(path_join_str("", "a.jpg"), "a.jpg");
}

#[test]
fn the_walk_skips_system_folders_and_its_own_log() {
    assert!(is_skipped_dir("System Volume Information"));
    assert!(is_skipped_dir("$RECYCLE.BIN"));
    assert!(!is_skipped_dir("DCIM"));
    assert!(is_card_log("PHASE_LOG.TXT"));
    assert!(!is_card_log("phase_log.txt.bak"));
}
