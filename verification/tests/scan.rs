use phase::scan::{all_sample_names_splittable, can_split_sequence, drop_jpegs_shadowed_by_raw, sample_files, split_sequence, stem_key, sort_by_rel_path, IngestFile, Skipped};

fn file(rel: &str, size: u64) -> IngestFile {
    IngestFile {
        rel_path: rel.to_string(),
        src_abs: format!("I:/{rel}"),
        size,
        mtime: 0,
    }
}

fn names(files: &[IngestFile]) -> Vec<String> {
    files.iter().map(|f| f.rel_path.replace('\\', "/")).collect()
}

#[test]
fn a_jpeg_beside_its_raw_is_dropped() {
    let (kept, dropped) = drop_jpegs_shadowed_by_raw(vec![
        file("DCIM/101MSDCF/DSC03798.ARW", 10),
        file("DCIM/101MSDCF/DSC03798.JPG", 5),
        file("DCIM/101MSDCF/DSC03799.ARW", 10),
        file("DCIM/101MSDCF/DSC03799.JPG", 5),
    ]);
    assert_eq!(dropped, 2);
    assert_eq!(
        names(&kept),
        ["DCIM/101MSDCF/DSC03798.ARW", "DCIM/101MSDCF/DSC03799.ARW"]
    );
}

#[test]
fn a_jpeg_with_no_raw_of_its_own_is_kept() {
    let (kept, dropped) = drop_jpegs_shadowed_by_raw(vec![
        file("DCIM/100/IMG_1.ARW", 10),
        file("DCIM/100/IMG_2.JPG", 5),
    ]);
    assert_eq!(dropped, 0);
    assert_eq!(names(&kept), ["DCIM/100/IMG_1.ARW", "DCIM/100/IMG_2.JPG"]);
}

#[test]
fn pairing_never_reaches_across_directories() {
    // Two image folders can hold genuinely different shots under the same name, so a
    // RAW in one must not silently delete a JPEG in the other.
    let (kept, dropped) = drop_jpegs_shadowed_by_raw(vec![
        file("DCIM/115NCZ_7/PHC_2730.NEF", 10),
        file("DCIM/116NCZ_7/PHC_2730.JPG", 5),
    ]);
    assert_eq!(dropped, 0);
    assert_eq!(kept.len(), 2);
}

#[test]
fn pairing_ignores_case_the_way_the_filesystem_does() {
    let (kept, dropped) = drop_jpegs_shadowed_by_raw(vec![
        file("DCIM/100/img_1.nef", 10),
        file("DCIM/100/IMG_1.JPG", 5),
    ]);
    assert_eq!(dropped, 1);
    assert_eq!(names(&kept), ["DCIM/100/img_1.nef"]);
}

#[test]
fn a_contiguous_run_needs_only_one_camera_sample() {
    // The Nikon card: PHC_2730..PHC_4849 with no gaps.
    let files: Vec<IngestFile> = (2730..=4849)
        .map(|n| file(&format!("DCIM/115NCZ_7/PHC_{n}.NEF"), 50))
        .collect();
    assert_eq!(names(&sample_files(&files).into_iter().cloned().collect::<Vec<_>>()).len(), 1);
}

#[test]
fn a_gap_in_the_sequence_earns_a_second_sample() {
    // The Sony card: DSC03798..DSC03912 with one gap at 3854 -> 3857.
    let files: Vec<IngestFile> = (3798..=3912)
        .filter(|n| !(3855..=3856).contains(n))
        .map(|n| file(&format!("DCIM/101MSDCF/DSC0{n}.ARW"), 35))
        .collect();
    let samples = sample_files(&files);
    assert_eq!(samples.len(), 2);
    assert_eq!(
        names(&samples.into_iter().cloned().collect::<Vec<_>>()),
        ["DCIM/101MSDCF/DSC03798.ARW", "DCIM/101MSDCF/DSC03857.ARW"]
    );
}

#[test]
fn different_folders_prefixes_and_formats_are_sampled_separately() {
    let files = vec![
        file("DCIM/100CANON/IMG_0001.CR2", 20),
        file("DCIM/100CANON/IMG_0002.CR2", 20),
        file("DCIM/101MSDCF/DSC00001.ARW", 30),
        file("DCIM/101MSDCF/PANO0001.ARW", 30),
        file("DCIM/101MSDCF/DSC00002.JPG", 5),
    ];
    assert_eq!(sample_files(&files).len(), 4);
}

#[test]
fn sequence_splitting_handles_awkward_names() {
    assert_eq!(split_sequence("DSC03798"), ("dsc".into(), 3798));
    assert_eq!(split_sequence("PHC_2730"), ("phc_".into(), 2730));
    assert_eq!(split_sequence("IMG_0001"), ("img_".into(), 1));
    // No digits at all, and digits only.
    assert_eq!(split_sequence("PANORAMA"), ("panorama".into(), 0));
    assert_eq!(split_sequence("12345"), ("".into(), 12345));
    assert_eq!(split_sequence(""), ("".into(), 0));
    // Absurdly long digit runs must not overflow.
    let long = "9".repeat(40);
    assert_eq!(split_sequence(&long), ("".into(), 0));
}

#[test]
fn skipped_counts_read_as_a_sentence() {
    assert_eq!(Skipped::default().describe(), None);
    assert_eq!(
        Skipped { jpeg_with_raw: 113, other: 0 }.describe().unwrap(),
        "skipped 113 JPEG with RAW"
    );
    assert_eq!(
        Skipped { jpeg_with_raw: 113, other: 47 }.describe().unwrap(),
        "skipped 113 JPEG with RAW, 47 non-image"
    );
}

#[test]
fn only_non_image_files_read_as_a_sentence_too() {
    assert_eq!(
        Skipped { jpeg_with_raw: 0, other: 3 }.describe().unwrap(),
        "skipped 3 non-image"
    );
}

#[test]
fn a_stem_key_is_the_folder_and_the_lowered_stem() {
    let (dir, stem) = stem_key("DCIM/100/IMG_1.JPG");
    let (dir2, stem2) = stem_key("DCIM/100/img_1.nef");
    assert_eq!(dir, dir2);
    assert_eq!(stem, stem2);
    let (dir3, _) = stem_key("DCIM/101/IMG_1.JPG");
    assert_ne!(dir, dir3);
}

#[test]
fn a_frame_number_after_a_wide_character_cannot_be_split() {
    assert!(can_split_sequence("DSC03798"));
    assert!(can_split_sequence("12345"));
    assert!(can_split_sequence("é_12"));
    assert!(!can_split_sequence("é12"));
    assert!(all_sample_names_splittable(&[file("DCIM/A1.NEF", 1)]));
    assert!(!all_sample_names_splittable(&[file("DCIM/é1.NEF", 1)]));
}

#[test]
fn scanned_files_come_in_path_order() {
    let mut files = vec![
        file("DCIM/101NIKON/A.NEF", 1),
        file("a-b", 2),
        file("DCIM\\100NIKON\\B.NEF", 3),
        file("a/b", 4),
        file("DCIM/100NIKON/A.NEF", 5),
    ];
    sort_by_rel_path(&mut files);
    let order: Vec<&str> = files.iter().map(|f| f.rel_path.as_str()).collect();
    // Component by component: `a` sorts before `a-b`, and either separator splits.
    assert_eq!(
        order,
        vec!["DCIM/100NIKON/A.NEF", "DCIM\\100NIKON\\B.NEF", "DCIM/101NIKON/A.NEF", "a/b", "a-b"]
    );
    let sizes: Vec<u64> = files.iter().map(|f| f.size).collect();
    assert_eq!(sizes, vec![5, 3, 1, 4, 2]);
}
