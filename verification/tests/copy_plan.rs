use phase::copy_plan::{
    transfer_file_rows, Plan, PlannedFile, ReasonColor, TransferFileRow,
    assemble_plan, classify, copy_worker_count, display_reason, is_excluded_for_pull, is_planned,
    skips_pull_excluded, Action, Direction, PullFilterMode, SourceFile,
};

#[test]
fn pull_excludes_tif_tiff_nef_case_insensitive() {
    assert!(is_excluded_for_pull("foo.tif"));
    assert!(is_excluded_for_pull("foo.TIF"));
    assert!(is_excluded_for_pull("foo.tiff"));
    assert!(is_excluded_for_pull("foo.NEF"));
    assert!(is_excluded_for_pull("a.b.nef"));
    assert!(!is_excluded_for_pull("foo.exr"));
    assert!(!is_excluded_for_pull("foo.png"));
    assert!(!is_excluded_for_pull("NEF"));
    assert!(!is_excluded_for_pull(".tif"));
}

#[test]
fn classify_new_when_dst_missing() {
    assert_eq!(classify(100, 1_000, None, None), Action::New);
}

#[test]
fn classify_identical_when_size_and_mtime_match() {
    assert_eq!(
        classify(100, 1_000, Some(100), Some(1_000)),
        Action::Identical
    );
    assert_eq!(
        classify(100, 1_000, Some(100), Some(1_002)),
        Action::Identical
    );
}

#[test]
fn classify_overwrite_when_source_newer() {
    assert_eq!(
        classify(100, 2_000, Some(100), Some(1_000)),
        Action::Overwrite
    );
}

#[test]
fn classify_conflict_when_dest_newer() {
    assert_eq!(
        classify(100, 1_000, Some(100), Some(2_000)),
        Action::Conflict { dest_newer: true }
    );
}

#[test]
fn classify_overwrite_when_sizes_differ_within_mtime_tolerance() {
    assert_eq!(
        classify(100, 1_000, Some(101), Some(1_000)),
        Action::Overwrite
    );
}

#[test]
fn copy_worker_count_is_capped_and_never_exceeds_copyable_files() {
    assert_eq!(copy_worker_count(0), 1);
    assert_eq!(copy_worker_count(1), 1);
    assert_eq!(copy_worker_count(2), 2);
    assert_eq!(copy_worker_count(20), 4);
}

fn source(rel: &str, size: u64, mtime: i64, dst: Option<(u64, i64)>) -> SourceFile {
    SourceFile { rel_path: rel.to_string(), size, mtime, dst }
}

#[test]
fn a_pull_plan_leaves_raws_and_tifs_behind() {
    // What a walk of the source found, after the walk's own filter.
    let walked = ["a.exr", "sub/b.png", "raw.NEF", "scan.tif", "a.exr.partial"];
    let skip = skips_pull_excluded(Direction::Pull, PullFilterMode::AlwaysSkipRawAndTif, false);
    let kept: Vec<&str> = walked.iter().copied().filter(|n| is_planned(n, skip)).collect();
    assert_eq!(kept, vec!["a.exr", "sub/b.png"]);

    let files = vec![source("a.exr", 5, 100, None), source("sub/b.png", 5, 100, None)];
    let plan = assemble_plan(Direction::Pull, "P:/x", "C:/x", &files);
    assert!(plan.files.iter().all(|f| matches!(f.action, Action::New)));
    assert_eq!(plan.total_bytes_to_copy, 10);
    assert_eq!(plan.files[1].dst_abs, "C:/x/sub/b.png");
    assert_eq!(plan.files[1].src_abs, "P:/x/sub/b.png");
}

#[test]
fn a_push_plan_keeps_raws_and_tifs() {
    let skip = skips_pull_excluded(Direction::Push, PullFilterMode::AlwaysSkipRawAndTif, true);
    assert!(!skip);
    assert!(is_planned("raw.NEF", skip));
    assert!(is_planned("scan.tif", skip));
    assert!(!is_planned("a.exr.partial", skip));
    assert!(!skips_pull_excluded(Direction::Pull, PullFilterMode::NoFilter, true));
    assert!(skips_pull_excluded(
        Direction::Pull,
        PullFilterMode::SkipRawAndTifWhenWorkTifsExceed { threshold: 10 },
        true
    ));
    assert!(!skips_pull_excluded(
        Direction::Pull,
        PullFilterMode::SkipRawAndTifWhenWorkTifsExceed { threshold: 10 },
        false
    ));
}

#[test]
fn only_copied_files_count_towards_the_total_and_conflicts_are_listed() {
    let files = vec![
        source("new.bin", 12, 1_000, None),
        source("updated.bin", 12, 2_000, Some((12, 1_000))),
        source("conflict.bin", 12, 1_000, Some((12, 2_000))),
        source("same.bin", 12, 1_000, Some((12, 1_000))),
    ];
    let plan = assemble_plan(Direction::Pull, "src", "dst", &files);
    assert_eq!(plan.total_bytes_to_copy, 24);
    let conflicts = plan.conflicts();
    assert_eq!(conflicts.len(), 1);
    assert_eq!(conflicts[0].rel_path, "conflict.bin");

    // The plan's file list: unchanged files are left out, the rest say why they are there.
    let rows: Vec<(&str, &str)> = plan
        .files
        .iter()
        .filter_map(|f| display_reason(f.action).map(|r| (f.rel_path.as_str(), r)))
        .collect();
    assert_eq!(
        rows,
        vec![
            ("new.bin", "New file"),
            ("updated.bin", "File updated"),
            ("conflict.bin", "Conflict, destination newer"),
        ]
    );
}

#[test]
fn transfer_file_display_rows_filter_unchanged_files_and_color_reasons() {
    let file = |name: &str, action: Action| PlannedFile {
        rel_path: name.to_string(),
        src_abs: format!("src/{name}"),
        dst_abs: format!("dst/{name}"),
        size: 12,
        action,
    };
    let plan = Plan {
        direction: Direction::Pull,
        src_root: "src".into(),
        dst_root: "dst".into(),
        files: vec![
            file("new.bin", Action::New),
            file("updated.bin", Action::Overwrite),
            file("conflict.bin", Action::Conflict { dest_newer: true }),
            file("same.bin", Action::Identical),
        ],
        total_bytes_to_copy: 36,
    };

    let rows = transfer_file_rows(&plan);

    assert_eq!(rows.len(), 3);
    assert_eq!(rows[0], TransferFileRow { path: "new.bin".into(), reason: "New file", color: ReasonColor::StatusComplete });
    assert_eq!(rows[1], TransferFileRow { path: "updated.bin".into(), reason: "File updated", color: ReasonColor::MsgInfo });
    assert_eq!(rows[2], TransferFileRow { path: "conflict.bin".into(), reason: "Conflict, destination newer", color: ReasonColor::MsgError });
}
