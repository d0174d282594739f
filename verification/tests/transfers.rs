use phase::asset::{AssetType, RowKey, TransferKind};
use phase::copy_job::JobMsg;
use phase::copy_plan::{Action, Direction, Plan, PlannedFile};
use phase::notion::{Asset, AssetStatus, StatusGroup};
use phase::transfers::{
    active_file_action_status, after_transfer, archive_delete_outcome, check_prod_before_delete,
    drain_job_messages, rename_asset_slug, route_plan, set_asset_status, transfer_toast, ActiveTransfer,
    FollowUp, PlanRoute,
};

fn planned(rel: &str, size: u64, action: Action) -> PlannedFile {
    PlannedFile {
        rel_path: rel.into(),
        src_abs: format!("S/{rel}"),
        dst_abs: format!("D/{rel}"),
        size,
        action,
    }
}

fn plan(files: Vec<PlannedFile>, total: u64) -> Plan {
    Plan {
        direction: Direction::Push,
        src_root: "S".into(),
        dst_root: "D".into(),
        files,
        total_bytes_to_copy: total,
    }
}

fn key(t: AssetType, slug: &str) -> RowKey {
    RowKey { asset_type: t, slug: slug.into() }
}

fn asset(slug: &str) -> Asset {
    Asset {
        page_id: format!("page-{slug}"),
        slug: slug.into(),
        author: String::new(),
        authors: Vec::new(),
        author_profiles: Vec::new(),
        url: String::new(),
        status: None,
    }
}

fn status(name: &str) -> AssetStatus {
    AssetStatus {
        id: name.into(),
        name: name.into(),
        color: "blue".into(),
        group: StatusGroup::InProgress,
        sort_order: 0,
    }
}

#[test]
fn an_archive_overwrites_its_conflicts_instead_of_asking() {
    let p = plan(
        vec![
            planned("a", 5, Action::New),
            planned("b", 7, Action::Conflict { dest_newer: true }),
            planned("c", 9, Action::Identical),
        ],
        5,
    );
    match route_plan(TransferKind::Archive, p) {
        PlanRoute::Copy(p) => {
            assert_eq!(p.files[1].action, Action::Overwrite);
            assert_eq!(p.files[0].action, Action::New);
            assert_eq!(p.files[2].action, Action::Identical);
            assert_eq!(p.total_bytes_to_copy, 12);
        }
        PlanRoute::AskAboutConflicts(_) => panic!("an archive never asks"),
    }
}

#[test]
fn a_push_with_a_conflict_goes_to_the_dialog() {
    let p = plan(vec![planned("b", 7, Action::Conflict { dest_newer: true })], 0);
    assert!(matches!(route_plan(TransferKind::Push, p), PlanRoute::AskAboutConflicts(_)));
    let p = plan(vec![planned("a", 5, Action::New)], 5);
    match route_plan(TransferKind::Pull, p) {
        PlanRoute::Copy(p) => assert_eq!(p.total_bytes_to_copy, 5),
        PlanRoute::AskAboutConflicts(_) => panic!("nothing to ask about"),
    }
}

#[test]
fn a_jobs_messages_add_up_to_its_ending() {
    let msgs = vec![
        JobMsg::FileDone { rel_path: "a".into() },
        JobMsg::FileFailed { rel_path: "b.exr".into(), error: "disk full".into() },
    ];
    let d = drain_job_messages("rock_01", &msgs);
    assert!(d.done);
    assert!(!d.succeeded);
    assert_eq!(d.error.as_deref(), Some("rock_01: b.exr \u{2014} disk full"));

    let d = drain_job_messages("rock_01", &vec![JobMsg::FileDone { rel_path: "a".into() }, JobMsg::Finished]);
    assert!(d.done && d.succeeded && d.error.is_none());

    let d = drain_job_messages("rock_01", &vec![JobMsg::FileDone { rel_path: "a".into() }]);
    assert!(!d.done && !d.succeeded);

    let d = drain_job_messages("rock_01", &vec![JobMsg::Cancelled]);
    assert!(d.done && !d.succeeded);
}

#[test]
fn what_follows_each_kind_of_transfer() {
    let none = FollowUp {
        refresh_prod_folder: false,
        refresh_local_folder: false,
        refresh_archive_folder: false,
        verify_push: false,
        delete_prod: false,
        toast: false,
    };
    assert_eq!(
        after_transfer(TransferKind::Push, true),
        FollowUp { refresh_prod_folder: true, verify_push: true, toast: true, ..none }
    );
    assert_eq!(
        after_transfer(TransferKind::Pull, true),
        FollowUp { refresh_prod_folder: true, refresh_local_folder: true, toast: true, ..none }
    );
    assert_eq!(
        after_transfer(TransferKind::Archive, true),
        FollowUp { refresh_archive_folder: true, delete_prod: true, ..none }
    );
    assert_eq!(
        after_transfer(TransferKind::Unarchive, true),
        FollowUp { refresh_prod_folder: true, refresh_archive_folder: true, toast: true, ..none }
    );
    assert_eq!(
        after_transfer(TransferKind::Archive, false),
        FollowUp { refresh_prod_folder: true, refresh_archive_folder: true, ..none }
    );
    assert_eq!(after_transfer(TransferKind::Push, false), none);
}

#[test]
fn toasts_say_what_was_done_and_how_long_it_took() {
    assert_eq!(transfer_toast(TransferKind::Push, 65), "Pushed to prod in 1m 5s");
    assert_eq!(transfer_toast(TransferKind::Pull, 0), "Pulled from prod in 1s");
    assert_eq!(archive_delete_outcome("rock_01", &Ok(()), 12), Ok("Archived in 12s".to_string()));
    assert_eq!(
        archive_delete_outcome("rock_01", &Err("access denied".into()), 12),
        Err("Archived rock_01 but could not delete all Prod files: access denied".to_string())
    );
}

#[test]
fn prod_is_deleted_only_when_everything_in_it_was_archived() {
    let verified = vec!["rock_01.blend".to_string(), "textures/rock_01_diff.exr".to_string()];
    let found = vec![
        "rock_01.blend".to_string(),
        "textures/rock_01_diff.exr".to_string(),
        "work/scan_01.TIF".to_string(),
        "work\\deep\\scan_02.tiff".to_string(),
        "textures/rock_01_nor.exr.partial".to_string(),
    ];
    assert!(check_prod_before_delete(&found, &verified).is_ok());

    let mut found = found;
    found.push("textures/rock_01_rough.exr".to_string());
    found.push("later.txt".to_string());
    assert_eq!(
        check_prod_before_delete(&found, &verified),
        Err("Prod gained an un-archived file since archiving started (textures/rock_01_rough.exr); Prod was NOT deleted"
            .to_string())
    );

    // A TIFF outside `work` was not left behind on purpose.
    let found = vec!["scan_01.tif".to_string()];
    assert!(check_prod_before_delete(&found, &verified).is_err());
}

#[test]
fn the_activity_line_names_the_first_transfer_then_verification_then_deletion() {
    let jobs = vec![
        ActiveTransfer { key: key(AssetType::Textures, "aaa"), kind: TransferKind::Push, current_file: None },
        ActiveTransfer {
            key: key(AssetType::Hdris, "zzz"),
            kind: TransferKind::Pull,
            current_file: Some("staging/zzz_4k.exr".into()),
        },
        ActiveTransfer { key: key(AssetType::Hdris, "mmm"), kind: TransferKind::Archive, current_file: Some(String::new()) },
    ];
    assert_eq!(active_file_action_status(&jobs, &Vec::new(), &Vec::new()).as_deref(), Some("Archiving HDRIs/mmm"));

    let verifications = vec![ActiveTransfer {
        key: key(AssetType::Textures, "rock"),
        kind: TransferKind::Push,
        current_file: Some("a/b/c/d.exr".into()),
    }];
    assert_eq!(
        active_file_action_status(&Vec::new(), &verifications, &Vec::new()).as_deref(),
        Some("Verifying ...b\\c\\d.exr")
    );
    let deletes = vec![key(AssetType::Textures, "b"), key(AssetType::Textures, "a")];
    assert_eq!(
        active_file_action_status(&Vec::new(), &Vec::new(), &deletes).as_deref(),
        Some("Removing Prod files Textures/a")
    );
    assert_eq!(active_file_action_status(&Vec::new(), &Vec::new(), &Vec::new()), None);
}

#[test]
fn a_rename_and_a_status_change_touch_only_their_row() {
    let mut assets = vec![asset("old"), asset("other")];
    rename_asset_slug(&mut assets, "old", "New Title");
    assert_eq!(assets[0].slug, "New Title");
    assert_eq!(assets[0].page_id, "page-old");
    assert_eq!(assets[1].slug, "other");
    rename_asset_slug(&mut assets, "missing", "x");
    assert_eq!(assets[0].slug, "New Title");

    let previous = set_asset_status(&mut assets, "other", Some(status("Review")));
    assert!(previous.is_none());
    assert_eq!(assets[1].status.as_ref().map(|s| s.name.as_str()), Some("Review"));
    let previous = set_asset_status(&mut assets, "other", None);
    assert_eq!(previous.map(|s| s.name), Some("Review".to_string()));
    assert!(set_asset_status(&mut assets, "missing", None).is_none());
}
