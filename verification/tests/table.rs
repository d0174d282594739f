use phase::asset::{ActionPreview, AssetType, RowKey};
use phase::copy_plan::Direction;
use phase::notion::{Asset, AssetList, AssetStatus, StatusGroup, StatusOption};
use phase::polyhaven::PublishedAssets;
use phase::table::{
    action_label, asset_is_complete, queue_revalidation, asset_matches_filters, visible_asset_keys, author_matches_filter, fmt_action_preview,
    notion_app_url, row_action_availability, should_warn_published_slug, sort_rows,
    status_matches_filter, status_order, visible_row_messages, row_messages, MsgKind, RowAction, RowMsg,
    RowMsgAction, RowView,
};

fn row(slug: &str, status: Option<AssetStatus>) -> RowView {
    RowView {
        asset_type: AssetType::Hdris,
        slug: slug.into(),
        author: String::new(),
        url: String::new(),
        page_id: String::new(),
        status,
        exists_on_prod: true,
        messages: Vec::new(),
    }
}

fn status(id: &str, name: &str) -> AssetStatus {
    AssetStatus {
        id: id.into(),
        name: name.into(),
        color: "default".into(),
        group: StatusGroup::InProgress,
        sort_order: 10,
    }
}

#[test]
fn author_filter_matches_any_person_in_multi_author_combination() {
    assert!(author_matches_filter("Alice, Bob", &["Alice".to_string()]));
    assert!(author_matches_filter("Alice, Bob", &["Bob".to_string()]));
    assert!(!author_matches_filter("Alice, Bob", &["Carol".to_string()]));
}

#[test]
fn status_filter_matches_selected_status_groups() {
    let status = Some(AssetStatus {
        id: "a".into(),
        name: "Creative review".into(),
        color: "blue".into(),
        group: StatusGroup::InProgress,
        sort_order: 20,
    });

    assert!(status_matches_filter(&status, &[StatusGroup::InProgress]));
    assert!(!status_matches_filter(&status, &[StatusGroup::Complete]));
    assert!(!status_matches_filter(&None, &[StatusGroup::InProgress]));
}

#[test]
fn published_slug_warning_only_shows_for_non_complete_statuses() {
    let published = PublishedAssets {
        slugs: vec!["known_slug".to_string()],
    };
    let in_progress = Some(AssetStatus {
        id: "a".into(),
        name: "Creative review".into(),
        color: "blue".into(),
        group: StatusGroup::InProgress,
        sort_order: 10,
    });
    let complete = Some(AssetStatus {
        id: "b".into(),
        name: "Done".into(),
        color: "green".into(),
        group: StatusGroup::Complete,
        sort_order: 20,
    });

    assert!(should_warn_published_slug(&published, "known_slug", &in_progress));
    assert!(!should_warn_published_slug(&published, "known_slug", &complete));
    assert!(!should_warn_published_slug(&published, "other_slug", &in_progress));
}

#[test]
fn rows_sort_by_status_sort_order_then_slug_case_insensitive() {
    let status_options = vec![
        StatusOption {
            id: "creative-review".into(),
            name: "Creative review".into(),
            color: "blue".into(),
            group: StatusGroup::InProgress,
            sort_order: 20,
        },
        StatusOption {
            id: "awaiting-payment".into(),
            name: "Awaiting payment".into(),
            color: "yellow".into(),
            group: StatusGroup::InProgress,
            sort_order: 10,
        },
    ];
    let mut rows = vec![
        row("zebra", Some(status("awaiting-payment", "Awaiting payment"))),
        row("Beta", Some(status("creative-review", "Creative review"))),
        row("alpha", Some(status("creative-review", "Creative review"))),
        row("missing", None),
    ];

    sort_rows(&mut rows, &status_options);

    assert_eq!(
        rows.iter().map(|row| row.slug.as_str()).collect::<Vec<_>>(),
        vec!["zebra", "alpha", "Beta", "missing"]
    );
}

#[test]
fn a_status_missing_from_the_options_sorts_by_its_own_order() {
    let own = Some(status("gone", "Gone"));
    assert_eq!(status_order(&own, &[]), 10);
    assert_eq!(status_order(&None, &[]), usize::MAX);
}

#[test]
fn push_action_is_disabled_when_local_folder_is_missing() {
    let availability = row_action_availability(RowAction::Push, true, false, None);

    assert!(!availability.enabled);
    assert_eq!(availability.tooltip, "Local folder missing");
}

#[test]
fn push_action_is_enabled_when_local_folder_exists() {
    let availability = row_action_availability(RowAction::Push, true, true, None);

    assert!(availability.enabled);
    assert_eq!(availability.tooltip, "Push to Prod");
}

#[test]
fn pull_action_still_depends_on_prod_folder() {
    let availability = row_action_availability(RowAction::Pull, false, false, None);

    assert!(!availability.enabled);
    assert_eq!(availability.tooltip, "No prod folder");
}

#[test]
fn push_is_disabled_when_preview_has_no_files() {
    let preview = Some(ActionPreview {
        file_count: 0,
        bytes: 0,
    });
    let availability = row_action_availability(RowAction::Push, true, true, preview);

    assert!(!availability.enabled);
    assert_eq!(availability.tooltip, "Nothing new to push");
}

#[test]
fn pull_is_disabled_when_preview_has_no_files() {
    let preview = Some(ActionPreview {
        file_count: 0,
        bytes: 0,
    });
    let availability = row_action_availability(RowAction::Pull, true, true, preview);

    assert!(!availability.enabled);
    assert_eq!(availability.tooltip, "Nothing new to pull");
}

#[test]
fn push_is_enabled_when_preview_has_files() {
    let preview = Some(ActionPreview {
        file_count: 3,
        bytes: 1024,
    });
    let availability = row_action_availability(RowAction::Push, true, true, preview);

    assert!(availability.enabled);
}

#[test]
fn dismissed_messages_are_filtered_out() {
    let messages = vec![
        RowMsg {
            kind: MsgKind::Warning,
            text: "Missing /staging/colorchart.zip in Prod".into(),
            link: None,
            action: None,
            dismiss_key: Some("HDRIs/sunny_field:missing-colorchart-zip".into()),
        },
        RowMsg {
            kind: MsgKind::Info,
            text: "Local files newer than Prod. Push?".into(),
            link: None,
            action: None,
            dismiss_key: None,
        },
    ];
    let dismissed = vec!["HDRIs/sunny_field:missing-colorchart-zip".to_string()];

    let visible = visible_row_messages(&messages, &dismissed);

    assert_eq!(visible.len(), 1);
    assert_eq!(visible[0].text, "Local files newer than Prod. Push?");
}

#[test]
fn all_errors_remain_visible_while_non_errors_are_hidden() {
    let messages = vec![
        RowMsg {
            kind: MsgKind::Warning,
            text: "Published asset with this slug found".into(),
            link: None,
            action: None,
            dismiss_key: None,
        },
        RowMsg {
            kind: MsgKind::Error,
            text: "Unexpected root entries: renders".into(),
            link: None,
            action: None,
            dismiss_key: None,
        },
        RowMsg {
            kind: MsgKind::Error,
            text: "Missing /staging/sunny_field.exr in Prod".into(),
            link: None,
            action: None,
            dismiss_key: None,
        },
        RowMsg {
            kind: MsgKind::Warning,
            text: "Missing /staging/colorchart.zip in Prod".into(),
            link: None,
            action: None,
            dismiss_key: Some("HDRIs/sunny_field:missing-colorchart-zip".into()),
        },
    ];

    let visible = visible_row_messages(&messages, &[]);

    assert_eq!(visible.len(), 2);
    assert!(visible.iter().all(|msg| matches!(msg.kind, MsgKind::Error)));
    assert_eq!(visible[0].text, "Unexpected root entries: renders");
    assert_eq!(visible[1].text, "Missing /staging/sunny_field.exr in Prod");
}

#[test]
fn filters_combine_author_and_status() {
    let asset = Asset {
        page_id: "p".into(),
        slug: "s".into(),
        author: "Alice, Bob".into(),
        authors: vec!["Alice".into(), "Bob".into()],
        author_profiles: Vec::new(),
        url: String::new(),
        status: Some(status("x", "X")),
    };
    assert!(asset_matches_filters(&asset, &["Bob".into()], &[StatusGroup::InProgress]));
    assert!(!asset_matches_filters(&asset, &["Bob".into()], &[StatusGroup::ToDo]));
    assert!(!asset_matches_filters(&asset, &["Carol".into()], &[StatusGroup::InProgress]));
}

#[test]
fn row_texts_read_as_the_interface_shows_them() {
    assert_eq!(action_label(&RowMsgAction::CreateProdFolder), "Create?");
    assert_eq!(action_label(&RowMsgAction::RenameTitle("a_b".into())), "Rename to a_b");
    assert_eq!(
        notion_app_url("https://www.notion.so/page"),
        "notion://www.notion.so/page"
    );
    assert_eq!(notion_app_url("notion://x"), "notion://x");
    let preview = ActionPreview { file_count: 3, bytes: 1024 };
    assert_eq!(fmt_action_preview(Direction::Push, preview, "1 KB"), "Push 3 files · 1 KB");
    let one = ActionPreview { file_count: 1, bytes: 10 };
    assert_eq!(fmt_action_preview(Direction::Pull, one, "10 B"), "Pull 1 file · 10 B");
}

fn listed(slug: &str, author: &str, group: StatusGroup) -> Asset {
    Asset {
        page_id: slug.into(),
        slug: slug.into(),
        author: author.into(),
        authors: Vec::new(),
        author_profiles: Vec::new(),
        url: String::new(),
        status: Some(AssetStatus {
            id: format!("{slug}-status"),
            name: group.label().into(),
            color: "default".into(),
            group,
            sort_order: 0,
        }),
    }
}

#[test]
fn visible_validation_keys_follow_asset_type_author_and_status_filters() {
    let lists = vec![
        (
            AssetType::Hdris,
            AssetList {
                assets: vec![
                    listed("visible_hdri", "Alice", StatusGroup::InProgress),
                    listed("wrong_author", "Bob", StatusGroup::InProgress),
                    listed("wrong_status", "Alice", StatusGroup::Complete),
                ],
                statuses: Vec::new(),
            },
        ),
        (
            AssetType::Textures,
            AssetList {
                assets: vec![listed("hidden_texture", "Alice", StatusGroup::InProgress)],
                statuses: Vec::new(),
            },
        ),
    ];

    let keys = visible_asset_keys(&[AssetType::Hdris], &lists, &["Alice".into()], &[StatusGroup::InProgress], "");

    assert_eq!(
        keys,
        vec![RowKey {
            asset_type: AssetType::Hdris,
            slug: "visible_hdri".into()
        }]
    );
}

#[test]
fn the_search_narrows_the_visible_rows_and_completion_is_looked_up_by_slug() {
    let lists = vec![(
        AssetType::Textures,
        AssetList {
            assets: vec![
                listed("forest_floor", "Alice", StatusGroup::Complete),
                listed("beach_sand", "Alice", StatusGroup::Complete),
            ],
            statuses: Vec::new(),
        },
    )];
    let keys = visible_asset_keys(
        &[AssetType::Hdris, AssetType::Textures],
        &lists,
        &[],
        &[StatusGroup::Complete],
        "FOREST",
    );
    assert_eq!(keys, vec![RowKey { asset_type: AssetType::Textures, slug: "forest_floor".into() }]);
    let key = RowKey { asset_type: AssetType::Textures, slug: "beach_sand".into() };
    assert!(asset_is_complete(&lists, &key));
    assert!(!asset_is_complete(&lists, &RowKey { asset_type: AssetType::Hdris, slug: "beach_sand".into() }));
}

#[test]
fn queue_revalidation_coalesces_while_a_job_is_running() {
    let key_a = RowKey { asset_type: AssetType::Hdris, slug: "a".into() };
    let key_b = RowKey { asset_type: AssetType::Hdris, slug: "b".into() };
    let mut pending = Vec::new();

    // A validation is in flight, so the queue must defer.
    assert!(queue_revalidation(&mut pending, vec![key_a.clone()], true).is_empty());
    assert!(queue_revalidation(&mut pending, vec![key_b.clone(), key_a.clone()], true).is_empty());

    // Nothing started a new job; both keys are queued, once each, for when it finishes.
    assert!(pending.contains(&key_a));
    assert!(pending.contains(&key_b));
    assert_eq!(pending.len(), 2);

    // Once nothing runs, everything waiting starts together.
    let started = queue_revalidation(&mut pending, vec![key_a.clone()], false);
    assert_eq!(started.len(), 2);
    assert!(started.contains(&key_a) && started.contains(&key_b));
    assert!(pending.is_empty());
    assert!(queue_revalidation(&mut pending, Vec::new(), false).is_empty());
}

#[test]
fn a_rows_messages_come_in_a_fixed_order() {
    let published = PublishedAssets { slugs: vec!["rock_01".to_string()] };
    let finding = RowMsg {
        kind: MsgKind::Warning,
        text: "Missing preview".into(),
        link: None,
        action: None,
        dismiss_key: Some("rock_01:preview".into()),
    };
    let msgs = row_messages("rock_01", "", false, true, &None, &published, true, &vec![finding], &Vec::new());
    let texts: Vec<&str> = msgs.iter().map(|m| m.text.as_str()).collect();
    assert_eq!(texts, vec!["No prod folder.", "Published asset with this slug found", "Passed review;", "Missing preview"]);
    assert_eq!(msgs[1].link.as_deref(), Some("https://polyhaven.com/a/rock_01"));
    assert!(matches!(msgs[0].action, Some(RowMsgAction::CreateProdFolder)));
    assert!(matches!(msgs[2].action, Some(RowMsgAction::DeleteLocalFiles)));

    // A dismissed finding is hidden.
    let finding = RowMsg {
        kind: MsgKind::Warning,
        text: "Missing preview".into(),
        link: None,
        action: None,
        dismiss_key: Some("rock_01:preview".into()),
    };
    let msgs = row_messages("rock_01", "", true, false, &None, &PublishedAssets { slugs: Vec::new() }, false, &vec![finding], &vec!["rock_01:preview".to_string()]);
    assert!(msgs.is_empty());

    // An invalid slug is an error, offering its repair as the new title, and hides the rest.
    let msgs = row_messages("Bad-Slug", "bad_slug", false, false, &None, &published, false, &Vec::new(), &Vec::new());
    assert_eq!(msgs.len(), 1);
    assert_eq!(msgs[0].kind, MsgKind::Error);
    assert_eq!(msgs[0].text, "Invalid slug: B - S \u{b7}");
    assert!(matches!(&msgs[0].action, Some(RowMsgAction::RenameTitle(t)) if t == "bad_slug"));
    let msgs = row_messages("Bad-Slug", "", true, false, &None, &published, false, &Vec::new(), &Vec::new());
    assert_eq!(msgs[0].text, "Invalid slug: B - S");
    assert!(msgs[0].action.is_none());
}
