use std::time::Duration;

use phase::asset::{AssetType, RowKey, TransferKind};
use phase::copy_plan::Direction;
use phase::file_watcher::WatchSource;
use phase::status_text::{
    abbreviate_status_path, fmt_duration, fmt_eta, format_active_file_action,
    format_active_transfer_action, key_for_path, latest_update_tag_for_install,
    should_check_for_update, should_force_update_check, slug_matches_search, slug_under_root,
    transfer_toast_text, UpdateInfo, clear_expired_version_notice, version_notice,
};

fn eta(d: Duration) -> String {
    fmt_eta(d.as_secs())
}

#[test]
fn remaining_time_reads_naturally_at_every_scale() {
    assert_eq!(eta(Duration::from_secs(0)), "ETL 5 seconds");
    assert_eq!(eta(Duration::from_secs(4)), "ETL 5 seconds");
    assert_eq!(eta(Duration::from_secs(28)), "ETL 30 seconds");
    assert_eq!(eta(Duration::from_secs(52)), "ETL 50 seconds");
    assert_eq!(eta(Duration::from_secs(59)), "ETL 60 seconds");
    assert_eq!(eta(Duration::from_secs(60)), "ETL 1 minute");
    assert_eq!(eta(Duration::from_secs(90)), "ETL 2 minutes");
    assert_eq!(eta(Duration::from_secs(120)), "ETL 2 minutes");
    assert_eq!(eta(Duration::from_secs(35 * 60)), "ETL 35 minutes");
    assert_eq!(eta(Duration::from_secs(3600)), "ETL 1 hour");
    assert_eq!(eta(Duration::from_secs(3600 + 20 * 60)), "ETL 1 hour 20 min");
    assert_eq!(eta(Duration::from_secs(2 * 3600 + 60)), "ETL 2 hours 1 min");
    // Minute rounding must carry into the hour rather than printing "60 min".
    assert_eq!(eta(Duration::from_secs(3600 + 59 * 60 + 45)), "ETL 2 hours");
    // Absurd inputs must still format rather than panic.
    assert!(eta(Duration::from_secs(u32::MAX as u64)).starts_with("ETL "));
    assert!(fmt_eta(u64::MAX).starts_with("ETL "));
}

#[test]
fn a_well_measured_minute_is_not_reported_as_two() {
    // Calibrated against the real card: at t=16s the estimator computed ~61s remaining
    // and ~60s really did remain. Ceiling-rounding called that "2 minutes".
    assert_eq!(eta(Duration::from_secs(61)), "ETL 1 minute");
    assert_eq!(eta(Duration::from_secs(89)), "ETL 1 minute");
}

#[test]
fn the_estimate_never_counts_down_in_distracting_jumps() {
    // Seconds ticking away inside a minute must not change the rendered text.
    assert_eq!(
        eta(Duration::from_secs(5 * 60 + 1)),
        eta(Duration::from_secs(5 * 60 + 25))
    );
    // Nor should sub-second jitter move a sub-minute estimate.
    assert_eq!(
        eta(Duration::from_secs_f64(30.1)),
        eta(Duration::from_secs_f64(30.9))
    );
}

#[test]
fn update_check_runs_only_once_per_day() {
    assert!(should_check_for_update(None, 42));
    assert!(should_check_for_update(Some(41), 42));
    assert!(!should_check_for_update(Some(42), 42));
}

#[test]
fn force_update_check_bypasses_the_daily_gate() {
    assert!(!should_force_update_check(false, Some(42), 42));
    assert!(should_force_update_check(true, Some(42), 42));
}

#[test]
fn an_install_needs_a_newer_release() {
    assert_eq!(
        latest_update_tag_for_install(Ok(Some(UpdateInfo { tag: "v1.9.0".into() }))),
        Ok("v1.9.0".to_string())
    );
    assert_eq!(
        latest_update_tag_for_install(Ok(None)),
        Err("No newer update found".to_string())
    );
    assert_eq!(
        latest_update_tag_for_install(Err("offline".into())),
        Err("offline".to_string())
    );
}

#[test]
fn active_file_action_status_includes_direction_asset_and_file() {
    let key = RowKey {
        asset_type: AssetType::Hdris,
        slug: "foo".into(),
    };

    assert_eq!(
        format_active_file_action(&key, Direction::Pull, Some("bar.xyz")),
        "Downloading bar.xyz from Prod"
    );
    assert_eq!(
        format_active_file_action(&key, Direction::Push, Some("bar.xyz")),
        "Uploading bar.xyz to Prod"
    );
}

#[test]
fn active_file_action_abbreviates_paths_to_two_parents_with_windows_separators() {
    let key = RowKey {
        asset_type: AssetType::Textures,
        slug: "foo".into(),
    };

    assert_eq!(
        format_active_file_action(&key, Direction::Pull, Some("staging/textures/foobar.exr")),
        "Downloading staging\\textures\\foobar.exr from Prod"
    );
    assert_eq!(
        format_active_file_action(&key, Direction::Pull, Some("staging/textures/foo/bar.exr")),
        "Downloading ...textures\\foo\\bar.exr from Prod"
    );
}

#[test]
fn status_paths_keep_the_file_and_two_parents() {
    assert_eq!(abbreviate_status_path("a.exr"), "a.exr");
    assert_eq!(abbreviate_status_path(r"x\y\z\w\a.exr"), "...z\\w\\a.exr");
}

#[test]
fn archive_transfers_name_their_own_verbs() {
    let key = RowKey {
        asset_type: AssetType::Hdris,
        slug: "chair".into(),
    };
    let archived = format_active_transfer_action(&key, TransferKind::Archive, Some("a.blend"));
    assert!(archived.contains("a.blend"));
    assert_ne!(
        archived,
        format_active_transfer_action(&key, TransferKind::Push, Some("a.blend"))
    );
}

#[test]
fn key_for_path_maps_prod_and_local_paths_case_insensitively() {
    let types = [AssetType::Hdris, AssetType::Textures];
    let key = |path: &str, source: WatchSource| key_for_path("C:\\PHASE", "P:\\Assets", &types, path, source);

    assert_eq!(
        key("P:\\Assets\\HDRIs\\beach_tide_pools\\staging\\x.exr", WatchSource::Prod),
        Some(RowKey {
            asset_type: AssetType::Hdris,
            slug: "beach_tide_pools".into(),
        })
    );

    // Case-insensitive drive/folder matching (Windows paths vary in casing).
    assert_eq!(
        key("c:\\phase\\Textures\\forest_floor\\work", WatchSource::Local),
        Some(RowKey {
            asset_type: AssetType::Textures,
            slug: "forest_floor".into(),
        })
    );

    // A path outside the watched roots maps to nothing.
    assert_eq!(key("D:\\Other\\HDRIs\\foo", WatchSource::Prod), None);
    // The type root itself (no slug component) maps to nothing.
    assert_eq!(key("P:\\Assets\\HDRIs", WatchSource::Prod), None);
}

#[test]
fn a_slug_is_the_first_component_under_a_root() {
    assert_eq!(slug_under_root("P:\\Assets\\HDRIs", "p:\\assets\\hdris\\sky\\x.exr"), Some("sky".to_string()));
    assert_eq!(slug_under_root("P:\\Assets\\HDRIs", "P:\\Assets\\Models\\sky"), None);
}

#[test]
fn search_matches_every_word_anywhere_in_the_slug() {
    assert!(slug_matches_search("beach_tide_pools", ""));
    assert!(slug_matches_search("beach_tide_pools", "TIDE beach"));
    assert!(!slug_matches_search("beach_tide_pools", "tide forest"));
}

#[test]
fn durations_read_in_the_largest_sensible_unit() {
    assert_eq!(fmt_duration(5), "5s");
    assert_eq!(fmt_duration(65), "1m 5s");
    assert!(transfer_toast_text(TransferKind::Push, 65).contains("1m 5s"));
}

#[test]
fn version_notice_expires_after_ten_seconds() {
    let now: u64 = 5_000_000;
    let mut notice = Some(version_notice("You already have the latest version".into(), now));

    clear_expired_version_notice(&mut notice, now + 9_000);
    assert!(notice.is_some());

    clear_expired_version_notice(&mut notice, now + 10_000);
    assert!(notice.is_none());
}
