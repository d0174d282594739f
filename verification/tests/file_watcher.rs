use std::time::Duration;

use phase::asset::{AssetType, RowKey};
use phase::file_watcher::{
    is_due, prod_watch_paths, record_event, record_watch_event, take_due, watch_tick, ErrorRowFolder, WatchMode,
    WatchSource,
};

fn ms(d: Duration) -> u64 {
    d.as_millis() as u64
}

#[test]
fn mode_thresholds_follow_activity_schedule() {
    assert_eq!(WatchMode::for_inactivity(ms(Duration::from_secs(0))), WatchMode::RealTime);
    assert_eq!(WatchMode::for_inactivity(ms(Duration::from_secs(119))), WatchMode::RealTime);
    assert_eq!(WatchMode::for_inactivity(ms(Duration::from_secs(120))), WatchMode::Poll30s);
    assert_eq!(WatchMode::for_inactivity(ms(Duration::from_secs(599))), WatchMode::Poll30s);
    assert_eq!(WatchMode::for_inactivity(ms(Duration::from_secs(600))), WatchMode::Poll2min);
    assert_eq!(WatchMode::for_inactivity(ms(Duration::from_secs(1799))), WatchMode::Poll2min);
    assert_eq!(WatchMode::for_inactivity(ms(Duration::from_secs(1800))), WatchMode::Idle);
}

#[test]
fn poll_interval_only_in_polling_modes() {
    assert_eq!(WatchMode::RealTime.poll_interval(), None);
    assert_eq!(WatchMode::Poll30s.poll_interval(), Some(ms(Duration::from_secs(30))));
    assert_eq!(WatchMode::Poll2min.poll_interval(), Some(ms(Duration::from_secs(120))));
    assert_eq!(WatchMode::Idle.poll_interval(), None);
    assert!(WatchMode::RealTime.is_real_time());
    assert!(!WatchMode::Poll30s.is_real_time());
}

#[test]
fn boundary_counts_down_to_next_threshold_then_stops() {
    assert_eq!(
        WatchMode::boundary_after(ms(Duration::from_secs(0))),
        Some(ms(Duration::from_secs(120)))
    );
    assert_eq!(
        WatchMode::boundary_after(ms(Duration::from_secs(100))),
        Some(ms(Duration::from_secs(20)))
    );
    assert_eq!(
        WatchMode::boundary_after(ms(Duration::from_secs(300))),
        Some(ms(Duration::from_secs(300)))
    );
    assert_eq!(WatchMode::boundary_after(ms(Duration::from_secs(1800))), None);
    assert_eq!(WatchMode::boundary_after(ms(Duration::from_secs(5000))), None);
}

#[test]
fn a_stream_of_events_is_revalidated_by_the_hard_deadline() {
    let mut pending = record_event(None, WatchSource::Prod, 0);
    assert!(!is_due(&pending, 1_000));
    assert!(is_due(&pending, 1_500));
    // An event every second keeps moving the debounce deadline on...
    for t in (1_000..8_000).step_by(1_000) {
        pending = record_event(Some(pending), WatchSource::Local, t);
        assert!(!is_due(&pending, t + 999));
    }
    // ...but never past the hard deadline fixed by the first.
    assert!(is_due(&pending, 8_000));
    assert!(pending.update_local && pending.update_prod);
}

fn row(slug: &str) -> RowKey {
    RowKey { asset_type: AssetType::Textures, slug: slug.into() }
}

#[test]
fn events_for_a_row_share_one_entry_and_due_rows_are_taken_out() {
    let mut pending = Vec::new();
    record_watch_event(&mut pending, row("a"), WatchSource::Local, 1_000);
    record_watch_event(&mut pending, row("b"), WatchSource::Prod, 1_200);
    record_watch_event(&mut pending, row("a"), WatchSource::Prod, 2_000);
    assert_eq!(pending.len(), 2);
    assert_eq!(pending[0].1.deadline, 3_500);
    assert_eq!(pending[0].1.hard_deadline, 9_000);
    assert!(pending[0].1.update_local && pending[0].1.update_prod);

    let due = take_due(&mut pending, 2_800);
    assert_eq!(due.len(), 1);
    assert_eq!(due[0].0.slug, "b");
    assert_eq!(pending.len(), 1);
    assert_eq!(pending[0].0.slug, "a");
    assert!(take_due(&mut pending, 3_400).is_empty());
    assert_eq!(take_due(&mut pending, 3_500).len(), 1);
    assert!(pending.is_empty());
}

#[test]
fn polling_starts_an_interval_after_the_mode_changes() {
    let t = watch_tick(WatchMode::RealTime, WatchMode::Poll30s, 0, 100_000);
    assert!(t.mode_changed);
    assert!(!t.poll_now);
    assert_eq!(t.next_poll_at, 130_000);

    let t = watch_tick(WatchMode::Poll30s, WatchMode::Poll30s, 130_000, 130_000);
    assert!(!t.mode_changed);
    assert!(t.poll_now);
    assert_eq!(t.next_poll_at, 160_000);

    let t = watch_tick(WatchMode::Poll30s, WatchMode::Idle, 160_000, 170_000);
    assert!(t.mode_changed);
    assert!(!t.poll_now);
}

#[test]
fn real_time_watches_type_roots_and_rows_with_errors() {
    let roots = vec!["P:/Textures".to_string()];
    let rows = vec![
        ErrorRowFolder {
            slug_folder: "P:/Textures/rock".into(),
            staging_folder: "P:/Textures/rock/staging".into(),
            staging_exists: true,
        },
        ErrorRowFolder {
            slug_folder: "P:/Textures/sand".into(),
            staging_folder: "P:/Textures/sand/staging".into(),
            staging_exists: false,
        },
    ];
    let paths: Vec<(String, bool)> =
        prod_watch_paths(true, &roots, &rows).into_iter().map(|w| (w.path, w.recursive)).collect();
    assert_eq!(
        paths,
        vec![
            ("P:/Textures".to_string(), false),
            ("P:/Textures/rock".to_string(), false),
            ("P:/Textures/rock/staging".to_string(), true),
            ("P:/Textures/sand".to_string(), false),
        ]
    );
    assert!(prod_watch_paths(false, &roots, &rows).is_empty());
}
