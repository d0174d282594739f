use phase::asset::{AssetType, RowKey};
use phase::script_queue::ScriptQueue;
use phase::scripts::{ScriptAction, ScriptKey, ScriptKind, ScriptRun, ScriptRunStatus};

fn row(slug: &str) -> RowKey {
    RowKey { asset_type: AssetType::Hdris, slug: slug.into() }
}

fn key(slug: &str, kind: ScriptKind) -> ScriptKey {
    ScriptKey { row: row(slug), kind }
}

const BOTH: [ScriptKind; 2] = [ScriptKind::Normalize, ScriptKind::Render];

#[test]
fn normalize_and_render_run_one_after_the_other() {
    let mut q = ScriptQueue::new();
    let started = q.enqueue_action(&row("sky"), ScriptAction::NormalizeAndRender, &BOTH).unwrap();
    assert_eq!(started, Some(key("sky", ScriptKind::Normalize)));
    assert_eq!(q.queue.len(), 1);
    assert_eq!(q.queue[0].depends_on, vec![key("sky", ScriptKind::Normalize)]);
    assert_eq!(q.running_kind_for_row(&row("sky")), Some(ScriptKind::Normalize));
    assert!(!q.is_queued_for_row(&row("sky")));

    let next = q.finish(ScriptRun::succeeded(ScriptKind::Normalize, "ok".into(), 0, 10), 10);
    assert_eq!(next, Some(key("sky", ScriptKind::Render)));
    assert_eq!(q.result_for(&key("sky", ScriptKind::Normalize)).unwrap().status, ScriptRunStatus::Succeeded);

    assert_eq!(q.finish(ScriptRun::succeeded(ScriptKind::Render, "ok".into(), 10, 30), 30), None);
    assert!(q.running.is_none());
    assert!(q.queue.is_empty());
    assert!(q.latest_alert_for_row(&row("sky")).is_none());
}

#[test]
fn a_failed_normalize_blocks_the_render_that_waits_for_it() {
    let mut q = ScriptQueue::new();
    q.enqueue_action(&row("sky"), ScriptAction::NormalizeAndRender, &BOTH).unwrap();
    let next = q.finish(ScriptRun::failed(ScriptKind::Normalize, "boom".into(), 0, 5), 5);
    assert_eq!(next, None);
    assert!(q.queue.is_empty());
    let render = q.result_for(&key("sky", ScriptKind::Render)).unwrap();
    assert_eq!(render.status, ScriptRunStatus::Blocked);
    assert_eq!(render.output, "Render blocked because Normalize failed");
    // Both ended at the same moment; the one recorded last is shown.
    let alert = q.latest_alert_for_row(&row("sky")).unwrap();
    assert_eq!(alert.kind, ScriptKind::Render);
    assert_eq!(alert.status, ScriptRunStatus::Blocked);
}

#[test]
fn only_one_script_runs_at_a_time() {
    let mut q = ScriptQueue::new();
    assert_eq!(
        q.enqueue_action(&row("a"), ScriptAction::Render, &BOTH).unwrap(),
        Some(key("a", ScriptKind::Render))
    );
    assert_eq!(q.enqueue_action(&row("b"), ScriptAction::Render, &BOTH).unwrap(), None);
    assert!(q.is_queued_for_row(&row("b")));
    assert_eq!(
        q.finish(ScriptRun::failed(ScriptKind::Render, String::new(), 0, 1), 1),
        Some(key("b", ScriptKind::Render))
    );
}

#[test]
fn asking_again_for_a_waiting_script_does_not_queue_it_twice() {
    let mut q = ScriptQueue::new();
    q.enqueue_action(&row("a"), ScriptAction::Normalize, &BOTH).unwrap();
    assert!(q.is_scheduled(&key("a", ScriptKind::Normalize)));
    q.enqueue_action(&row("a"), ScriptAction::NormalizeAndRender, &BOTH).unwrap();
    assert_eq!(q.queue.len(), 1);
    assert_eq!(q.queue[0].key, key("a", ScriptKind::Render));
    assert_eq!(q.queue[0].depends_on, vec![key("a", ScriptKind::Normalize)]);
}

#[test]
fn a_script_whose_program_is_missing_stops_the_request() {
    let mut q = ScriptQueue::new();
    let err = q
        .enqueue_action(&row("a"), ScriptAction::NormalizeAndRender, &[ScriptKind::Normalize])
        .unwrap_err();
    assert_eq!(err, ScriptKind::Render);
    // What was queued before the missing script stays queued, but nothing was started.
    assert_eq!(q.queue.len(), 1);
    assert!(q.running.is_none());
    assert_eq!(q.start_next_ready(), Some(key("a", ScriptKind::Normalize)));
}
