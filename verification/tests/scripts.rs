use phase::scripts::{format_duration, DialogState, ScriptAction, ScriptKind, ScriptRun, ScriptRunStatus};

#[test]
fn a_combined_action_runs_both_scripts_in_order() {
    assert_eq!(ScriptAction::NormalizeAndRender.kinds(), vec![ScriptKind::Normalize, ScriptKind::Render]);
    assert_eq!(ScriptAction::Render.kinds(), vec![ScriptKind::Render]);
}

#[test]
fn a_run_records_how_it_ended() {
    let run = ScriptRun::succeeded(ScriptKind::Render, "ok".into(), 10, 20);
    assert!(run.succeeded_flag());
    assert_eq!(run.status, ScriptRunStatus::Succeeded);
    let blocked = ScriptRun::blocked(ScriptKind::Normalize, "busy".into(), 5);
    assert!(!blocked.succeeded_flag());
    assert_eq!((blocked.started_at, blocked.finished_at), (5, 5));
    assert_eq!(DialogState::Succeeded(ScriptKind::Render, 3).kind(), ScriptKind::Render);
    assert_eq!(format_duration(0), "1s");
    assert_eq!(format_duration(125), "2m 5s");
}
