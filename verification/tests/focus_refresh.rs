use phase::focus_refresh::State;

#[test]
fn refreshes_once_on_startup_and_again_after_refocus() {
    let mut state = State::default();
    let t0: u64 = 1_000_000;

    assert!(!state.update(true, t0));
    assert!(!state.update(true, t0 + 199));
    assert!(state.update(true, t0 + 200));
    assert!(!state.update(true, t0 + 250));
    assert!(!state.update(false, t0 + 260));
    assert!(!state.update(true, t0 + 261));
    assert!(state.update(true, t0 + 461));
}

#[test]
fn a_clock_that_reads_backwards_does_not_refresh() {
    let mut state = State::new();
    assert!(!state.update(true, 500));
    assert!(!state.update(true, 100));
    assert!(state.update(true, 700));
}
