use phase::throughput::{SampleWindow, THROUGHPUT_SAMPLE_GAP_MS, THROUGHPUT_WINDOW_MS};

fn at_secs(tenths: u64) -> u64 {
    1_000_000 + tenths * 100
}

fn bytes_per_sec(w: &SampleWindow) -> Option<f64> {
    w.rate().map(|(bytes, ms)| bytes as f64 / (ms as f64 / 1000.0))
}

#[test]
fn no_estimate_is_offered_until_there_is_something_to_go_on() {
    let mut t = SampleWindow::new();
    assert_eq!(t.rate(), None);
    t.record(at_secs(0), 0);
    assert_eq!(t.rate(), None, "one sample is not a rate");
    // Still inside the minimum span.
    t.record(at_secs(10), 10_000_000);
    assert_eq!(t.rate(), None);
    // Past it.
    t.record(at_secs(50), 50_000_000);
    assert_eq!(t.rate(), Some((50_000_000, 5_000)));
}

#[test]
fn the_window_forgets_old_throughput() {
    let mut t = SampleWindow::new();
    // Fast for ten seconds...
    for step in 0..=20 {
        t.record(at_secs(step * 5), step * 10_000_000);
    }
    let fast = bytes_per_sec(&t).unwrap();
    // ...then a second card joins and halves our share, for well over the window.
    let slow_base = 200_000_000u64;
    for step in 1..=60 {
        t.record(at_secs(100 + step * 5), slow_base + step * 2_500_000);
    }
    let slow = bytes_per_sec(&t).unwrap();
    assert!(slow < fast / 1.5, "expected the rate to drop: {fast} -> {slow}");
    // Only the recent, slower rate should remain in the window.
    assert!((slow - 5_000_000.0).abs() < 300_000.0, "rate was {slow}");
}

#[test]
fn samples_are_thinned_so_the_window_cannot_grow_without_bound() {
    let mut t = SampleWindow::new();
    // Called every frame at 60fps for a minute.
    for frame in 0..3600u64 {
        t.record(1_000_000 + frame * 1000 / 60, frame * 100_000);
    }
    let most = (THROUGHPUT_WINDOW_MS / THROUGHPUT_SAMPLE_GAP_MS) as usize + 2;
    assert!(t.len() <= most, "kept {} samples, expected at most {most}", t.len());
}

#[test]
fn resetting_clears_the_history() {
    let mut t = SampleWindow::new();
    for step in 0..=20 {
        t.record(at_secs(step * 5), step * 5_000_000);
    }
    assert!(t.rate().is_some());
    t.reset();
    assert_eq!(t.rate(), None);
}

#[test]
fn a_clock_that_goes_backwards_is_ignored() {
    let mut t = SampleWindow::new();
    t.record(10_000, 0);
    t.record(9_000, 5);
    t.record(10_100, 5);
    assert_eq!(t.len(), 1);
}
