use fluidsim::fixed::{seconds_to_fix, ONE};
use fluidsim::timer::{FpsCounter, Timer};

#[test]
fn timer_measures_elapsed_time() {
    let mut t = Timer::new();
    t.tick();
    let d = t.delta();
    // the monotonic clock cannot run backwards, and this test does not
    // take an hour
    assert!(d.as_secs() < 3600);
    let dt = seconds_to_fix(d.as_secs(), d.subsec_nanos());
    assert!(dt >= 0);
    assert!(dt < 3600 * ONE);
}

#[test]
fn fps_counts_recent_frames() {
    let mut c = FpsCounter::new();
    assert_eq!(c.fps(), 0);
    c.add_frame();
    c.add_frame();
    c.add_frame();
    // all three frames were recorded within the last second
    assert_eq!(c.fps(), 3);
}
