use gpbeam::progress::ProgressThrottle;

#[test]
fn emits_on_each_percent_step() {
    let mut t = ProgressThrottle::new(1000);
    assert!(t.should_emit(0), "first observation (0%) emits");
    assert!(!t.should_emit(5), "still 0%");
    assert!(t.should_emit(10), "1% -> emit");
    assert!(!t.should_emit(15), "still 1%");
    assert!(t.should_emit(20), "2% -> emit");
}

#[test]
fn always_emits_terminal_tick() {
    let mut t = ProgressThrottle::new(1000);
    assert!(t.should_emit(990), "99%");
    assert!(t.should_emit(1000), "reaching total emits (100%)");
    assert!(!t.should_emit(1000), "100% only emits once");
    assert!(!t.should_emit(1001), "overshoot does not re-emit");
}

#[test]
fn zero_total_emits_once() {
    let mut t = ProgressThrottle::new(0);
    assert!(t.should_emit(0), "unknown/empty size emits on first call");
    assert!(!t.should_emit(0), "no repeat");
}

#[test]
fn caps_emissions_to_about_one_hundred() {
    let mut t = ProgressThrottle::new(10_000_000);
    let mut emits = 0;
    for i in (0..=10_000_000u64).step_by(1000) {
        if t.should_emit(i) {
            emits += 1;
        }
    }
    assert!((99..=101).contains(&emits), "got {emits}");
}

#[test]
fn the_percent_of_a_huge_file_advances() {
    let mut t = ProgressThrottle::new(u64::MAX);
    assert!(t.should_emit(u64::MAX / 4), "24%");
    assert!(!t.should_emit(u64::MAX / 4), "still 24%");
    assert!(t.should_emit(u64::MAX / 2), "49%");
    assert!(t.should_emit(u64::MAX), "100%");
}
