use latency_probe::pacing::PacingScheduler;
use latency_probe::pacing::DEFAULT_LAUNCH_INTERVAL_NANOS;

#[test]
fn a_fresh_scheduler_admits_an_immediate_launch() {
    let s = PacingScheduler::new(DEFAULT_LAUNCH_INTERVAL_NANOS);
    assert_eq!(s.wait_before_launch(0), 0);
    assert_eq!(s.wait_before_launch(123), 0);
}

#[test]
fn a_launch_closes_the_throttle_for_one_interval() {
    let mut s = PacingScheduler::new(50_000_000);
    s.record_launch(1_000);
    assert_eq!(s.wait_before_launch(1_000), 50_000_000);
    assert_eq!(s.wait_before_launch(25_001_000), 25_000_000);
    assert_eq!(s.wait_before_launch(50_000_999), 1);
    assert_eq!(s.wait_before_launch(50_001_000), 0);
    assert_eq!(s.wait_before_launch(60_001_000), 0);
}

#[test]
fn consecutive_launches_are_spaced_by_the_interval() {
    let interval = 50_000_000u64;
    let mut s = PacingScheduler::new(interval);
    let mut now = 0u64;
    let mut launches = Vec::new();
    for _ in 0..5 {
        now += s.wait_before_launch(now);
        s.record_launch(now);
        launches.push(now);
        now += 3; // a little work between launches
    }
    for pair in launches.windows(2) {
        assert!(pair[1] >= pair[0] + interval);
    }
    assert!(launches[4] - launches[0] >= 4 * interval);
}
