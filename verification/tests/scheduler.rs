use pq_tunnel_core::scheduler::{
    interval_from_rate_bps, CoverPolicy, CoverScheduler, DEFAULT_COVER_RATE_BPS,
};
use pq_tunnel_core::time::{Duration, Instant};

fn origin() -> Instant {
    Instant::from_origin(Duration::from_secs(1_000))
}

#[test]
fn default_is_fixed_enabled_two_mbps() {
    let p = CoverPolicy::default();
    assert!(p.enabled, "cover must default to enabled");
    assert_eq!(p.interval, interval_from_rate_bps(DEFAULT_COVER_RATE_BPS),);
    // 1280 B packet == 10_240 bits; 2 Mbps -> 5.12 ms exactly.
    assert_eq!(p.interval, Duration::from_nanos(5_120_000));
}

#[test]
fn interval_math_is_exact() {
    assert_eq!(
        interval_from_rate_bps(2_000_000),
        Duration::from_nanos(5_120_000)
    );
    assert_eq!(
        interval_from_rate_bps(1_000_000),
        Duration::from_nanos(10_240_000)
    );
}

#[test]
fn starts_unscheduled_and_primes_one_interval_out() {
    let now = origin();
    let interval = CoverPolicy::default().interval;
    let mut s = CoverScheduler::new(CoverPolicy::default());
    assert_eq!(s.next_deadline(), None, "not scheduled before start");
    s.start(now);
    s.start(now); // idempotent
    let d = s.next_deadline().unwrap();
    assert_eq!(d, now.plus(interval));
    // First deadline fires: emits, reschedules from now.
    assert!(s.on_deadline(now.plus(interval)));
    assert_eq!(s.next_deadline().unwrap(), now.plus(interval.saturating_mul(2)));
}

#[test]
fn emits_exactly_once_per_interval() {
    let sched_default = CoverPolicy::default();
    let interval = sched_default.interval;

    let now = origin();
    let mut s = CoverScheduler::new(sched_default);
    s.start(now);

    // Between deadlines: nothing.
    assert!(!s.on_deadline(now.plus(Duration::from_nanos(2_560_000))));
    // At the deadline: one emission.
    assert!(s.on_deadline(now.plus(interval)));
    assert_eq!(s.next_deadline().unwrap(), now.plus(interval.saturating_mul(2)));
    // Immediately after: nothing.
    assert!(!s.on_deadline(now.plus(interval).plus(Duration::from_nanos(1))));
}

#[test]
fn no_burst_accumulation_after_long_stall() {
    let sched_default = CoverPolicy::default();
    let interval = sched_default.interval;
    let now = origin();
    let mut s = CoverScheduler::new(sched_default);
    s.start(now);
    // A stalled driver wakes up 10 intervals late.
    let stalled = now.plus(interval.saturating_mul(10));
    // A single catch-up emission ...
    assert!(
        s.on_deadline(stalled),
        "a missed deadline must emit exactly once"
    );
    // ... then the schedule restarts from now, not from the old track:
    assert_eq!(s.next_deadline().unwrap(), stalled.plus(interval));
    // No further spurious bursts back-to-back.
    assert!(!s.on_deadline(stalled.plus(Duration::from_nanos(1))));
}

#[test]
fn disabled_policy_never_emits() {
    let p = CoverPolicy {
        enabled: false,
        interval: Duration::from_millis(1),
    };
    let now = origin();
    let mut s = CoverScheduler::new(p);
    s.start(now);
    assert_eq!(s.next_deadline(), None, "disabled never schedules");
    assert!(!s.on_deadline(now.plus(Duration::from_secs(3600))));
    assert_eq!(s.next_deadline(), None);
}

#[test]
fn stop_makes_the_arm_inert() {
    let now = origin();
    let mut s = CoverScheduler::new(CoverPolicy::default());
    s.start(now);
    s.stop();
    assert_eq!(s.next_deadline(), None);
    assert!(!s.on_deadline(now.plus(Duration::from_secs(1))));
}

#[test]
fn zero_rate_is_clamped_not_panicking() {
    // A 0 bps request clamps to 1 bps: enormous but well-defined interval.
    let d = interval_from_rate_bps(0);
    assert!(!d.is_zero());
}

#[test]
fn absurd_rate_is_clamped_to_nonzero_interval() {
    // The exact integer math saturates to 0 ns for huge rates; the 1 ns
    // floor keeps the driver's sleep_until from busy-looping.
    assert!(!interval_from_rate_bps(u64::MAX).is_zero());
    // Monotonicity: a higher rate never yields a longer interval
    // (quotients of positive integers are non-increasing in the rate).
    let pairs = [
        (1u64, 2u64),
        (2, 4),
        (1_000, 1_000_000),
        (1_000_000, 1_000_000_000),
        (1_000_000_000, u64::MAX),
        (u64::MAX / 2, u64::MAX),
    ];
    for (lo, hi) in pairs {
        assert!(
            interval_from_rate_bps(lo) >= interval_from_rate_bps(hi),
            "rate {lo} must not give a shorter interval than rate {hi}"
        );
    }
}

#[test]
fn rates_have_exact_intervals() {
    assert_eq!(interval_from_rate_bps(0), Duration::from_nanos(10_240_000_000_000));
    assert_eq!(interval_from_rate_bps(1), Duration::from_nanos(10_240_000_000_000));
    assert_eq!(interval_from_rate_bps(3), Duration::from_nanos(3_413_333_333_333));
    assert_eq!(interval_from_rate_bps(u64::MAX), Duration::from_nanos(1));
    let p = CoverPolicy { enabled: true, interval: Duration::from_millis(7) };
    assert_eq!(CoverScheduler::new(p).policy(), p);
}

#[test]
fn disabled_policy_needs_no_room_on_the_timeline() {
    let interval = Duration::from_parts(u64::MAX, 999_999_999);
    let mut s = CoverScheduler::new(CoverPolicy { enabled: false, interval });
    s.start(origin());
    assert!(s.next_deadline().is_none());
    assert!(!s.on_deadline(origin()));
}
