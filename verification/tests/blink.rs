//! The blink timer. Times are milliseconds.
use fluor::widgets::BlinkTimer;

#[test]
fn new_is_stopped() {
    let t = BlinkTimer::new();
    assert!(t.next_tick().is_none());
}

#[test]
fn poll_returns_false_when_stopped() {
    let mut t = BlinkTimer::new();
    assert!(!t.poll(1_000_000));
}

#[test]
fn start_schedules_within_300ms() {
    let mut t = BlinkTimer::new();
    let now = 1_000_000;
    t.start(now);
    let scheduled = t.next_tick().unwrap();
    let delta = scheduled - now;
    assert!(delta <= 300);
}

#[test]
fn poll_fires_at_or_past_scheduled() {
    let mut t = BlinkTimer::new();
    let now = 1_000_000;
    t.start(now);
    let scheduled = t.next_tick().unwrap();
    // Just before the scheduled instant: no fire.
    assert!(!t.poll(scheduled - 1));
    // At the scheduled instant: fires + reschedules.
    assert!(t.poll(scheduled));
    // After firing, next_tick is updated to a fresh future time.
    let new_scheduled = t.next_tick().unwrap();
    assert!(new_scheduled >= scheduled);
}

#[test]
fn stop_clears_schedule() {
    let mut t = BlinkTimer::new();
    t.start(1_000_000);
    assert!(t.next_tick().is_some());
    t.stop();
    assert!(t.next_tick().is_none());
}

#[test]
fn intervals_are_not_constant() {
    // xorshift32 should produce varied intervals across many advances.
    let mut t = BlinkTimer::new();
    let mut intervals = std::collections::HashSet::new();
    for _ in 0..20 {
        intervals.insert(t.advance());
    }
    assert!(intervals.len() > 5, "xorshift32 should produce >5 distinct values in 20 draws");
}

#[test]
fn first_interval_is_that_of_the_seed() {
    // The state after the seed 0xDEADBEEF is 0x477D20B7; its remainder by 301 is the interval.
    let mut s: u32 = 0xDEAD_BEEF;
    s ^= s << 13;
    s ^= s >> 17;
    s ^= s << 5;
    let mut t = BlinkTimer::default();
    t.start(5);
    assert_eq!(t.next_tick(), Some(5 + (s % 301) as u64));
}
