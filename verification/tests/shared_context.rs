use resp_benchmark::async_flag::AsyncFlag;
use resp_benchmark::clock::saturate_nanos;
use resp_benchmark::shared_context::SharedContext;

const SECOND: u64 = 1_000_000_000;

#[test]
fn fetch_grants_until_the_budget_is_used_up() {
    let mut context = SharedContext::new(100, 0, false);
    let mut granted = Vec::new();
    for _ in 0..8 {
        granted.push(context.fetch(30));
    }
    assert_eq!(granted, vec![30, 30, 30, 10, 0, 0, 0, 0]);
    let mut sum = 0;
    let mut seen_zero = false;
    for g in granted {
        sum += g;
        assert!(sum <= 100);
        if seen_zero {
            assert_eq!(g, 0);
        }
        if g == 0 {
            seen_zero = true;
        }
    }
}

#[test]
fn fetch_without_bounds_grants_every_request() {
    let mut context = SharedContext::new(0, 0, false);
    for _ in 0..1000 {
        assert_eq!(context.fetch(8), 8);
    }
    context.start_timer();
    assert_eq!(context.fetch(8), 8);
    assert_eq!(context.fetch_at(8, u64::MAX), 8);
}

#[test]
fn fetch_at_grants_nothing_once_the_time_exceeds_the_bound() {
    let mut context = SharedContext::new(0, 10, false);
    // the time does not count before the timer starts
    assert_eq!(context.fetch_at(4, 1_000 * SECOND), 4);
    context.start_timer();
    assert_eq!(context.fetch_at(4, 0), 4);
    assert_eq!(context.fetch_at(4, 9 * SECOND), 4);
    // at the bound itself the request is still granted
    assert_eq!(context.fetch_at(4, 10 * SECOND), 4);
    assert_eq!(context.fetch_at(4, 10 * SECOND + 1), 0);
    assert_eq!(context.fetch_at(4, 11 * SECOND), 0);
    assert_eq!(context.fetch_at(4, u64::MAX), 0);
}

#[test]
fn fetch_at_with_both_bounds() {
    let mut context = SharedContext::new(10, 5, false);
    context.start_timer();
    assert_eq!(context.fetch_at(4, 0), 4);
    assert_eq!(context.fetch_at(4, SECOND), 4);
    // refused for the time, and the request is booked all the same
    assert_eq!(context.fetch_at(4, 5 * SECOND + 1), 0);
    assert_eq!(context.fetch_at(4, SECOND), 0);
}

#[test]
fn a_bound_beyond_what_the_clock_counts_is_never_exceeded() {
    let mut context = SharedContext::new(0, u64::MAX, false);
    context.start_timer();
    assert_eq!(context.fetch_at(4, u64::MAX), 4);
}

#[test]
fn fetch_right_after_the_timer_starts_is_within_the_time() {
    let mut context = SharedContext::new(0, 3600, false);
    context.start_timer();
    assert_eq!(context.fetch(3), 3);
    // a second start leaves the first in force
    context.start_timer();
    assert_eq!(context.fetch(3), 3);
}

#[test]
fn stop_is_idempotent_and_final() {
    let mut context = SharedContext::new(5, 0, true);
    assert!(!context.is_stopped());
    assert!(context.is_loading());
    context.stop();
    assert!(context.is_stopped());
    context.stop();
    assert!(context.is_stopped());
    context.fetch(3);
    context.start_timer();
    context.record(100);
    context.fetch(3);
    assert!(context.is_stopped());
}

#[test]
fn context_records_into_its_histogram() {
    let mut context = SharedContext::new(0, 0, false);
    assert_eq!(context.histogram().cnt(), 0);
    context.record(1_500);
    context.record(1_500);
    assert_eq!(context.histogram().cnt(), 2);
    assert_eq!(context.histogram().avg(), 1_500);
}

#[test]
fn flag_is_set_once_and_stays_set() {
    let mut flag = AsyncFlag::new();
    assert!(!flag.is_set());
    flag.set_flag();
    assert!(flag.is_set());
    flag.set_flag();
    assert!(flag.is_set());
}

#[test]
fn fetch_grants_nothing_after_the_measured_time() {
    let mut context = SharedContext::new(0, 1, false);
    assert_eq!(context.measured_nanos(), 0);
    context.start_timer();
    assert_eq!(context.fetch(5), 5);
    pass_time(1100);
    // a second start does not move the first
    context.start_timer();
    assert!(context.measured_nanos() >= 1_000_000_000);
    assert_eq!(context.fetch(5), 0);
    assert_eq!(context.fetch(5), 0);
}

#[test]
fn a_reading_of_the_clock_is_held_at_the_largest_count() {
    assert_eq!(saturate_nanos(0), 0);
    assert_eq!(saturate_nanos(1_500_000_000), 1_500_000_000);
    assert_eq!(saturate_nanos(u64::MAX as u128), u64::MAX);
    assert_eq!(saturate_nanos(u64::MAX as u128 + 1), u64::MAX);
    assert_eq!(saturate_nanos(u128::MAX), u64::MAX);
}

/// Lets the given number of milliseconds pass.
fn pass_time(millis: u64) {
    let start = std::time::Instant::now();
    while start.elapsed() < std::time::Duration::from_millis(millis) {
        std::hint::spin_loop();
    }
}
