use resp_benchmark::counter::Counter;

#[test]
fn counter_hands_out_its_budget_and_no_more() {
    let mut counter = Counter::new(100);
    let mut granted = Vec::new();
    for _ in 0..7 {
        granted.push(counter.fetch(30));
    }
    assert_eq!(granted, vec![30, 30, 30, 10, 0, 0, 0]);
    assert_eq!(granted.iter().sum::<u64>(), 100);
    assert_eq!(counter.max_count(), 100);
    assert_eq!(counter.current_count(), 210);
}

#[test]
fn counter_without_budget_grants_nothing() {
    let mut counter = Counter::new(0);
    assert_eq!(counter.fetch(5), 0);
    assert_eq!(counter.fetch(1), 0);
}

#[test]
fn counter_holds_at_the_largest_count() {
    let mut counter = Counter::new(u64::MAX);
    assert_eq!(counter.fetch(u64::MAX - 1), u64::MAX - 1);
    assert_eq!(counter.fetch(5), 1);
    assert_eq!(counter.current_count(), u64::MAX);
    assert_eq!(counter.fetch(5), 0);
    assert_eq!(counter.fetch(u64::MAX), 0);
}

#[test]
fn a_request_for_nothing_is_granted_nothing_and_uses_nothing() {
    let mut counter = Counter::new(10);
    assert_eq!(counter.fetch(0), 0);
    assert_eq!(counter.fetch(10), 10);
    assert_eq!(counter.fetch(1), 0);
}
