use resp_benchmark::auto_connection::AutoConnection;
use resp_benchmark::auto_connection::MAX_CONN;
use resp_benchmark::histogram::Histogram;

const SECOND: u64 = 1_000_000_000;

fn capacities(controller: &AutoConnection) -> Vec<u64> {
    (0..controller.shard_count()).map(|i| controller.limiter(i).total_conn()).collect()
}

fn targets(controller: &AutoConnection) -> Vec<u64> {
    (0..controller.shard_count()).map(|i| controller.limiter(i).get_target_conn()).collect()
}

/// Admits connections until every limiter is settled.
fn settle(controller: &mut AutoConnection) {
    for shard in 0..controller.shard_count() {
        while controller.try_new_conn(shard) {}
    }
}

#[test]
fn fixed_mode_is_ready_with_every_target_at_its_capacity() {
    let mut controller = AutoConnection::new(10, 3);
    assert!(controller.ready());
    assert_eq!(capacities(&controller), vec![4, 3, 3]);
    assert_eq!(targets(&controller), vec![4, 3, 3]);
    assert_eq!(controller.target_conn(), 10);
    assert_eq!(controller.active_conn(), 0);
    // no sample changes anything
    assert!(!controller.adjust_at(1_000_000, 10 * SECOND));
    assert_eq!(targets(&controller), vec![4, 3, 3]);
    assert!(controller.ready());
    assert_eq!(controller.last_cnt(), 0);
}

#[test]
fn shares_differ_by_one_at_most_and_add_up() {
    for (total, shards) in [(1u64, 4u64), (7, 7), (8, 7), (13, 7), (1024, 3), (5, 1), (u64::MAX, 5)] {
        let controller = AutoConnection::new(total, shards);
        let caps = capacities(&controller);
        assert_eq!(caps.len() as u64, shards);
        let sum: u128 = caps.iter().map(|c| *c as u128).sum();
        assert_eq!(sum, total as u128);
        let max = *caps.iter().max().unwrap();
        let min = *caps.iter().min().unwrap();
        assert!(max - min <= 1);
        // the larger shares come first
        for i in 1..caps.len() {
            assert!(caps[i - 1] >= caps[i]);
        }
    }
}

#[test]
fn auto_mode_starts_with_every_target_at_zero() {
    let controller = AutoConnection::new(0, 4);
    assert!(!controller.ready());
    assert_eq!(capacities(&controller), vec![256, 256, 256, 256]);
    assert_eq!(targets(&controller), vec![0, 0, 0, 0]);
    assert_eq!(MAX_CONN, 1024);
    let own = AutoConnection::with_max_conn(0, 4, 6);
    assert_eq!(capacities(&own), vec![2, 2, 1, 1]);
    assert!(!own.ready());
}

#[test]
fn auto_mode_ramps_by_doubling_and_settles_once() {
    let mut controller = AutoConnection::new(0, 2);
    let mut count: u64 = 0;

    // too early: nothing happens
    assert!(!controller.adjust_at(count, SECOND / 2 - 1));
    assert_eq!(controller.target_conn(), 0);

    // first sample, no throughput yet: one connection
    assert!(controller.adjust_at(count, SECOND / 2));
    assert_eq!(targets(&controller), vec![1, 0]);
    settle(&mut controller);
    assert_eq!(controller.active_conn(), 1);

    // throughput appears, the last was none: one more
    count += 1_000;
    assert!(controller.adjust_at(count, SECOND));
    assert_eq!(targets(&controller), vec![1, 1]);
    assert_eq!(controller.last_cnt(), 1_000);
    settle(&mut controller);
    assert_eq!(controller.active_conn(), 2);

    // 2000 per second after 1000 per second: doubled, so as many again
    count += 2_000;
    assert!(controller.adjust_at(count, SECOND));
    assert_eq!(targets(&controller), vec![2, 2]);
    settle(&mut controller);
    assert_eq!(controller.active_conn(), 4);

    // 3000 per second after 2000: not doubled, so no judgement before three seconds
    count += 3_000;
    assert!(!controller.adjust_at(count, SECOND));
    assert_eq!(controller.target_conn(), 4);
    assert_eq!(controller.last_cnt(), 3_000);
    // at three seconds: 9000 in 3 s is 1.5 times the last, more than 1.3
    count += 6_000;
    assert!(controller.adjust_at(count, 3 * SECOND));
    assert_eq!(targets(&controller), vec![4, 4]);
    settle(&mut controller);
    assert_eq!(controller.active_conn(), 8);

    // plateau: 3900 per second after 3000 is exactly 1.3 times, which is not more
    count += 11_700;
    assert!(!controller.ready());
    assert!(!controller.adjust_at(count, 3 * SECOND));
    assert!(controller.ready());
    assert_eq!(controller.target_conn(), 8);

    // ready is final, whatever the throughput
    count += 1_000_000;
    assert!(!controller.adjust_at(count, 3 * SECOND));
    assert!(controller.ready());
    assert_eq!(controller.target_conn(), 8);
    assert_eq!(controller.active_conn(), 8);
}

#[test]
fn growth_just_above_the_factor_keeps_ramping() {
    let mut controller = AutoConnection::new(0, 1);
    assert!(controller.adjust_at(0, SECOND));
    settle(&mut controller);
    assert!(controller.adjust_at(1_000, SECOND));
    settle(&mut controller);
    // 3901 in three seconds against 1000 in one: more than 1.3 times
    assert!(controller.adjust_at(1_000 + 3_901, 3 * SECOND));
    assert!(!controller.ready());
    assert_eq!(controller.target_conn(), 4);
}

#[test]
fn ramp_stops_at_the_capacity() {
    let mut controller = AutoConnection::with_max_conn(0, 2, 3);
    assert!(controller.adjust_at(0, SECOND));
    settle(&mut controller);
    assert!(controller.adjust_at(10, SECOND));
    settle(&mut controller);
    assert!(controller.adjust_at(40, SECOND));
    assert_eq!(targets(&controller), vec![2, 1]);
    settle(&mut controller);
    assert_eq!(controller.active_conn(), 3);
    assert!(controller.adjust_at(140, SECOND));
    assert_eq!(targets(&controller), vec![2, 1]);
}

#[test]
fn requests_go_round_the_shards() {
    let mut controller = AutoConnection::new(0, 3);
    assert!(controller.adjust_at(0, SECOND));
    assert_eq!(targets(&controller), vec![1, 0, 0]);
    settle(&mut controller);
    assert!(controller.adjust_at(0, SECOND));
    assert_eq!(targets(&controller), vec![1, 1, 0]);
    settle(&mut controller);
    assert!(controller.adjust_at(0, SECOND));
    assert_eq!(targets(&controller), vec![1, 1, 1]);
    settle(&mut controller);
    assert!(controller.adjust_at(9, SECOND));
    assert_eq!(targets(&controller), vec![2, 1, 1]);
}

#[test]
fn adjust_reads_the_count_from_the_histogram() {
    let mut controller = AutoConnection::new(0, 2);
    let mut histogram = Histogram::new();
    histogram.record(100);
    // no half second has passed since the controller was made
    controller.adjust(&histogram);
    assert_eq!(controller.target_conn(), 0);
    assert!(!controller.ready());
    let mut fixed = AutoConnection::new(4, 2);
    fixed.adjust(&histogram);
    assert!(fixed.ready());
    assert_eq!(fixed.target_conn(), 4);
}

#[test]
fn admission_goes_through_the_controller() {
    let mut controller = AutoConnection::new(3, 2);
    assert!(controller.try_new_conn(0));
    assert!(controller.try_new_conn(0));
    assert!(!controller.try_new_conn(0));
    assert!(controller.try_new_conn(1));
    assert!(!controller.try_new_conn(1));
    assert_eq!(controller.active_conn(), 3);
    assert!(controller.limiter(0).is_settled());
}

#[test]
fn adjust_takes_its_first_sample_after_half_a_second() {
    let mut controller = AutoConnection::new(0, 2);
    let histogram = Histogram::new();
    pass_time(600);
    controller.adjust(&histogram);
    assert_eq!(targets(&controller), vec![1, 0]);
    // the next sample starts at the first: it is too early for another
    controller.adjust(&histogram);
    assert_eq!(targets(&controller), vec![1, 0]);
    assert!(!controller.ready());
}

/// Lets the given number of milliseconds pass.
fn pass_time(millis: u64) {
    let start = std::time::Instant::now();
    while start.elapsed() < std::time::Duration::from_millis(millis) {
        std::hint::spin_loop();
    }
}
