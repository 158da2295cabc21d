use resp_benchmark::bench::Admission;
use resp_benchmark::bench::Bench;
use resp_benchmark::bench::Case;
use resp_benchmark::command::Command;

fn no_zipf(_n: u64) -> u64 {
    panic!("no key is drawn by Zipf's law")
}

fn case(template: &str, connections: u64, count: u64, seconds: u64, pipeline: u64) -> Case {
    let command = match Command::new(template) {
        Ok(command) => command,
        Err(error) => panic!("{:?}", error),
    };
    Case { command, connections, count, seconds, pipeline }
}

#[test]
fn a_run_with_fixed_connections_measures_from_the_start() {
    let mut bench = Bench::new(case("get {key sequence 100}", 3, 10, 0, 4), 2, false);
    assert!(bench.is_ready());
    assert!(!bench.is_stopped());
    assert_eq!(bench.auto_connection().target_conn(), 3);
    assert_eq!(bench.request_admission(0), Admission::Admitted);
    assert_eq!(bench.request_admission(0), Admission::Admitted);
    assert_eq!(bench.request_admission(0), Admission::Wait);
    assert_eq!(bench.request_admission(1), Admission::Admitted);
    assert_eq!(bench.request_admission(1), Admission::Wait);

    let first = bench.next_batch(&no_zipf);
    assert_eq!(
        first,
        vec![
            vec!["get", "key_0000000000"],
            vec!["get", "key_0000000001"],
            vec!["get", "key_0000000002"],
            vec!["get", "key_0000000003"],
        ]
    );
    bench.record_batch(first.len() as u64, 1_500);
    let second = bench.next_batch(&no_zipf);
    assert_eq!(second.len(), 4);
    assert_eq!(second[0], vec!["get", "key_0000000004"]);
    bench.record_batch(second.len() as u64, 2_500);
    let third = bench.next_batch(&no_zipf);
    assert_eq!(third, vec![vec!["get", "key_0000000008"], vec!["get", "key_0000000009"]]);
    bench.record_batch(third.len() as u64, 500);
    assert!(!bench.is_stopped());

    let last = bench.next_batch(&no_zipf);
    assert!(last.is_empty());
    assert!(bench.is_stopped());
    assert_eq!(bench.request_admission(1), Admission::Stopped);
    assert!(bench.next_batch(&no_zipf).is_empty());

    let summary = bench.summary();
    assert_eq!(summary.operations, 10);
    assert_eq!(summary.connections, 3);
    // (4 * 1500 + 4 * 2500 + 2 * 500) / 10
    assert_eq!(summary.avg_latency_us, 1_700);
    assert_eq!(summary.min_latency_us, 500);
    assert_eq!(summary.p50_latency_us, 1_500);
    assert_eq!(summary.p90_latency_us, 2_500);
    assert_eq!(summary.p99_latency_us, 2_500);
    assert_eq!(summary.max_latency_us, 2_500);
    assert_eq!(bench.context().histogram().cnt(), 10);
}

#[test]
fn a_run_that_finds_its_connections_starts_without_any() {
    let mut bench = Bench::new(case("ping", 0, 0, 0, 1), 2, false);
    assert!(!bench.is_ready());
    assert_eq!(bench.request_admission(0), Admission::Wait);
    assert_eq!(bench.request_admission(1), Admission::Wait);
    // within half a second of the start no sample is taken
    bench.adjust();
    assert!(!bench.is_ready());
    assert_eq!(bench.auto_connection().target_conn(), 0);
    let summary = bench.summary();
    assert_eq!(summary.operations, 0);
    assert_eq!(summary.connections, 0);
    assert_eq!(summary.avg_latency_us, 0);
    assert_eq!(summary.p99_latency_us, 0);
    assert_eq!(summary.max_latency_us, 0);
    assert_eq!(bench.measured_nanos(), 0);
}

#[test]
fn a_run_without_budget_grants_the_whole_pipeline() {
    let mut bench = Bench::new(case("ping", 1, 0, 0, 3), 1, false);
    for _ in 0..10 {
        let batch = bench.next_batch(&no_zipf);
        assert_eq!(batch, vec![vec!["ping"], vec!["ping"], vec!["ping"]]);
        bench.record_batch(3, 10);
    }
    assert_eq!(bench.summary().operations, 30);
    assert!(!bench.is_stopped());
}

#[test]
fn a_run_takes_its_ceiling_from_the_caller() {
    let bench = Bench::with_max_conn(case("ping", 0, 0, 0, 1), 3, false, 64);
    assert!(!bench.is_ready());
    let capacities: Vec<u64> = (0..3).map(|i| bench.auto_connection().limiter(i).total_conn()).collect();
    assert_eq!(capacities, vec![22, 21, 21]);
    let usual = Bench::new(case("ping", 0, 0, 0, 1), 3, false);
    let capacities: Vec<u64> = (0..3).map(|i| usual.auto_connection().limiter(i).total_conn()).collect();
    assert_eq!(capacities, vec![342, 341, 341]);
    // a run with connections of its own does not ask for the ceiling
    let fixed = Bench::with_max_conn(case("ping", 5, 0, 0, 1), 2, false, 1);
    assert_eq!(fixed.auto_connection().target_conn(), 5);
}

#[test]
fn the_controller_waits_until_every_slot_is_taken_or_the_run_has_stopped() {
    let mut bench = Bench::new(case("ping", 2, 1, 0, 1), 2, false);
    assert!(!bench.is_settled());
    assert_eq!(bench.request_admission(0), Admission::Admitted);
    assert!(!bench.is_settled());
    assert_eq!(bench.request_admission(1), Admission::Admitted);
    assert!(bench.is_settled());

    let mut stopped = Bench::new(case("ping", 2, 1, 0, 1), 2, false);
    assert_eq!(stopped.next_batch(&no_zipf).len(), 1);
    assert!(!stopped.is_settled());
    assert!(stopped.next_batch(&no_zipf).is_empty());
    assert!(stopped.is_stopped());
    assert!(stopped.is_settled());

    let auto = Bench::new(case("ping", 0, 0, 0, 1), 2, false);
    assert!(auto.is_settled());
}

#[test]
fn adjust_leaves_a_ready_run_as_it_is() {
    let mut bench = Bench::new(case("ping", 2, 5, 0, 1), 2, true);
    bench.adjust();
    assert!(bench.is_ready());
    assert_eq!(bench.auto_connection().target_conn(), 2);
    assert!(bench.context().is_loading());
}

#[test]
fn the_first_sample_opens_the_first_slot() {
    let mut bench = Bench::new(case("ping", 0, 0, 0, 2), 2, false);
    assert_eq!(bench.request_admission(0), Admission::Wait);
    pass_time(600);
    bench.adjust();
    assert!(!bench.is_ready());
    assert_eq!(bench.auto_connection().target_conn(), 1);
    assert_eq!(bench.request_admission(1), Admission::Wait);
    assert_eq!(bench.request_admission(0), Admission::Admitted);
    assert_eq!(bench.request_admission(0), Admission::Wait);
    assert_eq!(bench.measured_nanos(), 0);
    assert_eq!(bench.summary().connections, 1);
}

/// Lets the given number of milliseconds pass.
fn pass_time(millis: u64) {
    let start = std::time::Instant::now();
    while start.elapsed() < std::time::Duration::from_millis(millis) {
        std::hint::spin_loop();
    }
}
