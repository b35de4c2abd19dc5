use meowping::scan::{
    assign_sequences, ensure_attempts, fold_round, plan_batches, ErrorKind, ProbeOutcome,
    ProbeResult,
};
use meowping::stats::StatisticsAggregator;

#[test]
fn statistics_over_mixed_latencies() {
    let mut agg = StatisticsAggregator::new();
    for t in [100u64, 0, 300, 0, 200] {
        agg.record(t);
    }
    let s = agg.summary();
    assert_eq!(s.attempted, 5);
    assert_eq!(s.succeeded, 3);
    assert_eq!(s.failed, 2);
    assert_eq!(s.loss_centipercent, 4000);
    assert_eq!(s.min_us, 100);
    assert_eq!(s.max_us, 300);
    assert_eq!(s.avg_us, 200);
}

#[test]
fn statistics_with_no_attempts_divide_nothing() {
    let agg = StatisticsAggregator::new();
    let s = agg.summary();
    assert_eq!(s.attempted, 0);
    assert_eq!(s.succeeded, 0);
    assert_eq!(s.failed, 0);
    assert_eq!(s.loss_centipercent, 0);
    assert_eq!(s.min_us, 0);
    assert_eq!(s.max_us, 0);
    assert_eq!(s.avg_us, 0);
}

#[test]
fn statistics_with_no_successes_keep_zero_latencies() {
    let mut agg = StatisticsAggregator::new();
    agg.record_failure();
    agg.record_failure();
    let s = agg.summary();
    assert_eq!(s.attempted, 2);
    assert_eq!(s.succeeded, 0);
    assert_eq!(s.failed, 2);
    assert_eq!(s.loss_centipercent, 10000);
    assert_eq!(s.min_us, 0);
    assert_eq!(s.max_us, 0);
    assert_eq!(s.avg_us, 0);
}

#[test]
fn statistics_loss_truncates_to_hundredths() {
    let mut agg = StatisticsAggregator::new();
    agg.record(10);
    agg.record(20);
    agg.record_failure();
    let s = agg.summary();
    assert_eq!(s.attempted, 3);
    assert_eq!(s.loss_centipercent, 3333);
    assert_eq!(s.avg_us, 15);
}

#[test]
fn forty_hosts_make_two_batches_of_32_and_8() {
    let batches = plan_batches(40, 32);
    assert_eq!(batches, vec![(0, 32), (32, 40)]);
}

#[test]
fn batches_partition_every_host_exactly_once() {
    let batches = plan_batches(100, 32);
    assert_eq!(batches, vec![(0, 32), (32, 64), (64, 96), (96, 100)]);
    let mut covered = 0usize;
    for (start, end) in &batches {
        assert_eq!(*start, covered);
        assert!(*end > *start);
        covered = *end;
    }
    assert_eq!(covered, 100);
}

#[test]
fn small_host_sets_fit_one_batch() {
    assert_eq!(plan_batches(5, 32), vec![(0, 5)]);
    assert_eq!(plan_batches(0, 32), vec![]);
    assert_eq!(plan_batches(32, 32), vec![(0, 32)]);
}

#[test]
fn sequences_increment_and_wrap_at_16_bits() {
    let hosts = vec![11u32, 22, 33, 44];
    let assigned = assign_sequences(&hosts, 0xfffe);
    assert_eq!(
        assigned,
        vec![(11, 0xfffe), (22, 0xffff), (33, 0), (44, 1)]
    );
}

#[test]
fn attempts_default_to_one() {
    assert_eq!(ensure_attempts(0), 1);
    assert_eq!(ensure_attempts(1), 1);
    assert_eq!(ensure_attempts(7), 7);
}

#[test]
fn fold_round_collects_latencies_and_responsive_hosts() {
    let mut agg = StatisticsAggregator::new();
    let mut responsive: Vec<u32> = Vec::new();
    let results = vec![
        ProbeResult { target: 9, outcome: ProbeOutcome::Success { bytes: 32, rtt_us: 150 } },
        ProbeResult {
            target: 5,
            outcome: ProbeOutcome::Failure { reason: ErrorKind::ReceiveTimeout },
        },
        ProbeResult { target: 7, outcome: ProbeOutcome::Success { bytes: 32, rtt_us: 50 } },
    ];
    fold_round(&mut agg, &mut responsive, &results);
    let results_again = vec![
        ProbeResult { target: 9, outcome: ProbeOutcome::Success { bytes: 32, rtt_us: 250 } },
        ProbeResult {
            target: 5,
            outcome: ProbeOutcome::Failure { reason: ErrorKind::ReceiveTimeout },
        },
        ProbeResult {
            target: 7,
            outcome: ProbeOutcome::Failure { reason: ErrorKind::ReceiveTimeout },
        },
    ];
    fold_round(&mut agg, &mut responsive, &results_again);
    assert_eq!(responsive, vec![7, 9]);
    let s = agg.summary();
    assert_eq!(s.attempted, 6);
    assert_eq!(s.succeeded, 3);
    assert_eq!(s.loss_centipercent, 5000);
    assert_eq!(s.min_us, 50);
    assert_eq!(s.max_us, 250);
    assert_eq!(s.avg_us, 150);
}
