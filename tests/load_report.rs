use perf_bench::outcome::{is_success_status, Completion, RequestOutcome};
use perf_bench::report::{aggregate, ResponseTimes, SummaryReport};
use perf_bench::stats::{percentile, sort_latencies, sum_latencies};

fn ok(id: usize, latency_us: u64, offset_us: u64) -> RequestOutcome {
    RequestOutcome::record(id, Completion::Response { status: 200 }, latency_us, offset_us)
}

fn zero_times() -> ResponseTimes {
    ResponseTimes { min_ms: 0, max_ms: 0, average_ms: 0, median_ms: 0, p95_ms: 0, p99_ms: 0 }
}

fn same_report(a: &SummaryReport, b: &SummaryReport) -> bool {
    a.language == b.language
        && a.total_requests == b.total_requests
        && a.successful_requests == b.successful_requests
        && a.failed_requests == b.failed_requests
        && a.total_time_seconds == b.total_time_seconds
        && a.requests_per_second == b.requests_per_second
        && a.response_times == b.response_times
        && a.timeseries == b.timeseries
}

#[test]
fn percentile_picks_nearest_rank() {
    let data = vec![10u64, 20, 30, 40, 50];
    assert_eq!(percentile(&data, 95), 50);
    assert_eq!(percentile(&data, 50), 30);
    assert_eq!(percentile(&data, 99), 50);
    assert_eq!(percentile(&data, 100), 50);
    assert_eq!(percentile(&data, 20), 10);
    assert_eq!(percentile(&data, 21), 20);
    assert_eq!(percentile(&data, 0), 10);
    assert_eq!(percentile(&[], 50), 0);
}

#[test]
fn percentile_on_even_count() {
    let data = vec![1u64, 2, 3, 4];
    assert_eq!(percentile(&data, 50), 2);
    assert_eq!(percentile(&data, 95), 4);
}

#[test]
fn sorting_latencies_orders_them() {
    let v = vec![5u64, 1, 4, 1, 3];
    assert_eq!(sort_latencies(&v), vec![1, 1, 3, 4, 5]);
    assert_eq!(sort_latencies(&vec![]), Vec::<u64>::new());
}

#[test]
fn summing_latencies() {
    assert_eq!(sum_latencies(&vec![u64::MAX, u64::MAX]), 2 * (u64::MAX as u128));
    assert_eq!(sum_latencies(&vec![]), 0);
}

#[test]
fn success_status_range() {
    assert!(!is_success_status(199));
    assert!(is_success_status(200));
    assert!(is_success_status(204));
    assert!(is_success_status(299));
    assert!(!is_success_status(300));
    assert!(!is_success_status(500));
}

#[test]
fn recording_classifies_outcomes() {
    let a = RequestOutcome::record(3, Completion::Response { status: 201 }, 7, 9);
    assert!(a.succeeded);
    assert_eq!(a.error_message, None);
    assert_eq!((a.sequence_id, a.latency_us, a.offset_us), (3, 7, 9));
    let b = RequestOutcome::record(4, Completion::Response { status: 404 }, 7, 9);
    assert!(!b.succeeded);
    assert_eq!(b.error_message, None);
    let c = RequestOutcome::record(
        5,
        Completion::TransportFailure { message: "timed out".to_string() },
        7,
        9,
    );
    assert!(!c.succeeded);
    assert_eq!(c.error_message, Some("timed out".to_string()));
    let d = RequestOutcome::record(6, Completion::Abandoned { message: "panicked".to_string() }, 0, 0);
    assert!(!d.succeeded);
    assert_eq!(d.error_message, Some("panicked".to_string()));
}

#[test]
fn rank_selection_in_report() {
    let outcomes: Vec<RequestOutcome> =
        (0..5).map(|i| ok(i, 10_000 * (i as u64 + 1), 100_000)).collect();
    let r = aggregate(&outcomes, 1_000_000);
    assert_eq!(r.response_times.min_ms, 1000);
    assert_eq!(r.response_times.median_ms, 3000);
    assert_eq!(r.response_times.p95_ms, 5000);
    assert_eq!(r.response_times.p99_ms, 5000);
    assert_eq!(r.response_times.max_ms, 5000);
    assert_eq!(r.response_times.average_ms, 3000);
}

#[test]
fn counts_add_up() {
    for n in 0..12usize {
        let outcomes: Vec<RequestOutcome> = (0..n)
            .map(|i| {
                let c = if i % 3 == 0 {
                    Completion::Response { status: 200 }
                } else {
                    Completion::Response { status: 503 }
                };
                RequestOutcome::record(i, c, 1000, 2000)
            })
            .collect();
        let r = aggregate(&outcomes, 5_000_000);
        assert_eq!(r.total_requests, n);
        assert_eq!(r.successful_requests + r.failed_requests, n);
        assert_eq!(r.successful_requests, (n + 2) / 3);
    }
}

#[test]
fn empty_run() {
    let r = aggregate(&vec![], 0);
    assert_eq!(r.total_requests, 0);
    assert_eq!(r.successful_requests, 0);
    assert_eq!(r.failed_requests, 0);
    assert_eq!(r.requests_per_second, 0);
    assert_eq!(r.response_times, zero_times());
    assert!(r.timeseries.is_empty());
    assert_eq!(r.language, "rust");
}

#[test]
fn all_requests_time_out() {
    let outcomes: Vec<RequestOutcome> = (0..8)
        .map(|i| {
            RequestOutcome::record(
                i,
                Completion::TransportFailure { message: "operation timed out".to_string() },
                10_000_000,
                10_000_000,
            )
        })
        .collect();
    let r = aggregate(&outcomes, 10_004_000);
    assert_eq!(r.successful_requests, 0);
    assert_eq!(r.failed_requests, 8);
    assert_eq!(r.response_times, zero_times());
    assert!(r.timeseries.is_empty());
    assert_eq!(r.total_time_seconds, 1000);
    // 8 attempts over 10.004 s: 0.7996... per second.
    assert_eq!(r.requests_per_second, 80);
}

#[test]
fn throughput_counts_attempts() {
    let outcomes: Vec<RequestOutcome> = (0..10)
        .map(|i| if i < 4 { ok(i, 1000, 1000) } else {
            RequestOutcome::record(i, Completion::Response { status: 500 }, 1000, 1000)
        })
        .collect();
    let r = aggregate(&outcomes, 3_000_000);
    assert_eq!(r.requests_per_second, 333);
    assert_eq!(r.total_time_seconds, 300);
}

#[test]
fn even_ids_succeed_odd_ids_fail() {
    let outcomes: Vec<RequestOutcome> = (0..10)
        .map(|i| {
            let status = if i % 2 == 0 { 200 } else { 500 };
            RequestOutcome::record(
                i,
                Completion::Response { status },
                1000 * (i as u64 + 1),
                50_000 * (i as u64 + 1),
            )
        })
        .collect();
    let r = aggregate(&outcomes, 1_000_000);
    assert_eq!(r.successful_requests, 5);
    assert_eq!(r.failed_requests, 5);
    // Successes have latencies 1, 3, 5, 7, 9 ms.
    assert_eq!(
        r.response_times,
        ResponseTimes {
            min_ms: 100,
            max_ms: 900,
            average_ms: 500,
            median_ms: 500,
            p95_ms: 900,
            p99_ms: 900
        }
    );
    assert_eq!(r.timeseries.len(), 5);
    assert_eq!(r.timeseries[1].timestamp, 150);
    assert_eq!(r.timeseries[1].response_time_ms, 300);
}

#[test]
fn metrics_are_rounded_half_up() {
    let outcomes = vec![ok(0, 12_345, 1_234_500), ok(1, 12_344, 1_234_499)];
    let r = aggregate(&outcomes, 1_235_000);
    assert_eq!(r.timeseries[0].response_time_ms, 1235);
    assert_eq!(r.timeseries[0].timestamp, 1235);
    assert_eq!(r.timeseries[1].response_time_ms, 1234);
    assert_eq!(r.timeseries[1].timestamp, 1234);
    // Mean of 12.345 and 12.344 ms is 12.3445 ms.
    assert_eq!(r.response_times.average_ms, 1234);
    assert_eq!(r.total_time_seconds, 124);
    // Two requests over 1.235 s: 1.6194... per second.
    assert_eq!(r.requests_per_second, 162);
}

#[test]
fn percentiles_are_ordered() {
    let lat = [70_000u64, 3_000, 3_000, 950, 120_000, 8_500, 42_000];
    let outcomes: Vec<RequestOutcome> =
        lat.iter().enumerate().map(|(i, l)| ok(i, *l, 500_000)).collect();
    let t = aggregate(&outcomes, 1_000_000).response_times;
    assert!(t.min_ms <= t.median_ms);
    assert!(t.median_ms <= t.p95_ms);
    assert!(t.p95_ms <= t.p99_ms);
    assert!(t.p99_ms <= t.max_ms);
    assert_eq!((t.min_ms, t.median_ms, t.max_ms), (95, 850, 12000));
}

#[test]
fn timeseries_follows_successes() {
    let outcomes = vec![
        ok(0, 2000, 900_000),
        RequestOutcome::record(1, Completion::Response { status: 502 }, 10, 100),
        ok(2, 4000, 1_004_999),
    ];
    let r = aggregate(&outcomes, 1_004_999);
    assert_eq!(r.timeseries.len(), r.successful_requests);
    assert_eq!(r.timeseries[0].timestamp, 900);
    assert_eq!(r.timeseries[1].timestamp, 1005);
    assert_eq!(r.total_time_seconds, 100);
    for p in &r.timeseries {
        assert!(p.timestamp <= 10 * r.total_time_seconds + 5);
    }
}

#[test]
fn aggregation_is_repeatable() {
    let outcomes = vec![ok(0, 1500, 10_000), ok(1, 2500, 20_000), ok(2, 700, 30_000)];
    let a = aggregate(&outcomes, 40_000);
    let b = aggregate(&outcomes, 40_000);
    assert!(same_report(&a, &b));
}
