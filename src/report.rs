use vstd::prelude::*;
use vstd::relations::sorted_by;

use crate::outcome::RequestOutcome;
use crate::stats::{
    ascending, lemma_rank_index_monotone, lemma_round_div_le, lemma_ranked, lemma_round_div_monotone,
    lemma_round_mean_bounded, percentile, percentile_of, rank_index, ranked, round_div,
    round_div_u128, sort_latencies, sum_latencies, total,
};

verus! {

/// Latency statistics over the successful requests, in hundredths of a millisecond.
#[derive(Clone, Copy, Debug, PartialEq, Eq, Structural)]
pub struct ResponseTimes {
    pub min_ms: u64,
    pub max_ms: u64,
    pub average_ms: u64,
    pub median_ms: u64,
    pub p95_ms: u64,
    pub p99_ms: u64,
}

/// One successful request: when it completed, in milliseconds since the start
/// of the run, and its latency in hundredths of a millisecond.
#[derive(Clone, Copy, Debug, PartialEq, Eq, Structural)]
pub struct TimeseriesPoint {
    pub timestamp: u64,
    pub response_time_ms: u64,
}

/// The summary of one load run. Durations are in hundredths of a second and
/// the throughput in hundredths of a request per second.
pub struct SummaryReport {
    pub language: String,
    pub total_requests: usize,
    pub successful_requests: usize,
    pub failed_requests: usize,
    pub total_time_seconds: u64,
    pub requests_per_second: u128,
    pub response_times: ResponseTimes,
    pub timeseries: Vec<TimeseriesPoint>,
}

/// The mathematical content of a `SummaryReport`.
pub struct SummaryModel {
    pub language: Seq<char>,
    pub total_requests: nat,
    pub successful_requests: nat,
    pub failed_requests: nat,
    pub total_time_seconds: nat,
    pub requests_per_second: nat,
    pub response_times: ResponseTimes,
    pub timeseries: Seq<TimeseriesPoint>,
}

impl View for SummaryReport {
    type V = SummaryModel;

    open spec fn view(&self) -> SummaryModel {
        SummaryModel {
            language: self.language@,
            total_requests: self.total_requests as nat,
            successful_requests: self.successful_requests as nat,
            failed_requests: self.failed_requests as nat,
            total_time_seconds: self.total_time_seconds as nat,
            requests_per_second: self.requests_per_second as nat,
            response_times: self.response_times,
            timeseries: self.timeseries@,
        }
    }
}

/// The successful outcomes of `s`, in their order in `s`.
pub open spec fn successes(s: Seq<RequestOutcome>) -> Seq<RequestOutcome>
    decreases s.len(),
{
    if s.len() == 0 {
        seq![]
    } else if s.last().succeeded {
        successes(s.drop_last()).push(s.last())
    } else {
        successes(s.drop_last())
    }
}

/// The latencies of the successful outcomes of `s`, in their order in `s`.
pub open spec fn latencies(s: Seq<RequestOutcome>) -> Seq<u64>
    decreases s.len(),
{
    if s.len() == 0 {
        seq![]
    } else if s.last().succeeded {
        latencies(s.drop_last()).push(s.last().latency_us)
    } else {
        latencies(s.drop_last())
    }
}

/// Microseconds as hundredths of a millisecond, rounded.
pub open spec fn centi_ms(us: u64) -> u64 {
    round_div(us as nat, 10) as u64
}

/// The timeseries entry of one outcome: completion offset rounded to the
/// millisecond, latency rounded to the hundredth of a millisecond.
pub open spec fn point_of(o: RequestOutcome) -> TimeseriesPoint {
    TimeseriesPoint {
        timestamp: round_div(o.offset_us as nat, 1000) as u64,
        response_time_ms: centi_ms(o.latency_us),
    }
}

/// The timeseries of the successful outcomes of `s`, in their order in `s`.
pub open spec fn timeseries_of(s: Seq<RequestOutcome>) -> Seq<TimeseriesPoint>
    decreases s.len(),
{
    if s.len() == 0 {
        seq![]
    } else if s.last().succeeded {
        timeseries_of(s.drop_last()).push(point_of(s.last()))
    } else {
        timeseries_of(s.drop_last())
    }
}

/// Every latency statistic zero.
pub open spec fn zero_times() -> ResponseTimes {
    ResponseTimes { min_ms: 0, max_ms: 0, average_ms: 0, median_ms: 0, p95_ms: 0, p99_ms: 0 }
}

/// The latency statistics of `lat`: extremes and nearest-rank percentiles of
/// the ascending order, and the mean; all zero for no latencies.
pub open spec fn response_times_of(lat: Seq<u64>) -> ResponseTimes {
    if lat.len() == 0 {
        zero_times()
    } else {
        let sorted = ranked(lat);
        ResponseTimes {
            min_ms: centi_ms(sorted[0]),
            max_ms: centi_ms(sorted[sorted.len() - 1]),
            average_ms: round_div(total(lat), 10 * lat.len()) as u64,
            median_ms: centi_ms(percentile_of(sorted, 50)),
            p95_ms: centi_ms(percentile_of(sorted, 95)),
            p99_ms: centi_ms(percentile_of(sorted, 99)),
        }
    }
}

/// Attempted requests per second over a run of `duration_us` microseconds, in
/// hundredths and rounded; zero for a run of no measurable duration.
pub open spec fn throughput(attempted: nat, duration_us: nat) -> nat {
    if duration_us == 0 {
        0
    } else {
        round_div(attempted * 100_000_000, duration_us)
    }
}

/// The report that the outcomes `s` of a run of `duration_us` microseconds give.
pub open spec fn summary_of(s: Seq<RequestOutcome>, duration_us: u64) -> SummaryModel {
    SummaryModel {
        language: "rust"@,
        total_requests: s.len(),
        successful_requests: successes(s).len(),
        failed_requests: (s.len() - successes(s).len()) as nat,
        total_time_seconds: round_div(duration_us as nat, 10000),
        requests_per_second: throughput(s.len(), duration_us as nat),
        response_times: response_times_of(latencies(s)),
        timeseries: timeseries_of(s),
    }
}

/// The successful outcomes, their latencies and their timeseries run in step.
pub proof fn lemma_successes_shape(s: Seq<RequestOutcome>)
    ensures
        successes(s).len() <= s.len(),
        latencies(s).len() == successes(s).len(),
        timeseries_of(s).len() == successes(s).len(),
        forall|i: int|
            0 <= i < successes(s).len() ==> latencies(s)[i] == (#[trigger] successes(s)[i]).latency_us
                && timeseries_of(s)[i] == point_of(successes(s)[i]),
        forall|i: int| 0 <= i < successes(s).len() ==> s.contains(#[trigger] successes(s)[i]),
    decreases s.len(),
{
    if s.len() > 0 {
        lemma_successes_shape(s.drop_last());
        let rest = s.drop_last();
        assert forall|i: int| 0 <= i < successes(s).len() implies s.contains(
            #[trigger] successes(s)[i],
        ) by {
            if i < successes(rest).len() {
                let j = choose|j: int| 0 <= j < rest.len() && rest[j] == successes(rest)[i];
                assert(s[j] == rest[j]);
            } else {
                assert(s[s.len() - 1] == s.last());
            }
        }
    }
}

/// The latency statistics are ordered: min, median, p95, p99, max.
pub proof fn lemma_response_times_ordered(lat: Seq<u64>)
    requires
        lat.len() > 0,
    ensures
        ({
            let t = response_times_of(lat);
            t.min_ms <= t.median_ms <= t.p95_ms <= t.p99_ms <= t.max_ms
        }),
{
    let sorted = ranked(lat);
    let n = lat.len();
    lemma_ranked(lat);
    lemma_rank_index_monotone(n, 0, 50);
    lemma_rank_index_monotone(n, 50, 95);
    lemma_rank_index_monotone(n, 95, 99);
    let (i0, i1, i2, i3, i4) = (
        0int,
        rank_index(n, 50),
        rank_index(n, 95),
        rank_index(n, 99),
        n - 1,
    );
    assert forall|a: int, b: int| 0 <= a <= b < n implies sorted[a] <= sorted[b] by {
        if a < b {
            assert((ascending())(sorted[a], sorted[b]));
        }
    }
    lemma_round_div_monotone(sorted[i0] as nat, sorted[i1] as nat, 10);
    lemma_round_div_monotone(sorted[i1] as nat, sorted[i2] as nat, 10);
    lemma_round_div_monotone(sorted[i2] as nat, sorted[i3] as nat, 10);
    lemma_round_div_monotone(sorted[i3] as nat, sorted[i4] as nat, 10);
}

/// A completion offset within the run is reported no later than the rounded
/// run duration, give or take half of its last digit.
pub proof fn lemma_timestamp_within_run(offset_us: u64, duration_us: u64)
    requires
        offset_us <= duration_us,
    ensures
        round_div(offset_us as nat, 1000) <= 10 * round_div(duration_us as nat, 10000) + 5,
{
    lemma_round_div_monotone(offset_us as nat, duration_us as nat, 1000);
    let a = 2 * duration_us + 1000;
    let b = 2 * duration_us + 10000;
    vstd::arithmetic::div_mod::lemma_fundamental_div_mod(a as int, 2000);
    vstd::arithmetic::div_mod::lemma_mod_pos_bound(a as int, 2000);
    vstd::arithmetic::div_mod::lemma_fundamental_div_mod(b as int, 20000);
    vstd::arithmetic::div_mod::lemma_mod_pos_bound(b as int, 20000);
}

/// Summarizes the outcomes of a run that took `duration_us` microseconds.
pub fn aggregate(outcomes: &Vec<RequestOutcome>, duration_us: u64) -> (r: SummaryReport)
    ensures
        r@ == summary_of(outcomes@, duration_us),
        r.successful_requests + r.failed_requests == r.total_requests,
        r.total_requests == outcomes@.len(),
        r.successful_requests == 0 ==> r.response_times == zero_times(),
        r.successful_requests > 0 ==> r.response_times.min_ms <= r.response_times.median_ms
            <= r.response_times.p95_ms <= r.response_times.p99_ms <= r.response_times.max_ms,
        r.timeseries@.len() == r.successful_requests,
        (forall|i: int| 0 <= i < outcomes@.len() ==> #[trigger] outcomes@[i].offset_us <= duration_us)
            ==> forall|i: int|
            0 <= i < r.timeseries@.len() ==> #[trigger] r.timeseries@[i].timestamp <= 10
                * r.total_time_seconds + 5,
{
    let mut lat: Vec<u64> = Vec::new();
    let mut series: Vec<TimeseriesPoint> = Vec::new();
    let mut succeeded: usize = 0;
    let mut i: usize = 0;
    while i < outcomes.len()
        invariant
            i <= outcomes.len(),
            lat@ == latencies(outcomes@.subrange(0, i as int)),
            series@ == timeseries_of(outcomes@.subrange(0, i as int)),
            succeeded == successes(outcomes@.subrange(0, i as int)).len(),
            succeeded <= i,
        decreases outcomes.len() - i,
    {
        let o = &outcomes[i];
        assert(outcomes@.subrange(0, i + 1).drop_last() == outcomes@.subrange(0, i as int));
        if o.succeeded {
            lat.push(o.latency_us);
            proof {
                lemma_round_div_le(o.offset_us as nat, 1000);
                lemma_round_div_le(o.latency_us as nat, 10);
            }
            let time_ms = round_div_u128(o.offset_us as u128, 1000) as u64;
            let centi = round_div_u128(o.latency_us as u128, 10) as u64;
            series.push(TimeseriesPoint { timestamp: time_ms, response_time_ms: centi });
            succeeded = succeeded + 1;
        }
        i = i + 1;
    }
    assert(outcomes@.subrange(0, outcomes@.len() as int) == outcomes@);
    proof {
        lemma_successes_shape(outcomes@);
    }
    let n = lat.len();
    let response_times = if n == 0 {
        ResponseTimes { min_ms: 0, max_ms: 0, average_ms: 0, median_ms: 0, p95_ms: 0, p99_ms: 0 }
    } else {
        let sorted = sort_latencies(&lat);
        proof {
            lemma_ranked(lat@);
        }
        let sum = sum_latencies(&lat);
        proof {
            lemma_round_mean_bounded(sum as nat, n as nat, u64::MAX as nat, 10);
        }
        assert(10 * n <= u128::MAX);
        let average = round_div_u128(sum, 10 * n as u128) as u64;
        let rt = ResponseTimes {
            min_ms: round_div_u128(sorted[0] as u128, 10) as u64,
            max_ms: round_div_u128(sorted[n - 1] as u128, 10) as u64,
            average_ms: average,
            median_ms: round_div_u128(percentile(sorted.as_slice(), 50) as u128, 10) as u64,
            p95_ms: round_div_u128(percentile(sorted.as_slice(), 95) as u128, 10) as u64,
            p99_ms: round_div_u128(percentile(sorted.as_slice(), 99) as u128, 10) as u64,
        };
        proof {
            lemma_response_times_ordered(lat@);
        }
        rt
    };
    let requests_per_second = if duration_us == 0 {
        0
    } else {
        round_div_u128(outcomes.len() as u128 * 100_000_000, duration_us as u128)
    };
    proof {
        lemma_round_div_le(duration_us as nat, 10000);
    }
    let total_time_seconds = round_div_u128(duration_us as u128, 10000) as u64;
    proof {
        if forall|i: int| 0 <= i < outcomes@.len() ==> #[trigger] outcomes@[i].offset_us <= duration_us {
            assert forall|i: int| 0 <= i < series@.len() implies #[trigger] series@[i].timestamp <= 10
                * total_time_seconds + 5 by {
                let o = successes(outcomes@)[i];
                assert(outcomes@.contains(o));
                lemma_timestamp_within_run(o.offset_us, duration_us);
                lemma_round_div_le(o.offset_us as nat, 1000);
            }
        }
    }
    let language = String::from_str("rust");
    assert(response_times == response_times_of(latencies(outcomes@)));
    assert(series@ == timeseries_of(outcomes@));
    assert(total_time_seconds == round_div(duration_us as nat, 10000));
    assert(requests_per_second == throughput(outcomes@.len(), duration_us as nat));
    SummaryReport {
        language,
        total_requests: outcomes.len(),
        successful_requests: succeeded,
        failed_requests: outcomes.len() - succeeded,
        total_time_seconds,
        requests_per_second,
        response_times,
        timeseries: series,
    }
}

/// Aggregation depends on the outcomes and the duration alone: two reports of
/// the same run are identical.
pub proof fn lemma_aggregation_idempotent(
    s: Seq<RequestOutcome>,
    duration_us: u64,
    first: SummaryReport,
    second: SummaryReport,
)
    requires
        first@ == summary_of(s, duration_us),
        second@ == summary_of(s, duration_us),
    ensures
        first@ == second@,
{
}

} // verus!
