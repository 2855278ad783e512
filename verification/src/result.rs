//! Outcome records and the aggregate result of a run.
//!
//! A [`RequestResult`] is the normalized, immutable record of one attempt.
//! [`LoadTestResults`] folds a completed run's outcomes and its wall-clock
//! duration into one immutable summary: counts, latency statistics,
//! status-code and error distributions, and latency percentiles.

use vstd::prelude::*;

use crate::histogram::{
    buckets_of, is_bucket_key_of, lemma_buckets_of_wf, lemma_value_at_is_representative,
    lemma_value_at_monotone, spec_bucket_key, spec_record, spec_value_at, LatencyHistogram,
};
use crate::tally::{
    bump_key, count_of, distinct_keys, lemma_bump_props, lemma_bump_skip, lemma_key_value,
    pairs_map,
};
use crate::text::{
    body_error_message, http_error_message, spec_body_error_message, spec_http_error_message,
    string_eq,
};

verus! {

/// Result of a single HTTP request: one outcome per attempt.
///
/// Latencies are wall-clock milliseconds. `success` holds exactly when a
/// response was obtained, its body was fully read, and the status lies in the
/// 2xx range; in every other case `error` describes the failure.
pub struct RequestResult {
    /// HTTP status code, absent when the transport failed before a status
    /// was obtained.
    pub status: Option<u16>,
    /// Time taken by the attempt, in milliseconds.
    pub response_time: u64,
    /// Whether the attempt succeeded.
    pub success: bool,
    /// Failure description, present exactly when the attempt failed.
    pub error: Option<String>,
    /// Byte length of the response body, present exactly when the body was
    /// fully read.
    pub response_size: Option<usize>,
}

impl RequestResult {
    /// The record's internal consistency: a failure description exists
    /// exactly on failure, and a success always carries a 2xx status and a
    /// body size.
    pub open spec fn wf(&self) -> bool {
        &&& self.error.is_some() == !self.success
        &&& self.success ==> {
            &&& self.status matches Some(c) && 200 <= c < 300
            &&& self.response_size.is_some()
        }
    }

    /// Record an attempt whose response arrived and whose body was read in
    /// full. A status outside the 2xx range still counts as a failure, with
    /// a message naming the status and its reason phrase.
    pub fn success(
        status: u16,
        status_text: String,
        duration_ms: u64,
        response_size: usize,
    ) -> (r: RequestResult)
        ensures
            r.status == Some(status),
            r.response_time == duration_ms,
            r.response_size == Some(response_size),
            r.success == (200 <= status < 300),
            r.success ==> r.error.is_none(),
            !r.success ==> (r.error matches Some(m) && m@ == spec_http_error_message(
                status as int,
                status_text@,
            )),
            r.wf(),
    {
        if 200 <= status && status < 300 {
            RequestResult {
                status: Some(status),
                response_time: duration_ms,
                success: true,
                error: None,
                response_size: Some(response_size),
            }
        } else {
            RequestResult {
                status: Some(status),
                response_time: duration_ms,
                success: false,
                error: Some(http_error_message(status, status_text.as_str())),
                response_size: Some(response_size),
            }
        }
    }

    /// Record an attempt that failed before any status was obtained: a
    /// transport-level fault such as a refused connection or a timeout.
    pub fn error(error_message: String, duration_ms: u64) -> (r: RequestResult)
        ensures
            r.status.is_none(),
            r.response_time == duration_ms,
            r.success == false,
            r.error == Some(error_message),
            r.response_size.is_none(),
            r.wf(),
    {
        RequestResult {
            status: None,
            response_time: duration_ms,
            success: false,
            error: Some(error_message),
            response_size: None,
        }
    }

    /// Record an attempt whose response arrived but whose body could not be
    /// read to the end: the status is kept, the size is unknown.
    pub fn body_read_failure(status: u16, detail: String, duration_ms: u64) -> (r: RequestResult)
        ensures
            r.status == Some(status),
            r.response_time == duration_ms,
            r.success == false,
            r.error matches Some(m) && m@ == spec_body_error_message(detail@),
            r.response_size.is_none(),
            r.wf(),
    {
        RequestResult {
            status: Some(status),
            response_time: duration_ms,
            success: false,
            error: Some(body_error_message(detail.as_str())),
            response_size: None,
        }
    }
}

/// How many outcomes in `s` are successes.
pub open spec fn count_success(s: Seq<RequestResult>) -> int
    decreases s.len(),
{
    if s.len() == 0 {
        0
    } else {
        count_success(s.drop_last()) + if s.last().success {
            1int
        } else {
            0int
        }
    }
}

/// Sum of all outcomes' latencies.
pub open spec fn sum_latency(s: Seq<RequestResult>) -> int
    decreases s.len(),
{
    if s.len() == 0 {
        0
    } else {
        sum_latency(s.drop_last()) + s.last().response_time
    }
}

/// Smallest latency, 0 for an empty run.
pub open spec fn spec_min_latency(s: Seq<RequestResult>) -> int
    decreases s.len(),
{
    if s.len() == 0 {
        0
    } else if s.len() == 1 {
        s[0].response_time as int
    } else if s.last().response_time < spec_min_latency(s.drop_last()) {
        s.last().response_time as int
    } else {
        spec_min_latency(s.drop_last())
    }
}

/// Largest latency, 0 for an empty run.
pub open spec fn spec_max_latency(s: Seq<RequestResult>) -> int
    decreases s.len(),
{
    if s.len() == 0 {
        0
    } else if s.last().response_time > spec_max_latency(s.drop_last()) {
        s.last().response_time as int
    } else {
        spec_max_latency(s.drop_last())
    }
}

/// The latencies of the successful outcomes, in order.
pub open spec fn success_latencies(s: Seq<RequestResult>) -> Seq<u64>
    decreases s.len(),
{
    if s.len() == 0 {
        Seq::empty()
    } else if s.last().success {
        success_latencies(s.drop_last()).push(s.last().response_time)
    } else {
        success_latencies(s.drop_last())
    }
}

/// Whether every outcome carries a body size.
pub open spec fn all_sizes_known(s: Seq<RequestResult>) -> bool {
    forall|i: int| 0 <= i < s.len() ==> s[i].response_size.is_some()
}

/// Sum of the known body sizes.
pub open spec fn sum_sizes(s: Seq<RequestResult>) -> int
    decreases s.len(),
{
    if s.len() == 0 {
        0
    } else {
        sum_sizes(s.drop_last()) + match s.last().response_size {
            Some(n) => n as int,
            None => 0int,
        }
    }
}

/// Count of each observed status code: statuses absent from an outcome do
/// not contribute.
pub open spec fn spec_status_counts(s: Seq<RequestResult>) -> Map<u16, int>
    decreases s.len(),
{
    if s.len() == 0 {
        Map::empty()
    } else {
        let m = spec_status_counts(s.drop_last());
        match s.last().status {
            Some(c) => m.insert(c, count_of(m, c) + 1),
            None => m,
        }
    }
}

/// Count of each observed failure description, keyed by the exact message.
pub open spec fn spec_error_counts(s: Seq<RequestResult>) -> Map<Seq<char>, int>
    decreases s.len(),
{
    if s.len() == 0 {
        Map::empty()
    } else {
        let m = spec_error_counts(s.drop_last());
        match s.last().error {
            Some(e) => m.insert(e@, count_of(m, e@) + 1),
            None => m,
        }
    }
}

/// The status tally list in first-observation order.
pub open spec fn spec_status_pairs(s: Seq<RequestResult>) -> Seq<(u16, usize)>
    decreases s.len(),
{
    if s.len() == 0 {
        Seq::empty()
    } else {
        let ps = spec_status_pairs(s.drop_last());
        match s.last().status {
            Some(c) => bump_key(ps, c),
            None => ps,
        }
    }
}

/// The error tally list in first-observation order, at the level of message
/// contents.
pub open spec fn spec_error_pairs(s: Seq<RequestResult>) -> Seq<(Seq<char>, usize)>
    decreases s.len(),
{
    if s.len() == 0 {
        Seq::empty()
    } else {
        let ps = spec_error_pairs(s.drop_last());
        match s.last().error {
            Some(e) => bump_key(ps, e@),
            None => ps,
        }
    }
}

/// The message contents of an owned error tally list.
pub open spec fn error_views(ps: Seq<(String, usize)>) -> Seq<(Seq<char>, usize)> {
    ps.map_values(|p: (String, usize)| (p.0@, p.1))
}

/// The status tally list is the status count map, entry for entry.
pub proof fn lemma_status_tally(s: Seq<RequestResult>)
    requires
        s.len() <= usize::MAX,
    ensures
        distinct_keys(spec_status_pairs(s)),
        pairs_map(spec_status_pairs(s)) == spec_status_counts(s),
        forall|i: int|
            0 <= i < spec_status_pairs(s).len() ==> 1 <= #[trigger] spec_status_pairs(s)[i].1
                <= s.len(),
        forall|k: u16| 0 <= #[trigger] count_of(spec_status_counts(s), k) <= s.len(),
    decreases s.len(),
{
    if s.len() > 0 {
        let ps = spec_status_pairs(s.drop_last());
        let m = spec_status_counts(s.drop_last());
        lemma_status_tally(s.drop_last());
        match s.last().status {
            Some(c) => {
                lemma_bump_props(ps, c);
                let r = bump_key(ps, c);
                let m2 = m.insert(c, count_of(m, c) + 1);
                assert(pairs_map(r) =~= m2);
                assert(spec_status_counts(s) == m2);
                assert forall|k: u16| 0 <= #[trigger] count_of(m2, k) <= s.len() by {
                    if k == c {
                        assert(count_of(m2, k) == count_of(m, c) + 1);
                    } else {
                        assert(count_of(m2, k) == count_of(m, k));
                    }
                }
                assert forall|i: int| 0 <= i < r.len() implies 1 <= #[trigger] r[i].1 <= s.len() by {
                    lemma_key_value(r, i);
                    assert(r[i].1 == pairs_map(r)[r[i].0]);
                    assert(count_of(m2, r[i].0) == r[i].1);
                    if r[i].0 == c {
                        assert(count_of(m2, c) == count_of(m, c) + 1);
                    } else {
                        let j = choose|j: int| 0 <= j < ps.len() && ps[j].0 == r[i].0;
                        lemma_key_value(ps, j);
                        assert(count_of(m2, r[i].0) == count_of(m, r[i].0));
                        assert(count_of(m, ps[j].0) == ps[j].1);
                        assert(ps[j].1 >= 1);
                    }
                }
            },
            None => {
                assert(spec_status_counts(s) == m);
                assert(spec_status_pairs(s) == ps);
                assert forall|k: u16| 0 <= #[trigger] count_of(m, k) <= s.len() by {
                    assert(count_of(m, k) <= s.drop_last().len());
                }
            },
        }
    }
}

/// The error tally list is the error count map, entry for entry.
pub proof fn lemma_error_tally(s: Seq<RequestResult>)
    requires
        s.len() <= usize::MAX,
    ensures
        distinct_keys(spec_error_pairs(s)),
        pairs_map(spec_error_pairs(s)) == spec_error_counts(s),
        forall|i: int|
            0 <= i < spec_error_pairs(s).len() ==> 1 <= #[trigger] spec_error_pairs(s)[i].1
                <= s.len(),
        forall|k: Seq<char>| 0 <= #[trigger] count_of(spec_error_counts(s), k) <= s.len(),
    decreases s.len(),
{
    if s.len() > 0 {
        let ps = spec_error_pairs(s.drop_last());
        let m = spec_error_counts(s.drop_last());
        lemma_error_tally(s.drop_last());
        match s.last().error {
            Some(e) => {
                lemma_bump_props(ps, e@);
                let r = bump_key(ps, e@);
                let m2 = m.insert(e@, count_of(m, e@) + 1);
                assert(pairs_map(r) =~= m2);
                assert(spec_error_counts(s) == m2);
                assert forall|k: Seq<char>| 0 <= #[trigger] count_of(m2, k) <= s.len() by {
                    if k == e@ {
                        assert(count_of(m2, k) == count_of(m, e@) + 1);
                    } else {
                        assert(count_of(m2, k) == count_of(m, k));
                    }
                }
                assert forall|i: int| 0 <= i < r.len() implies 1 <= #[trigger] r[i].1 <= s.len() by {
                    lemma_key_value(r, i);
                    assert(r[i].1 == pairs_map(r)[r[i].0]);
                    assert(count_of(m2, r[i].0) == r[i].1);
                    if r[i].0 == e@ {
                        assert(count_of(m2, e@) == count_of(m, e@) + 1);
                    } else {
                        let j = choose|j: int| 0 <= j < ps.len() && ps[j].0 == r[i].0;
                        lemma_key_value(ps, j);
                        assert(count_of(m2, r[i].0) == count_of(m, r[i].0));
                        assert(count_of(m, ps[j].0) == ps[j].1);
                        assert(ps[j].1 >= 1);
                    }
                }
            },
            None => {
                assert(spec_error_counts(s) == m);
                assert(spec_error_pairs(s) == ps);
                assert forall|k: Seq<char>| 0 <= #[trigger] count_of(m, k) <= s.len() by {
                    assert(count_of(m, k) <= s.drop_last().len());
                }
            },
        }
    }
}

/// Never more successes than outcomes.
pub proof fn lemma_count_success_le(s: Seq<RequestResult>)
    ensures
        0 <= count_success(s) <= s.len(),
    decreases s.len(),
{
    if s.len() > 0 {
        lemma_count_success_le(s.drop_last());
    }
}

/// One success latency per successful outcome.
pub proof fn lemma_success_latencies_len(s: Seq<RequestResult>)
    ensures
        success_latencies(s).len() == count_success(s),
    decreases s.len(),
{
    if s.len() > 0 {
        lemma_success_latencies_len(s.drop_last());
    }
}

/// The latency sum lies between the extremes scaled by the count, and the
/// extremes themselves are honest latency values.
pub proof fn lemma_latency_stats(s: Seq<RequestResult>)
    ensures
        0 <= sum_latency(s) <= s.len() * (u64::MAX as int),
        0 <= spec_min_latency(s) <= u64::MAX,
        0 <= spec_max_latency(s) <= u64::MAX,
        s.len() > 0 ==> spec_min_latency(s) <= spec_max_latency(s),
        s.len() > 0 ==> s.len() * spec_min_latency(s) <= sum_latency(s),
        s.len() > 0 ==> sum_latency(s) <= s.len() * spec_max_latency(s),
    decreases s.len(),
{
    if s.len() == 0 {
    } else {
        let t = s.drop_last();
        let n = s.len() as int;
        let x = s.last().response_time as int;
        lemma_latency_stats(t);
        let mn = spec_min_latency(s);
        let mx = spec_max_latency(s);
        if t.len() == 0 {
            assert(sum_latency(s) == x);
        } else {
            let mn0 = spec_min_latency(t);
            let mx0 = spec_max_latency(t);
            assert(mn <= mn0 && mn <= x && mx >= mx0 && mx >= x);
            assert(n * mn <= sum_latency(s)) by (nonlinear_arith)
                requires
                    n == t.len() + 1,
                    t.len() > 0,
                    sum_latency(s) == sum_latency(t) + x,
                    t.len() * mn0 <= sum_latency(t),
                    mn <= mn0,
                    mn <= x,
            ;
            assert(sum_latency(s) <= n * mx) by (nonlinear_arith)
                requires
                    n == t.len() + 1,
                    t.len() > 0,
                    sum_latency(s) == sum_latency(t) + x,
                    sum_latency(t) <= t.len() * mx0,
                    mx0 <= mx,
                    x <= mx,
            ;
        }
        assert(sum_latency(s) <= n * (u64::MAX as int)) by (nonlinear_arith)
            requires
                n == t.len() + 1,
                sum_latency(s) == sum_latency(t) + x,
                0 <= sum_latency(t) <= t.len() * (u64::MAX as int),
                0 <= x <= u64::MAX as int,
        ;
    }
}

/// The body-size sum is bounded by the count times the largest size.
pub proof fn lemma_sum_sizes_bounds(s: Seq<RequestResult>)
    ensures
        0 <= sum_sizes(s) <= s.len() * (usize::MAX as int),
    decreases s.len(),
{
    if s.len() > 0 {
        lemma_sum_sizes_bounds(s.drop_last());
        let t = s.drop_last();
        let x = match s.last().response_size {
            Some(v) => v as int,
            None => 0int,
        };
        assert(sum_sizes(s) <= s.len() as int * (usize::MAX as int)) by (nonlinear_arith)
            requires
                s.len() as int == t.len() + 1,
                sum_sizes(s) == sum_sizes(t) + x,
                0 <= sum_sizes(t) <= t.len() * (usize::MAX as int),
                0 <= x <= usize::MAX as int,
        ;
    }
}

/// Truncating mean latency: total latency over the number of outcomes, 0 for
/// an empty run.
pub open spec fn spec_avg(s: Seq<RequestResult>) -> int {
    if s.len() == 0 {
        0
    } else {
        sum_latency(s) / s.len() as int
    }
}

/// Throughput in thousandths of a request per second, 0 when the measured
/// duration is zero.
pub open spec fn spec_throughput_milli(total: int, duration_ms: u64) -> int {
    if duration_ms == 0 {
        0
    } else {
        (total * 1000000) / (duration_ms as int)
    }
}

/// The named percentiles of the successful latencies: p50, p90, p95, p99 and
/// p99.9, each as (permille, latency). Empty when no outcome succeeded.
pub open spec fn spec_percentiles(s: Seq<RequestResult>) -> Seq<(u64, u64)> {
    if count_success(s) == 0 {
        Seq::empty()
    } else {
        let b = buckets_of(success_latencies(s));
        seq![
            (500u64, spec_value_at(b, 500)->Some_0),
            (900u64, spec_value_at(b, 900)->Some_0),
            (950u64, spec_value_at(b, 950)->Some_0),
            (990u64, spec_value_at(b, 990)->Some_0),
            (999u64, spec_value_at(b, 999)->Some_0),
        ]
    }
}

/// Results of a load test: the one immutable summary a completed run hands
/// to reporting.
///
/// All times are integer milliseconds. The mean is the truncating integer
/// mean; throughput is in thousandths of a request per second. The two tally
/// lists hold their keys in first-observation order. Timing statistics are
/// computed over every outcome's latency, successful or not; percentiles are
/// computed over successful outcomes only.
pub struct LoadTestResults {
    /// Total number of outcomes collected.
    pub total_requests: usize,
    /// Number of successful outcomes.
    pub successful_requests: usize,
    /// Number of failed outcomes.
    pub failed_requests: usize,
    /// Truncating mean latency in milliseconds, 0 for an empty run.
    pub average_response_time: u64,
    /// Smallest latency in milliseconds, 0 for an empty run.
    pub min_response_time: u64,
    /// Largest latency in milliseconds, 0 for an empty run.
    pub max_response_time: u64,
    /// Wall-clock span of the whole run, in milliseconds.
    pub duration_ms: u64,
    /// Count per observed status code, in first-observation order.
    pub status_codes: Vec<(u16, usize)>,
    /// Count per failure description, in first-observation order.
    pub errors: Vec<(String, usize)>,
    /// Every outcome, in completion order.
    pub requests: Vec<RequestResult>,
    /// Thousandths of a request per second, 0 when the duration is zero.
    pub throughput_milli: u128,
    /// Total bytes transferred, when every outcome carried a body size.
    pub total_data_transferred: Option<u128>,
    /// Latency percentiles of the successes as (permille, milliseconds):
    /// empty when nothing succeeded, else p50, p90, p95, p99, p99.9.
    pub percentiles: Vec<(u64, u64)>,
}

/// What it means for `r` to be the aggregate of the outcome sequence `reqs`
/// observed over `duration_ms`: every field is pinned as a function of the
/// two inputs.
pub open spec fn is_aggregate_of(r: LoadTestResults, reqs: Seq<RequestResult>, duration_ms: u64) -> bool {
    &&& r.total_requests == reqs.len()
    &&& r.successful_requests == count_success(reqs)
    &&& r.failed_requests == reqs.len() - count_success(reqs)
    &&& r.min_response_time == spec_min_latency(reqs)
    &&& r.max_response_time == spec_max_latency(reqs)
    &&& r.average_response_time == spec_avg(reqs)
    &&& r.duration_ms == duration_ms
    &&& r.throughput_milli == spec_throughput_milli(reqs.len() as int, duration_ms)
    &&& r.status_codes@ == spec_status_pairs(reqs)
    &&& error_views(r.errors@) == spec_error_pairs(reqs)
    &&& r.requests@ == reqs
    &&& r.total_data_transferred == (if all_sizes_known(reqs) {
        Option::Some(sum_sizes(reqs) as u128)
    } else {
        Option::<u128>::None
    })
    &&& r.percentiles@ == spec_percentiles(reqs)
}

/// Exactly as many outcomes come out as went in, and every one is either a
/// success or a failure: the two counters always sum to the total.
pub proof fn lemma_outcome_accounting(r: LoadTestResults, reqs: Seq<RequestResult>, duration_ms: u64)
    requires
        is_aggregate_of(r, reqs, duration_ms),
    ensures
        r.total_requests == reqs.len(),
        r.successful_requests + r.failed_requests == r.total_requests,
        r.successful_requests <= r.total_requests,
{
    lemma_count_success_le(reqs);
}

/// The mean latency lies between the extremes whenever there is at least one
/// outcome.
pub proof fn lemma_latency_ordering(s: Seq<RequestResult>)
    requires
        s.len() > 0,
    ensures
        spec_min_latency(s) <= spec_avg(s) <= spec_max_latency(s),
{
    lemma_latency_stats(s);
    let n = s.len() as int;
    let total = sum_latency(s);
    assert(spec_min_latency(s) <= total / n) by (nonlinear_arith)
        requires
            n >= 1,
            n * spec_min_latency(s) <= total,
            spec_min_latency(s) >= 0,
    ;
    assert(total / n <= spec_max_latency(s)) by (nonlinear_arith)
        requires
            n >= 1,
            total <= n * spec_max_latency(s),
            total >= 0,
            spec_max_latency(s) >= 0,
    ;
}

/// Aggregation is a pure function of the outcomes and the duration: two
/// aggregates of the same inputs agree on every observable field.
pub proof fn lemma_aggregate_deterministic(
    r1: LoadTestResults,
    r2: LoadTestResults,
    reqs: Seq<RequestResult>,
    duration_ms: u64,
)
    requires
        is_aggregate_of(r1, reqs, duration_ms),
        is_aggregate_of(r2, reqs, duration_ms),
    ensures
        r1.total_requests == r2.total_requests,
        r1.successful_requests == r2.successful_requests,
        r1.failed_requests == r2.failed_requests,
        r1.average_response_time == r2.average_response_time,
        r1.min_response_time == r2.min_response_time,
        r1.max_response_time == r2.max_response_time,
        r1.duration_ms == r2.duration_ms,
        r1.throughput_milli == r2.throughput_milli,
        r1.status_codes@ == r2.status_codes@,
        error_views(r1.errors@) == error_views(r2.errors@),
        r1.requests@ == r2.requests@,
        r1.total_data_transferred == r2.total_data_transferred,
        r1.percentiles@ == r2.percentiles@,
{
}

impl LoadTestResults {
    /// Add a request result and update the stats: the aggregate moves to
    /// exactly what aggregating the extended outcome list would produce.
    pub fn add_result(&mut self, result: RequestResult)
        requires
            is_aggregate_of(*old(self), old(self).requests@, old(self).duration_ms),
        ensures
            is_aggregate_of(
                *final(self),
                old(self).requests@.push(result),
                old(self).duration_ms,
            ),
    {
        let duration_ms = self.duration_ms;
        let mut reqs: Vec<RequestResult> = Vec::new();
        core::mem::swap(&mut reqs, &mut self.requests);
        reqs.push(result);
        *self = LoadTestResults::new(reqs, duration_ms);
    }

    /// Get a percentile value by its permille label (500 for p50 up to 999
    /// for p99.9): the latency recorded for it, or `None` when the run had
    /// no successes or the label is not one of the published percentiles.
    pub fn percentile(&self, permille: u64) -> (r: Option<u64>)
        ensures
            r.is_some() <==> exists|k: int|
                0 <= k < self.percentiles@.len() && #[trigger] self.percentiles@[k].0 == permille,
            r matches Some(v) ==> exists|k: int|
                0 <= k < self.percentiles@.len() && #[trigger] self.percentiles@[k] == (
                permille,
                v,
                ),
    {
        let ghost ps = self.percentiles@;
        let mut i: usize = 0;
        while i < self.percentiles.len()
            invariant
                self.percentiles@ == ps,
                0 <= i <= ps.len(),
                forall|m: int| 0 <= m < i ==> #[trigger] ps[m].0 != permille,
            decreases ps.len() - i,
        {
            let entry = self.percentiles[i];
            if entry.0 == permille {
                proof {
                    assert(ps[i as int] == (permille, entry.1));
                }
                return Some(entry.1);
            }
            i = i + 1;
        }
        None
    }
}

/// Percentile monotonicity at the aggregate: within one aggregate result,
/// the percentile values never decrease as the percentile grows.
pub proof fn lemma_percentiles_monotone(
    r: LoadTestResults,
    reqs: Seq<RequestResult>,
    duration_ms: u64,
)
    requires
        is_aggregate_of(r, reqs, duration_ms),
        reqs.len() <= usize::MAX,
    ensures
        forall|a: int, b: int|
            0 <= a < b < r.percentiles@.len() ==> #[trigger] r.percentiles@[a].1
                <= #[trigger] r.percentiles@[b].1,
{
    if count_success(reqs) > 0 {
        let lats = success_latencies(reqs);
        let bs = buckets_of(lats);
        lemma_count_success_le(reqs);
        lemma_success_latencies_len(reqs);
        lemma_buckets_of_wf(lats);
        assert forall|a: int, b: int|
            0 <= a < b < r.percentiles@.len() implies #[trigger] r.percentiles@[a].1
            <= #[trigger] r.percentiles@[b].1 by {
            let pa = r.percentiles@[a].0 as int;
            let pb = r.percentiles@[b].0 as int;
            lemma_value_at_monotone(bs, pa, pb);
        }
    }
}

/// Published percentiles are never invented numbers: each one is the bucket
/// representative of a latency that some successful outcome really had.
pub proof fn lemma_percentiles_are_observed(
    r: LoadTestResults,
    reqs: Seq<RequestResult>,
    duration_ms: u64,
)
    requires
        is_aggregate_of(r, reqs, duration_ms),
        reqs.len() <= usize::MAX,
    ensures
        forall|k: int|
            0 <= k < r.percentiles@.len() ==> is_bucket_key_of(
                success_latencies(reqs),
                #[trigger] r.percentiles@[k].1,
            ),
{
    if count_success(reqs) > 0 {
        let lats = success_latencies(reqs);
        lemma_count_success_le(reqs);
        lemma_success_latencies_len(reqs);
        assert forall|k: int| 0 <= k < r.percentiles@.len() implies is_bucket_key_of(
            lats,
            #[trigger] r.percentiles@[k].1,
        ) by {
            let b = buckets_of(lats);
            let p = r.percentiles@[k].0 as int;
            lemma_buckets_of_wf(lats);
            lemma_value_at_monotone(b, p, p);
            lemma_value_at_is_representative(lats, p);
            assert(r.percentiles@[k].1 == spec_value_at(b, p)->Some_0);
        }
    }
}

impl LoadTestResults {
    /// Create a new LoadTestResults: fold a completed run's outcomes and its
    /// wall-clock duration into the aggregate summary. A pure function of
    /// its two arguments; an empty run yields all-zero statistics and no
    /// percentiles rather than any division error.
    #[verifier::rlimit(100)]
    pub fn new(requests: Vec<RequestResult>, duration_ms: u64) -> (r: LoadTestResults)
        ensures
            is_aggregate_of(r, requests@, duration_ms),
            pairs_map(r.status_codes@) == spec_status_counts(requests@),
            pairs_map(error_views(r.errors@)) == spec_error_counts(requests@),
            r.successful_requests + r.failed_requests == r.total_requests,
            r.total_requests == requests@.len(),
            requests@.len() > 0 ==> r.min_response_time <= r.average_response_time
                <= r.max_response_time,
            requests@.len() == 0 ==> {
                &&& r.total_requests == 0
                &&& r.successful_requests == 0
                &&& r.failed_requests == 0
                &&& r.average_response_time == 0
                &&& r.min_response_time == 0
                &&& r.max_response_time == 0
                &&& r.throughput_milli == 0
                &&& r.status_codes@.len() == 0
                &&& r.errors@.len() == 0
                &&& r.percentiles@.len() == 0
            },
    {
        let ghost rs = requests@;
        let n = requests.len();
        let mut succ: usize = 0;
        let mut sum: u128 = 0;
        let mut min_ms: u64 = 0;
        let mut max_ms: u64 = 0;
        let mut all_known: bool = true;
        let mut data_sum: u128 = 0;
        let mut status_codes: Vec<(u16, usize)> = Vec::new();
        let mut errors: Vec<(String, usize)> = Vec::new();
        let mut hist = LatencyHistogram::new();
        let mut i: usize = 0;
        proof {
            assert(rs.take(0) =~= Seq::<RequestResult>::empty());
        }
        while i < n
            invariant
                requests@ == rs,
                n == rs.len(),
                0 <= i <= n,
                succ == count_success(rs.take(i as int)),
                sum == sum_latency(rs.take(i as int)),
                i > 0 ==> min_ms == spec_min_latency(rs.take(i as int)),
                i == 0 ==> min_ms == 0,
                max_ms == spec_max_latency(rs.take(i as int)),
                status_codes@ == spec_status_pairs(rs.take(i as int)),
                error_views(errors@) == spec_error_pairs(rs.take(i as int)),
                hist.wf(),
                hist@ == buckets_of(success_latencies(rs.take(i as int))),
                hist.total_count() == count_success(rs.take(i as int)),
                all_known == all_sizes_known(rs.take(i as int)),
                data_sum == sum_sizes(rs.take(i as int)),
            decreases n - i,
        {
            let ghost pre = rs.take(i as int);
            let ghost post = rs.take(i as int + 1);
            proof {
                assert(post.drop_last() =~= pre);
                assert(post.last() == rs[i as int]);
                lemma_count_success_le(pre);
                lemma_latency_stats(pre);
                lemma_sum_sizes_bounds(pre);
            }
            let req = &requests[i];
            let x = req.response_time;

            // counters and latency extremes
            if req.success {
                succ = succ + 1;
            }
            proof {
                assert(sum + x <= u128::MAX) by (nonlinear_arith)
                    requires
                        sum <= (i as int) * (u64::MAX as int),
                        x <= u64::MAX,
                        i as int <= 0xffff_ffff_ffff_ffff,
                ;
            }
            sum = sum + (x as u128);
            if i == 0 {
                min_ms = x;
            } else if x < min_ms {
                min_ms = x;
            }
            if x > max_ms {
                max_ms = x;
            }

            // status-code tally
            if let Some(code) = req.status {
                let ghost ps = status_codes@;
                proof {
                    lemma_status_tally(pre);
                }
                let mut j: usize = 0;
                while j < status_codes.len() && status_codes[j].0 != code
                    invariant
                        status_codes@ == ps,
                        0 <= j <= ps.len(),
                        forall|m: int| 0 <= m < j ==> ps[m].0 != code,
                    decreases ps.len() - j,
                {
                    j = j + 1;
                }
                proof {
                    lemma_bump_skip(ps, code, j as int);
                }
                if j < status_codes.len() {
                    let entry = status_codes[j];
                    proof {
                        lemma_key_value(ps, j as int);
                        assert(ps.skip(j as int)[0] == ps[j as int]);
                        assert(bump_key(ps.skip(j as int), code) =~= seq![
                            (code, (entry.1 + 1) as usize),
                        ] + ps.skip(j as int).drop_first());
                    }
                    status_codes.remove(j);
                    status_codes.insert(j, (code, entry.1 + 1));
                    proof {
                        assert(status_codes@ =~= ps.take(j as int) + bump_key(
                            ps.skip(j as int),
                            code,
                        ));
                    }
                } else {
                    proof {
                        assert(ps.skip(j as int) =~= Seq::<(u16, usize)>::empty());
                        assert(bump_key(ps.skip(j as int), code) =~= seq![(code, 1usize)]);
                    }
                    status_codes.push((code, 1));
                    proof {
                        assert(status_codes@ =~= ps.take(j as int) + bump_key(
                            ps.skip(j as int),
                            code,
                        ));
                    }
                }
            }

            // error tally, at the level of message contents
            if let Some(e) = &req.error {
                let ghost eps = error_views(errors@);
                let ghost ek = e@;
                proof {
                    lemma_error_tally(pre);
                }
                let mut j: usize = 0;
                while j < errors.len()
                    invariant
                        ek == e@,
                        error_views(errors@) == eps,
                        errors@.len() == eps.len(),
                        0 <= j <= eps.len(),
                        forall|m: int| 0 <= m < j ==> eps[m].0 != ek,
                        forall|m: int|
                            0 <= m < errors@.len() ==> #[trigger] eps[m] == (
                                errors@[m].0@,
                                errors@[m].1,
                            ),
                    ensures
                        ek == e@,
                        error_views(errors@) == eps,
                        errors@.len() == eps.len(),
                        0 <= j <= eps.len(),
                        forall|m: int| 0 <= m < j ==> eps[m].0 != ek,
                        j < eps.len() ==> eps[j as int].0 == ek,
                        forall|m: int|
                            0 <= m < errors@.len() ==> #[trigger] eps[m] == (
                                errors@[m].0@,
                                errors@[m].1,
                            ),
                    decreases eps.len() - j,
                {
                    let entry_ref = &errors[j];
                    let same = string_eq(&entry_ref.0, e);
                    proof {
                        assert(eps[j as int] == (errors@[j as int].0@, errors@[j as int].1));
                        assert(same == (eps[j as int].0 == ek));
                    }
                    if same {
                        break;
                    }
                    j = j + 1;
                }
                proof {
                    lemma_bump_skip(eps, ek, j as int);
                }
                if j < errors.len() {
                    let entry = errors.remove(j);
                    let ghost cnt = entry.1 as int;
                    proof {
                        lemma_key_value(eps, j as int);
                        assert(eps.skip(j as int)[0] == eps[j as int]);
                        assert(bump_key(eps.skip(j as int), ek) =~= seq![
                            (ek, (cnt + 1) as usize),
                        ] + eps.skip(j as int).drop_first());
                    }
                    errors.insert(j, (entry.0, entry.1 + 1));
                    proof {
                        assert(error_views(errors@) =~= eps.take(j as int) + bump_key(
                            eps.skip(j as int),
                            ek,
                        ));
                    }
                } else {
                    proof {
                        assert(eps.skip(j as int) =~= Seq::<(Seq<char>, usize)>::empty());
                        assert(bump_key(eps.skip(j as int), ek) =~= seq![(ek, 1usize)]);
                    }
                    errors.push((e.clone(), 1));
                    proof {
                        assert(error_views(errors@) =~= eps.take(j as int) + bump_key(
                            eps.skip(j as int),
                            ek,
                        ));
                    }
                }
            }

            // percentile samples: successful latencies only
            if req.success {
                let ghost l_pre = success_latencies(pre);
                hist.record(x);
                proof {
                    assert(success_latencies(post) == l_pre.push(x));
                    assert(l_pre.push(x).drop_last() =~= l_pre);
                    assert(l_pre.push(x).last() == x);
                    assert(buckets_of(l_pre.push(x)) == spec_record(
                        buckets_of(l_pre),
                        spec_bucket_key(x),
                    ));
                }
            } else {
                proof {
                    assert(success_latencies(post) == success_latencies(pre));
                }
            }

            // transferred data
            match req.response_size {
                Some(sz) => {
                    proof {
                        assert(data_sum + sz <= u128::MAX) by (nonlinear_arith)
                            requires
                                data_sum <= (i as int) * (usize::MAX as int),
                                sz <= usize::MAX,
                                i as int <= 0xffff_ffff_ffff_ffff,
                                usize::MAX as int <= 0xffff_ffff_ffff_ffff,
                        ;
                    }
                    data_sum = data_sum + (sz as u128);
                },
                None => {
                    all_known = false;
                },
            }
            i = i + 1;
        }
        proof {
            assert(rs.take(n as int) =~= rs);
            lemma_count_success_le(rs);
            lemma_latency_stats(rs);
            lemma_sum_sizes_bounds(rs);
            lemma_status_tally(rs);
            lemma_error_tally(rs);
            lemma_success_latencies_len(rs);
            if n > 0 {
                lemma_latency_ordering(rs);
            }
        }
        let average_response_time: u64 = if n == 0 {
            0
        } else {
            proof {
                assert(sum / (n as u128) <= u64::MAX) by (nonlinear_arith)
                    requires
                        n >= 1,
                        sum <= (n as int) * (u64::MAX as int),
                ;
            }
            (sum / (n as u128)) as u64
        };
        let throughput_milli: u128 = if duration_ms == 0 {
            0
        } else {
            (n as u128) * 1000000 / (duration_ms as u128)
        };
        let total_data_transferred: Option<u128> = if all_known {
            Some(data_sum)
        } else {
            None
        };
        let mut percentiles: Vec<(u64, u64)> = Vec::new();
        if succ > 0 {
            let p50 = hist.value_at_permille(500).unwrap();
            let p90 = hist.value_at_permille(900).unwrap();
            let p95 = hist.value_at_permille(950).unwrap();
            let p99 = hist.value_at_permille(990).unwrap();
            let p999 = hist.value_at_permille(999).unwrap();
            percentiles.push((500, p50));
            percentiles.push((900, p90));
            percentiles.push((950, p95));
            percentiles.push((990, p99));
            percentiles.push((999, p999));
            proof {
                assert(percentiles@ =~= spec_percentiles(rs));
            }
        } else {
            proof {
                assert(percentiles@ =~= spec_percentiles(rs));
            }
        }
        let total_requests = n;
        let failed_requests = n - succ;
        LoadTestResults {
            total_requests,
            successful_requests: succ,
            failed_requests,
            average_response_time,
            min_response_time: min_ms,
            max_response_time: max_ms,
            duration_ms,
            status_codes,
            errors,
            requests,
            throughput_milli,
            total_data_transferred,
            percentiles,
        }
    }
}

} // verus!
