//! Service-level agreements: which requests a criterion measures, their
//! totals, and which breach stops a run. The measured values themselves
//! are floating-point quotients of these totals.

use crate::engine::reporting::{RealTimeEndpointStats, RealTimeMetrics};
use crate::engine::BztError;
use crate::models::config::{SlaAction, SlaMetric};
use vstd::prelude::*;
use vstd::string::StringExecFns;

verus! {

/// The request statistics of one endpoint after a run.
#[derive(Debug, Clone)]
pub struct RequestAggregate {
    pub path: String,
    pub method: String,
    pub success_count: usize,
    pub fail_count: usize,
    pub counter: usize,
    pub total_time: usize,
    pub minimum_time: usize,
    pub maximum_time: usize,
    /// Response times in ascending order, each with how many requests took
    /// it.
    pub times: Vec<(usize, usize)>,
}

/// The outcome of one criterion: the measured and allowed values as `f32`
/// bit patterns, whether it passed, and what a breach does.
#[derive(Debug, Clone)]
pub struct SlaResult {
    pub metric: SlaMetric,
    pub actual_bits: u32,
    pub threshold_bits: u32,
    pub passed: bool,
    pub action: SlaAction,
    pub subject: Option<String>,
}

/// The totals that a criterion's value is computed from.
#[derive(Debug, Clone, Copy, PartialEq, Eq, Structural)]
pub struct SlaTotals {
    /// Requests, failed ones included.
    pub requests: usize,
    /// Failed requests.
    pub failures: usize,
    /// The sum of the timed requests' times.
    pub total_time: usize,
    /// The number of timed requests.
    pub timed: usize,
}

/// The name under which a metric is written in messages.
pub open spec fn metric_name(m: SlaMetric) -> Seq<char> {
    match m {
        SlaMetric::FailRate => "FailRate"@,
        SlaMetric::AvgResponseTime => "AvgResponseTime"@,
        SlaMetric::P90ResponseTime => "P90ResponseTime"@,
        SlaMetric::P95ResponseTime => "P95ResponseTime"@,
        SlaMetric::P99ResponseTime => "P99ResponseTime"@,
        SlaMetric::Throughput => "Throughput"@,
    }
}

/// The name under which a metric is written in messages.
pub fn metric_label(m: SlaMetric) -> (s: String)
    ensures
        s@ == metric_name(m),
{
    match m {
        SlaMetric::FailRate => String::from_str("FailRate"),
        SlaMetric::AvgResponseTime => String::from_str("AvgResponseTime"),
        SlaMetric::P90ResponseTime => String::from_str("P90ResponseTime"),
        SlaMetric::P95ResponseTime => String::from_str("P95ResponseTime"),
        SlaMetric::P99ResponseTime => String::from_str("P99ResponseTime"),
        SlaMetric::Throughput => String::from_str("Throughput"),
    }
}

/// The position of the first result, from `i` on, that failed with a stop
/// action.
pub open spec fn first_stop_breach(results: Seq<SlaResult>, i: int) -> Option<int>
    decreases results.len() - i,
{
    if i < 0 || i >= results.len() {
        None
    } else if !results[i].passed && results[i].action is Stop {
        Some(i)
    } else {
        first_stop_breach(results, i + 1)
    }
}

/// The breach that stops a run is the first result that failed with a stop
/// action: it failed, its action is stop, and every result before it
/// passed or has another action; when there is none, no result failed
/// with a stop action.
pub proof fn lemma_first_stop_breach(results: Seq<SlaResult>, i: int)
    requires
        0 <= i,
    ensures
        match first_stop_breach(results, i) {
            Some(j) => i <= j < results.len() && !results[j].passed && results[j].action is Stop && forall|
                m: int,
            | i <= m < j ==> (#[trigger] results[m]).passed || !(results[m].action is Stop),
            None => forall|m: int| i <= m < results.len() ==> (#[trigger] results[m]).passed || !(
            results[m].action is Stop),
        },
    decreases results.len() - i,
{
    if i < results.len() {
        lemma_first_stop_breach(results, i + 1);
    }
}

/// The requests a criterion with `subject` measures: those with that path,
/// or all of them.
pub open spec fn selected(r: RequestAggregate, subject: Option<Seq<char>>) -> bool {
    match subject {
        Some(s) => r.path@ == s,
        None => true,
    }
}

/// The totals of the selected requests among the first `k`.
pub open spec fn aggregate_totals(reqs: Seq<RequestAggregate>, subject: Option<Seq<char>>, k: int) -> (
    int,
    int,
    int,
    int,
)
    decreases k,
{
    if k <= 0 {
        (0, 0, 0, 0)
    } else {
        let t = aggregate_totals(reqs, subject, k - 1);
        let r = reqs[k - 1];
        if selected(r, subject) {
            (
                t.0 + r.success_count + r.fail_count,
                t.1 + r.fail_count,
                t.2 + r.total_time,
                t.3 + r.counter,
            )
        } else {
            t
        }
    }
}

/// Each request adds to the totals of a criterion exactly when the
/// criterion measures it: with a subject, a request with that path adds
/// its requests (successes and failures), failures, time and timed
/// requests, and a request with another path adds nothing; without a
/// subject every request adds them.
pub proof fn lemma_aggregate_totals_step(reqs: Seq<RequestAggregate>, subject: Option<Seq<char>>, k: int)
    requires
        0 < k <= reqs.len(),
    ensures
        (subject is None || subject == Some(reqs[k - 1].path@)) ==> aggregate_totals(reqs, subject, k) == (
            aggregate_totals(reqs, subject, k - 1).0 + reqs[k - 1].success_count + reqs[k - 1].fail_count,
            aggregate_totals(reqs, subject, k - 1).1 + reqs[k - 1].fail_count,
            aggregate_totals(reqs, subject, k - 1).2 + reqs[k - 1].total_time,
            aggregate_totals(reqs, subject, k - 1).3 + reqs[k - 1].counter,
        ),
        (subject is Some && subject != Some(reqs[k - 1].path@)) ==> aggregate_totals(reqs, subject, k)
            == aggregate_totals(reqs, subject, k - 1),
{
}

/// Totals only grow along the list.
proof fn lemma_aggregate_totals_monotonic(
    reqs: Seq<RequestAggregate>,
    subject: Option<Seq<char>>,
    j: int,
    k: int,
)
    requires
        0 <= j <= k,
    ensures
        aggregate_totals(reqs, subject, j).0 <= aggregate_totals(reqs, subject, k).0,
        aggregate_totals(reqs, subject, j).1 <= aggregate_totals(reqs, subject, k).1,
        aggregate_totals(reqs, subject, j).2 <= aggregate_totals(reqs, subject, k).2,
        aggregate_totals(reqs, subject, j).3 <= aggregate_totals(reqs, subject, k).3,
    decreases k - j,
{
    if j < k {
        lemma_aggregate_totals_monotonic(reqs, subject, j, k - 1);
    }
}

/// The four totals all fit in a `usize`.
pub open spec fn totals_fit(t: (int, int, int, int)) -> bool {
    t.0 <= usize::MAX && t.1 <= usize::MAX && t.2 <= usize::MAX && t.3 <= usize::MAX
}

/// The totals as exact numbers.
pub open spec fn totals_view(t: SlaTotals) -> (int, int, int, int) {
    (t.requests as int, t.failures as int, t.total_time as int, t.timed as int)
}

/// The view of an optional subject.
pub open spec fn subject_view(s: Option<&str>) -> Option<Seq<char>> {
    match s {
        Some(x) => Some(x@),
        None => None,
    }
}

/// Evaluates service-level criteria.
pub struct SlaEngine;

impl SlaEngine {
    /// The first breached criterion with a stop action fails the run with
    /// an SLA violation naming its metric and values; otherwise the run
    /// passes.
    pub fn check_breaches(results: &[SlaResult]) -> (r: Result<(), BztError>)
        ensures
            match first_stop_breach(results@, 0) {
                Some(i) => r matches Err(e) && e matches BztError::SlaViolation {
                    metric,
                    actual_bits,
                    threshold_bits,
                } && metric@ == metric_name(results@[i].metric) && actual_bits == results@[i].actual_bits
                    && threshold_bits == results@[i].threshold_bits,
                None => r is Ok,
            },
    {
        let mut i: usize = 0;
        while i < results.len()
            invariant
                i <= results@.len(),
                first_stop_breach(results@, 0) == first_stop_breach(results@, i as int),
            decreases results@.len() - i,
        {
            let r = &results[i];
            if !r.passed && r.action.is_stop() {
                return Err(
                    BztError::SlaViolation {
                        metric: metric_label(r.metric),
                        actual_bits: r.actual_bits,
                        threshold_bits: r.threshold_bits,
                    },
                );
            }
            i = i + 1;
        }
        Ok(())
    }

    /// The totals of the requests a criterion with `subject` measures
    /// after a run: requests (successes and failures), failures, summed
    /// time and timed requests.
    pub fn totals(requests: &Vec<RequestAggregate>, subject: Option<&str>) -> (t: SlaTotals)
        requires
            totals_fit(aggregate_totals(requests@, subject_view(subject), requests@.len() as int)),
        ensures
            totals_view(t) == aggregate_totals(requests@, subject_view(subject), requests@.len() as int),
    {
        let ghost sv = subject_view(subject);
        let mut t = SlaTotals { requests: 0, failures: 0, total_time: 0, timed: 0 };
        let mut i: usize = 0;
        while i < requests.len()
            invariant
                i <= requests@.len(),
                sv == subject_view(subject),
                totals_fit(aggregate_totals(requests@, sv, requests@.len() as int)),
                totals_view(t) == aggregate_totals(requests@, sv, i as int),
            decreases requests@.len() - i,
        {
            proof {
                lemma_aggregate_totals_monotonic(requests@, sv, i + 1, requests@.len() as int);
            }
            let r = &requests[i];
            let take = match subject {
                Some(s) => crate::text::str_eq(r.path.as_str(), s),
                None => true,
            };
            if take {
                t = SlaTotals {
                    requests: t.requests + r.success_count + r.fail_count,
                    failures: t.failures + r.fail_count,
                    total_time: t.total_time + r.total_time,
                    timed: t.timed + r.counter,
                };
            }
            i = i + 1;
        }
        t
    }
}

/// The live totals of the endpoints among the first `k` (in the metrics'
/// order) that a criterion with `subject` measures.
pub open spec fn live_totals(
    names: Seq<Seq<char>>,
    eps: Map<Seq<char>, RealTimeEndpointStats>,
    subject: Option<Seq<char>>,
    k: int,
) -> (int, int, int, int)
    decreases k,
{
    if k <= 0 {
        (0, 0, 0, 0)
    } else {
        let t = live_totals(names, eps, subject, k - 1);
        let e = eps[names[k - 1]];
        let take = match subject {
            Some(s) => names[k - 1] == s,
            None => true,
        };
        if take {
            (t.0 + e.count, t.1 + e.failures, t.2 + e.total_time_ms, t.3 + e.count)
        } else {
            t
        }
    }
}

proof fn lemma_live_totals_monotonic(
    names: Seq<Seq<char>>,
    eps: Map<Seq<char>, RealTimeEndpointStats>,
    subject: Option<Seq<char>>,
    j: int,
    k: int,
)
    requires
        0 <= j <= k,
    ensures
        live_totals(names, eps, subject, j).0 <= live_totals(names, eps, subject, k).0,
        live_totals(names, eps, subject, j).1 <= live_totals(names, eps, subject, k).1,
        live_totals(names, eps, subject, j).2 <= live_totals(names, eps, subject, k).2,
        live_totals(names, eps, subject, j).3 <= live_totals(names, eps, subject, k).3,
    decreases k - j,
{
    if j < k {
        lemma_live_totals_monotonic(names, eps, subject, j, k - 1);
    }
}

/// The statistics of one endpoint as totals: its requests, failures,
/// summed time, and its requests again as the timed ones.
pub open spec fn endpoint_totals(e: RealTimeEndpointStats) -> (int, int, int, int) {
    (e.count as int, e.failures as int, e.total_time_ms as int, e.count as int)
}

proof fn lemma_live_totals_prefix(
    names: Seq<Seq<char>>,
    eps: Map<Seq<char>, RealTimeEndpointStats>,
    s: Seq<char>,
    k: int,
)
    requires
        0 <= k <= names.len(),
        forall|i: int, j: int|
            0 <= i < names.len() && 0 <= j < names.len() && i != j ==> #[trigger] names[i] != #[trigger] names[j],
    ensures
        live_totals(names, eps, Some(s), k) == if exists|i: int| 0 <= i < k && #[trigger] names[i] == s {
            endpoint_totals(eps[s])
        } else {
            (0int, 0int, 0int, 0int)
        },
    decreases k,
{
    if k > 0 {
        lemma_live_totals_prefix(names, eps, s, k - 1);
        if names[k - 1] == s {
            assert forall|i: int| 0 <= i < k - 1 implies #[trigger] names[i] != s by {
                assert(names[i] != names[k - 1]);
            }
        } else {
            if exists|i: int| 0 <= i < k && #[trigger] names[i] == s {
                let i = choose|i: int| 0 <= i < k && #[trigger] names[i] == s;
                assert(i < k - 1);
            }
        }
    }
}

/// Without a subject, every endpoint adds its statistics to the live
/// totals.
pub proof fn lemma_live_totals_all_step(
    names: Seq<Seq<char>>,
    eps: Map<Seq<char>, RealTimeEndpointStats>,
    k: int,
)
    requires
        0 < k <= names.len(),
    ensures
        live_totals(names, eps, None, k) == (
            live_totals(names, eps, None, k - 1).0 + eps[names[k - 1]].count,
            live_totals(names, eps, None, k - 1).1 + eps[names[k - 1]].failures,
            live_totals(names, eps, None, k - 1).2 + eps[names[k - 1]].total_time_ms,
            live_totals(names, eps, None, k - 1).3 + eps[names[k - 1]].count,
        ),
{
}

/// With a subject, the live totals are the statistics of the endpoint of
/// that name alone (all zero when there is none): endpoints with other
/// names contribute nothing. `names` lists the endpoints of `eps`, each
/// once.
pub proof fn lemma_live_totals_of_subject(
    names: Seq<Seq<char>>,
    eps: Map<Seq<char>, RealTimeEndpointStats>,
    s: Seq<char>,
)
    requires
        forall|i: int, j: int|
            0 <= i < names.len() && 0 <= j < names.len() && i != j ==> #[trigger] names[i] != #[trigger] names[j],
        forall|i: int| 0 <= i < names.len() ==> eps.dom().contains(#[trigger] names[i]),
        forall|k: Seq<char>| #[trigger]
            eps.dom().contains(k) ==> exists|i: int| 0 <= i < names.len() && #[trigger] names[i] == k,
    ensures
        live_totals(names, eps, Some(s), names.len() as int) == if eps.contains_key(s) {
            endpoint_totals(eps[s])
        } else {
            (0int, 0int, 0int, 0int)
        },
{
    lemma_live_totals_prefix(names, eps, s, names.len() as int);
    if eps.contains_key(s) {
        assert(eps.dom().contains(s));
    } else {
        if exists|i: int| 0 <= i < names.len() && #[trigger] names[i] == s {
            let i = choose|i: int| 0 <= i < names.len() && #[trigger] names[i] == s;
            assert(eps.dom().contains(names[i]));
        }
    }
}

impl SlaEngine {
    /// The live totals of the endpoints a criterion with `subject`
    /// measures: the named endpoint, or all of them.
    pub fn live_totals(metrics: &RealTimeMetrics, subject: Option<&str>) -> (t: SlaTotals)
        requires
            totals_fit(
                live_totals(
                    metrics.endpoints.keys(),
                    metrics.endpoints@,
                    subject_view(subject),
                    metrics.endpoints.len_spec() as int,
                ),
            ),
        ensures
            totals_view(t) == live_totals(
                metrics.endpoints.keys(),
                metrics.endpoints@,
                subject_view(subject),
                metrics.endpoints.len_spec() as int,
            ),
            subject matches Some(s) ==> totals_view(t) == if metrics.endpoints@.contains_key(s@) {
                endpoint_totals(metrics.endpoints@[s@])
            } else {
                (0int, 0int, 0int, 0int)
            },
    {
        let ghost sv = subject_view(subject);
        let eps = &metrics.endpoints;
        let n = eps.len();
        let mut t = SlaTotals { requests: 0, failures: 0, total_time: 0, timed: 0 };
        let mut i: usize = 0;
        while i < n
            invariant
                n == eps.len_spec(),
                eps.keys().len() == n,
                i <= n,
                sv == subject_view(subject),
                totals_fit(live_totals(eps.keys(), eps@, sv, n as int)),
                totals_view(t) == live_totals(eps.keys(), eps@, sv, i as int),
            decreases n - i,
        {
            proof {
                lemma_live_totals_monotonic(eps.keys(), eps@, sv, i + 1, n as int);
            }
            let name = eps.key_at(i);
            let e = eps.value_at(i);
            let take = match subject {
                Some(s) => crate::text::str_eq(name.as_str(), s),
                None => true,
            };
            if take {
                t = SlaTotals {
                    requests: t.requests + e.count,
                    failures: t.failures + e.failures,
                    total_time: t.total_time + e.total_time_ms,
                    timed: t.timed + e.count,
                };
            }
            i = i + 1;
        }
        proof {
            if subject is Some {
                lemma_live_totals_of_subject(eps.keys(), eps@, sv->0);
            }
        }
        t
    }
}

} // verus!
