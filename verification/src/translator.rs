//! The decisions that turn a configuration into a load test: default host,
//! think times, run settings per execution plan, and the steps of one
//! request (whether it runs, whether its loop goes on, whether a failed
//! send is retried, what its metrics are recorded under).

use crate::engine::control_flow::{
    comparator_order, comparator_well_behaved, condition_holds, ControlFlowEngine, FloatOrder,
};
use crate::engine::interpolation::{interpolated, Interpolator};
use crate::engine::reporting::{record_fits, RealTimeMetrics, RealTimeEndpointStats, recorded, first_record};
use crate::engine::utils::{parse_time_to_ms, time_ms};
use crate::models::config::{
    Configuration, DetailedRequest, ExecutionPlan, HTTPRequestDefinition, HttpMethod,
    ReportingDefinition, ScenarioDefinition,
};
use crate::strmap::StrMap;
use crate::text::{
    char_pos, chars_of, contains, find_first, find_in, lemma_char_pos, lemma_find_first,
    starts_with, starts_with_in, str_eq, string_of, sub_string,
};
use vstd::prelude::*;
use vstd::string::StringExecFns;

verus! {

// ---------------------------------------------------------------------------
// Default host
// ---------------------------------------------------------------------------

/// The URL of a request.
pub open spec fn request_url(r: HTTPRequestDefinition) -> Seq<char> {
    match r {
        HTTPRequestDefinition::Simple(u) => u@,
        HTTPRequestDefinition::Detailed(d) => d.url@,
    }
}

/// A URL with a scheme the load test can target.
pub open spec fn has_known_scheme(u: Seq<char>) -> bool {
    starts_with(u, "http://"@) || starts_with(u, "https://"@) || starts_with(u, "ws://"@)
        || starts_with(u, "wss://"@) || starts_with(u, "grpc://"@)
}

/// The position of the first `/`, `?` or `#` in `s`, or its length.
pub open spec fn host_end(s: Seq<char>) -> int
    decreases s.len(),
{
    if s.len() == 0 {
        0
    } else if s[0] == '/' || s[0] == '?' || s[0] == '#' {
        0
    } else {
        1 + host_end(s.drop_first())
    }
}

/// The scheme and host of a URL with a known scheme (`scheme://host`), when
/// its host is not empty.
pub open spec fn url_origin(u: Seq<char>) -> Option<Seq<char>> {
    if !has_known_scheme(u) {
        None
    } else {
        match find_first(u, "://"@) {
            Some(i) => {
                let rest = u.skip(i + 3);
                let host = rest.take(host_end(rest));
                if host.len() > 0 {
                    Some(u.take(i) + "://"@ + host)
                } else {
                    None
                }
            },
            None => None,
        }
    }
}

/// The first origin among the first `k` requests, in order.
pub open spec fn first_origin(reqs: Seq<HTTPRequestDefinition>, k: int, i: int) -> Option<Seq<char>>
    decreases k - i,
{
    if i < 0 || i >= k {
        None
    } else {
        match url_origin(request_url(reqs[i])) {
            Some(o) => Some(o),
            None => first_origin(reqs, k, i + 1),
        }
    }
}

proof fn lemma_host_end(s: Seq<char>)
    ensures
        0 <= host_end(s) <= s.len(),
        forall|j: int| 0 <= j < host_end(s) ==> s[j] != '/' && s[j] != '?' && s[j] != '#',
        host_end(s) < s.len() ==> (s[host_end(s)] == '/' || s[host_end(s)] == '?' || s[host_end(s)] == '#'),
    decreases s.len(),
{
    if s.len() > 0 && !(s[0] == '/' || s[0] == '?' || s[0] == '#') {
        lemma_host_end(s.drop_first());
        assert forall|j: int| 0 < j < host_end(s) implies s[j] == s.drop_first()[j - 1] by {}
    }
}

fn url_origin_exec(url: &str) -> (r: Option<String>)
    ensures
        r matches Some(o) ==> url_origin(url@) == Some(o@),
        r is None ==> url_origin(url@) is None,
{
    let v = chars_of(url);
    assert(v@.subrange(0, v@.len() as int) =~= v@);
    let schemes = vec!["http://", "https://", "ws://", "wss://", "grpc://"];
    let mut known = false;
    let mut k: usize = 0;
    while k < schemes.len()
        invariant
            k <= schemes@.len(),
            schemes@ == seq!["http://", "https://", "ws://", "wss://", "grpc://"],
            v@ == url@,
            v@.subrange(0, v@.len() as int) == v@,
            known == exists|j: int| 0 <= j < k && starts_with(v@, (#[trigger] schemes@[j])@),
        decreases schemes@.len() - k,
    {
        let p = chars_of(schemes[k]);
        let hit = starts_with_in(&v, 0, v.len(), &p);
        assert(hit == starts_with(v@, schemes@[k as int]@));
        if hit {
            known = true;
        }
        k = k + 1;
    }
    assert(known == has_known_scheme(url@)) by {
        if has_known_scheme(url@) {
            if starts_with(url@, "http://"@) {
                assert(starts_with(v@, schemes@[0]@));
            } else if starts_with(url@, "https://"@) {
                assert(starts_with(v@, schemes@[1]@));
            } else if starts_with(url@, "ws://"@) {
                assert(starts_with(v@, schemes@[2]@));
            } else if starts_with(url@, "wss://"@) {
                assert(starts_with(v@, schemes@[3]@));
            } else {
                assert(starts_with(v@, schemes@[4]@));
            }
        }
    }
    if !known {
        return None;
    }
    let sep = chars_of("://");
    let pos = find_in(&v, 0, v.len(), &sep);
    match pos {
        Some(i) => {
            proof {
                reveal_strlit("://");
            }
            let start = i + 3;
            let mut end = start;
            let ghost rest = v@.skip(start as int);
            proof {
                lemma_host_end(rest);
            }
            while end < v.len() && v[end] != '/' && v[end] != '?' && v[end] != '#'
                invariant
                    start <= end <= v@.len(),
                    rest == v@.skip(start as int),
                    0 <= host_end(rest) <= rest.len(),
                    forall|j: int| 0 <= j < host_end(rest) ==> rest[j] != '/' && rest[j] != '?' && rest[j] != '#',
                    host_end(rest) < rest.len() ==> (rest[host_end(rest)] == '/' || rest[host_end(rest)] == '?' || rest[host_end(rest)] == '#'),
                    end - start <= host_end(rest),
                decreases v@.len() - end,
            {
                end = end + 1;
            }
            proof {
                if end < v.len() {
                    assert(rest[end - start] == v@[end as int]);
                }
            }
            assert(end - start == host_end(rest));
            if end == start {
                return None;
            }
            let mut o = sub_string(&v, 0, i);
            o.append("://");
            o.append(sub_string(&v, start, end).as_str());
            assert(rest.take(host_end(rest)) =~= v@.subrange(start as int, end as int));
            assert(v@.subrange(0, i as int) =~= v@.take(i as int));
            Some(o)
        },
        None => None,
    }
}

/// The host to target when none is given: the scheme and host of the first
/// request whose URL has a known scheme (`http`, `https`, `ws`, `wss`,
/// `grpc`) and a host.
pub fn extract_default_host(scenario_def: &ScenarioDefinition) -> (r: Option<String>)
    ensures
        match first_origin(scenario_def.requests@, scenario_def.requests@.len() as int, 0) {
            Some(o) => r matches Some(h) && h@ == o,
            None => r is None,
        },
{
    let reqs = &scenario_def.requests;
    let mut i: usize = 0;
    while i < reqs.len()
        invariant
            i <= reqs@.len(),
            reqs@ == scenario_def.requests@,
            first_origin(reqs@, reqs@.len() as int, 0) == first_origin(reqs@, reqs@.len() as int, i as int),
        decreases reqs@.len() - i,
    {
        let url: &str = match &reqs[i] {
            HTTPRequestDefinition::Simple(u) => u.as_str(),
            HTTPRequestDefinition::Detailed(d) => d.url.as_str(),
        };
        assert(url@ == request_url(reqs@[i as int]));
        match url_origin_exec(url) {
            Some(o) => {
                assert(first_origin(reqs@, reqs@.len() as int, i as int) == Some(o@));
                return Some(o);
            },
            None => {},
        }
        i = i + 1;
    }
    None
}

// ---------------------------------------------------------------------------
// Think time and run settings
// ---------------------------------------------------------------------------

/// The think-time range of `s` in milliseconds: `min-max` gives the times
/// before and after the first `-` (up to the next one); anything else is a
/// fixed time.
pub open spec fn think_time_range(s: Seq<char>) -> (int, int) {
    match char_pos(s, '-') {
        Some(i) => {
            let rest = s.skip(i + 1);
            let second = match char_pos(rest, '-') {
                Some(j) => rest.take(j),
                None => rest,
            };
            (time_ms(s.take(i)), time_ms(second))
        },
        None => (time_ms(s), time_ms(s)),
    }
}

/// Every time that [`think_time_range`] reads from `s` fits in a `u64`.
pub open spec fn think_time_fits(s: Seq<char>) -> bool {
    think_time_range(s).0 <= u64::MAX && think_time_range(s).1 <= u64::MAX
}

/// Parses a think time (`"500ms"`, `"1s-3s"`) into a minimum and maximum in
/// milliseconds.
pub fn parse_think_time(s: &str) -> (r: (usize, usize))
    requires
        think_time_fits(s@),
    ensures
        r.0 == (think_time_range(s@).0 as u64) as usize,
        r.1 == (think_time_range(s@).1 as u64) as usize,
{
    let v = chars_of(s);
    proof {
        lemma_char_pos(s@, '-');
    }
    let mut i: usize = 0;
    while i < v.len() && v[i] != '-'
        invariant
            i <= v@.len(),
            v@ == s@,
            forall|j: int| 0 <= j < i ==> v@[j] != '-',
        decreases v@.len() - i,
    {
        i = i + 1;
    }
    if i < v.len() {
        assert(char_pos(s@, '-') == Some(i as int)) by {
            match char_pos(s@, '-') {
                Some(k) => {
                    if k < i {
                        assert(v@[k] == '-');
                    } else if k > i {
                        assert(s@[i as int] == '-');
                    }
                },
                None => {
                    assert(s@[i as int] == '-');
                },
            }
        }
        let ghost rest = s@.skip(i + 1);
        proof {
            lemma_char_pos(rest, '-');
        }
        let mut j: usize = i + 1;
        while j < v.len() && v[j] != '-'
            invariant
                i + 1 <= j <= v@.len(),
                v@ == s@,
                rest == s@.skip(i + 1),
                forall|t: int| i + 1 <= t < j ==> v@[t] != '-',
            decreases v@.len() - j,
        {
            j = j + 1;
        }
        let first = sub_string(&v, 0, i);
        let second = sub_string(&v, i + 1, j);
        proof {
            assert(first@ =~= s@.take(i as int));
            match char_pos(rest, '-') {
                Some(k) => {
                    if k < j - i - 1 {
                        assert(rest[k] == v@[i + 1 + k]);
                    } else if k > j - i - 1 {
                        assert(rest[j - i - 1] == v@[j as int]);
                    }
                    assert(second@ =~= rest.take(k));
                },
                None => {
                    if j < v.len() {
                        assert(rest[j - i - 1] == v@[j as int]);
                    }
                    assert(second@ =~= rest);
                },
            }
        }
        let min = parse_time_to_ms(first.as_str());
        let max = parse_time_to_ms(second.as_str());
        (min as usize, max as usize)
    } else {
        assert(char_pos(s@, '-') is None) by {
            match char_pos(s@, '-') {
                Some(k) => {
                    assert(v@[k] == '-');
                },
                None => {},
            }
        }
        let ms = parse_time_to_ms(s);
        (ms as usize, ms as usize)
    }
}

/// The HTML report file of a run: the file name of the last `html`
/// reporting definition, or `report.html` when it has none.
pub open spec fn html_report(reporting: Seq<ReportingDefinition>, k: int) -> Option<Seq<char>>
    decreases k,
{
    if k <= 0 {
        None
    } else if reporting[k - 1].module@ == "html"@ {
        Some(match reporting[k - 1].filename {
            Some(f) => f@,
            None => "report.html"@,
        })
    } else {
        html_report(reporting, k - 1)
    }
}

/// The file the HTML report goes to, if any definition asks for one.
pub fn html_report_file(reporting: &Vec<ReportingDefinition>) -> (r: Option<String>)
    ensures
        match html_report(reporting@, reporting@.len() as int) {
            Some(f) => r matches Some(s) && s@ == f,
            None => r is None,
        },
{
    let mut i = reporting.len();
    while i > 0
        invariant
            i <= reporting@.len(),
            html_report(reporting@, reporting@.len() as int) == html_report(reporting@, i as int),
        decreases i,
    {
        let d = &reporting[i - 1];
        if str_eq(d.module.as_str(), "html") {
            return Some(
                match &d.filename {
                    Some(f) => f.clone(),
                    None => String::from_str("report.html"),
                },
            );
        }
        i = i - 1;
    }
    None
}

/// The settings of one scenario in a run.
#[derive(Debug, Clone)]
pub struct ScenarioSettings {
    pub name: String,
    /// The scenario's weight, when above one.
    pub weight: Option<usize>,
    /// The wait between requests, in milliseconds, when a think time is set.
    pub wait_ms: Option<(usize, usize)>,
}

/// The settings of a run for one execution plan.
#[derive(Debug, Clone)]
pub struct ExecutionSettings {
    pub users: usize,
    /// The run time in whole seconds.
    pub run_time_secs: usize,
    /// The ramp-up in milliseconds (the spawn rate is the users over it).
    pub ramp_up_ms: u64,
    pub host: String,
    pub throttle: Option<usize>,
    /// The scenario to run, when the configuration defines it.
    pub scenario: Option<ScenarioSettings>,
}

/// The times of an execution plan and its scenario fit in a `u64`.
pub open spec fn plan_times_fit(c: Configuration, e: ExecutionPlan) -> bool {
    &&& time_ms(e.hold_for@) <= u64::MAX
    &&& time_ms(e.ramp_up@) <= u64::MAX
    &&& c.scenarios@.contains_key(e.scenario@) ==> match c.scenarios@[e.scenario@].think_time {
        Some(t) => think_time_fits(t@),
        None => true,
    }
}

/// The host a plan targets: the override, else the default host of its
/// scenario, else `http://localhost`.
pub open spec fn plan_host(c: Configuration, e: ExecutionPlan, host_override: Option<Seq<char>>) -> Seq<char> {
    match host_override {
        Some(h) => h,
        None => {
            let found = if c.scenarios@.contains_key(e.scenario@) {
                first_origin(
                    c.scenarios@[e.scenario@].requests@,
                    c.scenarios@[e.scenario@].requests@.len() as int,
                    0,
                )
            } else {
                None
            };
            match found {
                Some(o) => o,
                None => "http://localhost"@,
            }
        },
    }
}

/// The settings of a run for execution plan `e`: its users, its hold time
/// in whole seconds, its ramp-up, the host (see [`plan_host`]), its
/// throughput limit, and, when its scenario is defined, the scenario's
/// weight (above one) and wait range.
pub fn plan_execution(config: &Configuration, e: &ExecutionPlan, host_override: &Option<String>) -> (s: ExecutionSettings)
    requires
        plan_times_fit(*config, *e),
    ensures
        s.users == e.concurrency,
        s.run_time_secs == ((time_ms(e.hold_for@) as u64) as usize) / 1000,
        s.ramp_up_ms == time_ms(e.ramp_up@),
        s.host@ == plan_host(*config, *e, match host_override {
            Some(h) => Some(h@),
            None => None,
        }),
        s.throttle == e.throughput,
        !config.scenarios@.contains_key(e.scenario@) ==> s.scenario is None,
        config.scenarios@.contains_key(e.scenario@) ==> (s.scenario matches Some(sc) && sc.name@ == e.scenario@
            && sc.weight == (if config.scenarios@[e.scenario@].weight > 1 {
            Some(config.scenarios@[e.scenario@].weight)
        } else {
            None
        }) && match config.scenarios@[e.scenario@].think_time {
            Some(t) => sc.wait_ms == Some((
                (think_time_range(t@).0 as u64) as usize,
                (think_time_range(t@).1 as u64) as usize,
            )),
            None => sc.wait_ms is None,
        }),
{
    let run_ms = parse_time_to_ms(e.hold_for.as_str());
    let ramp = parse_time_to_ms(e.ramp_up.as_str());
    let scenario_def = config.scenarios.get(e.scenario.as_str());
    let host = match host_override {
        Some(h) => h.clone(),
        None => {
            let found = match scenario_def {
                Some(sd) => extract_default_host(sd),
                None => None,
            };
            match found {
                Some(h) => h,
                None => String::from_str("http://localhost"),
            }
        },
    };
    let scenario = match scenario_def {
        Some(sd) => {
            let weight = if sd.weight > 1 {
                Some(sd.weight)
            } else {
                None
            };
            let wait_ms = match &sd.think_time {
                Some(t) => Some(parse_think_time(t.as_str())),
                None => None,
            };
            Some(ScenarioSettings { name: e.scenario.clone(), weight, wait_ms })
        },
        None => None,
    };
    ExecutionSettings {
        users: e.concurrency,
        run_time_secs: (run_ms as usize) / 1000,
        ramp_up_ms: ramp,
        host,
        throttle: e.throughput,
        scenario,
    }
}

// ---------------------------------------------------------------------------
// The steps of one request
// ---------------------------------------------------------------------------

/// The numeric order of texts that a comparator gives, as a spec function.
pub open spec fn numeric_of<F: Fn(&str, &str) -> Option<FloatOrder>>(f: F) -> spec_fn(Seq<char>, Seq<char>) -> Option<FloatOrder> {
    |a: Seq<char>, b: Seq<char>| comparator_order(f, a, b)
}

/// A request runs unless its `if` condition is false.
pub fn should_execute<F: Fn(&str, &str) -> Option<FloatOrder>>(
    d: &DetailedRequest,
    variables: &StrMap<String>,
    numeric: &F,
) -> (b: bool)
    requires
        comparator_well_behaved(*numeric),
    ensures
        b == match d.execute_if {
            Some(c) => condition_holds(c@, variables@, numeric_of(*numeric)),
            None => true,
        },
{
    match &d.execute_if {
        Some(c) => ControlFlowEngine::evaluate_condition(c.as_str(), variables, numeric),
        None => true,
    }
}

/// The most passes a request loop makes beyond its first.
pub const MAX_LOOP_PASSES: usize = 100;

/// Before pass `pass` (counted from 0) of a request with a `loop`
/// condition, the loop stops when the condition is false or more than
/// [`MAX_LOOP_PASSES`] passes are done; a request without one makes one
/// pass.
pub fn loop_should_stop<F: Fn(&str, &str) -> Option<FloatOrder>>(
    d: &DetailedRequest,
    variables: &StrMap<String>,
    pass: usize,
    numeric: &F,
) -> (b: bool)
    requires
        comparator_well_behaved(*numeric),
    ensures
        b == match d.loop_while {
            Some(c) => !condition_holds(c@, variables@, numeric_of(*numeric)) || pass > MAX_LOOP_PASSES,
            None => pass > 0,
        },
{
    match &d.loop_while {
        Some(c) => !ControlFlowEngine::evaluate_condition(c.as_str(), variables, numeric) || pass > MAX_LOOP_PASSES,
        None => pass > 0,
    }
}

/// The lower-case form of a text as std's `str::to_lowercase` gives it.
pub uninterp spec fn unicode_lowercase(s: Seq<char>) -> Seq<char>;

/// Lower-cases `s` (std's `str::to_lowercase`). The contract names the
/// result.
#[verifier::external_body]
fn to_lowercase(s: &str) -> (r: String)
    ensures
        r@ == unicode_lowercase(s@),
{
    s.to_lowercase()
}

/// The most sends of one request when the connection fails.
pub const MAX_ATTEMPTS: usize = 3;

/// A failed send with error text `error` is retried when the error, in
/// lower case, speaks of the connection (`connect`, `reset`, `pool` or
/// `broken pipe`) and fewer than [`MAX_ATTEMPTS`] sends were made.
pub fn should_retry(error: &str, attempts: usize) -> (b: bool)
    ensures
        b == ((contains(unicode_lowercase(error@), "connect"@) || contains(unicode_lowercase(error@), "reset"@)
            || contains(unicode_lowercase(error@), "pool"@) || contains(unicode_lowercase(error@), "broken pipe"@))
            && attempts < MAX_ATTEMPTS),
{
    let lower = to_lowercase(error);
    let t = lower.as_str();
    (crate::text::contains_str(t, "connect") || crate::text::contains_str(t, "reset")
        || crate::text::contains_str(t, "pool") || crate::text::contains_str(t, "broken pipe"))
        && attempts < MAX_ATTEMPTS
}

/// The address a gRPC call goes to: the URL when it starts with `http`,
/// else the URL after `http://`.
pub fn grpc_host_key(full_url: &str) -> (k: String)
    ensures
        k@ == (if starts_with(full_url@, "http"@) {
            full_url@
        } else {
            "http://"@ + full_url@
        }),
{
    let v = chars_of(full_url);
    let p = chars_of("http");
    assert(v@.subrange(0, v@.len() as int) =~= v@);
    if starts_with_in(&v, 0, v.len(), &p) {
        String::from_str(full_url)
    } else {
        let mut k = String::from_str("http://");
        k.append(full_url);
        k
    }
}

/// The name a request's metrics are recorded under: its evaluated label,
/// else its final URL.
pub fn request_name(label: Option<String>, final_url: &String) -> (n: String)
    ensures
        n@ == match label {
            Some(l) => l@,
            None => final_url@,
        },
{
    match label {
        Some(l) => l,
        None => final_url.clone(),
    }
}

/// The method of a request: GET when none is given.
pub fn request_method(d: &DetailedRequest) -> (m: HttpMethod)
    ensures
        m == match d.method {
            Some(x) => x,
            None => HttpMethod::Get,
        },
{
    match d.method {
        Some(x) => x,
        None => HttpMethod::Get,
    }
}

/// The time limit of a request in milliseconds, when it has a positive one.
pub fn request_timeout_ms(d: &DetailedRequest) -> (r: Option<u64>)
    requires
        d.timeout matches Some(t) ==> time_ms(t@) <= u64::MAX,
    ensures
        r == match d.timeout {
            Some(t) => if time_ms(t@) > 0 {
                Some(time_ms(t@) as u64)
            } else {
                None
            },
            None => None,
        },
{
    match &d.timeout {
        Some(t) => {
            let ms = parse_time_to_ms(t.as_str());
            if ms > 0 {
                Some(ms)
            } else {
                None
            }
        },
        None => None,
    }
}

/// The body of a request without a body file: its inline body with session
/// variables substituted, or nothing.
pub fn inline_body(body: &Option<String>, variables: &StrMap<String>) -> (s: String)
    ensures
        s@ == match body {
            Some(b) => interpolated(b@, variables@),
            None => Seq::<char>::empty(),
        },
{
    match body {
        Some(b) => Interpolator::interpolate(b.as_str(), variables),
        None => String::new(),
    }
}

/// The messages a streaming gRPC call sends: the request's evaluated
/// messages, or its body alone when it has none.
pub fn stream_payloads(messages: Vec<String>, final_body: String) -> (p: Vec<String>)
    ensures
        messages@.len() == 0 ==> p@ == seq![final_body],
        messages@.len() > 0 ==> p@ == messages@,
{
    if messages.len() == 0 {
        let mut p = Vec::new();
        p.push(final_body);
        p
    } else {
        messages
    }
}

/// Records a request's outcome in the live metrics: one more request on
/// the endpoint, its time added and kept as a sample, one more failure when
/// it failed; other endpoints are unchanged.
pub fn record_request(metrics: &mut RealTimeMetrics, endpoint_name: &str, duration_ms: usize, success: bool)
    requires
        !old(metrics).endpoints@.contains_key(endpoint_name@) || record_fits(
            old(metrics).endpoints@[endpoint_name@],
            duration_ms,
        ),
    ensures
        final(metrics).endpoints@.dom() == old(metrics).endpoints@.dom().insert(endpoint_name@),
        forall|k: Seq<char>|
            k != endpoint_name@ && #[trigger] old(metrics).endpoints@.contains_key(k)
                ==> final(metrics).endpoints@[k] == old(metrics).endpoints@[k],
        old(metrics).endpoints@.contains_key(endpoint_name@) ==> recorded(
            old(metrics).endpoints@[endpoint_name@],
            duration_ms,
            success,
            final(metrics).endpoints@[endpoint_name@],
        ),
        !old(metrics).endpoints@.contains_key(endpoint_name@) ==> first_record(
            duration_ms,
            success,
            final(metrics).endpoints@[endpoint_name@],
        ),
{
    metrics.record(endpoint_name, duration_ms, success)
}

} // verus!
