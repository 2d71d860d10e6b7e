//! Reporting helpers: XML escaping, real-time per-endpoint statistics, and
//! the pieces of the end-of-run reports that do not need floating point.

use crate::strmap::StrMap;
use crate::text::{chars_of, string_of};
use std::time::Instant;
use vstd::prelude::*;
use vstd::string::StringExecFns;

verus! {

// ---------------------------------------------------------------------------
// XML escaping
// ---------------------------------------------------------------------------

/// The XML text for one character: `&`, `<`, `>`, `"` and `'` become
/// entities, every other character stands for itself.
pub open spec fn xml_escape_char(c: char) -> Seq<char> {
    if c == '&' {
        seq!['&', 'a', 'm', 'p', ';']
    } else if c == '<' {
        seq!['&', 'l', 't', ';']
    } else if c == '>' {
        seq!['&', 'g', 't', ';']
    } else if c == '"' {
        seq!['&', 'q', 'u', 'o', 't', ';']
    } else if c == '\'' {
        seq!['&', 'a', 'p', 'o', 's', ';']
    } else {
        seq![c]
    }
}

/// The XML text for `s`, character by character.
pub open spec fn xml_escaped(s: Seq<char>) -> Seq<char>
    decreases s.len(),
{
    if s.len() == 0 {
        Seq::empty()
    } else {
        xml_escaped(s.drop_last()) + xml_escape_char(s.last())
    }
}

/// A character that XML text must not hold raw.
pub open spec fn xml_special(c: char) -> bool {
    c == '<' || c == '>' || c == '"' || c == '\''
}

/// Escaping leaves no `<`, `>`, `"` or `'`.
pub proof fn lemma_xml_escaped_safe(s: Seq<char>)
    ensures
        forall|i: int| 0 <= i < xml_escaped(s).len() ==> !xml_special(#[trigger] xml_escaped(s)[i]),
    decreases s.len(),
{
    if s.len() > 0 {
        lemma_xml_escaped_safe(s.drop_last());
        let a = xml_escaped(s.drop_last());
        let b = xml_escape_char(s.last());
        assert forall|i: int| 0 <= i < (a + b).len() implies !xml_special(#[trigger] (a + b)[i]) by {
            if i >= a.len() {
                assert((a + b)[i] == b[i - a.len()]);
            }
        }
    }
}

/// The text that XML text `t` stands for: the five entities that escaping
/// makes are read back as their characters; anything else stands for
/// itself.
pub open spec fn xml_unescaped(t: Seq<char>) -> Seq<char>
    decreases t.len(),
{
    if t.len() == 0 {
        Seq::empty()
    } else if t.len() >= 5 && t.take(5) == seq!['&', 'a', 'm', 'p', ';'] {
        seq!['&'] + xml_unescaped(t.skip(5))
    } else if t.len() >= 4 && t.take(4) == seq!['&', 'l', 't', ';'] {
        seq!['<'] + xml_unescaped(t.skip(4))
    } else if t.len() >= 4 && t.take(4) == seq!['&', 'g', 't', ';'] {
        seq!['>'] + xml_unescaped(t.skip(4))
    } else if t.len() >= 6 && t.take(6) == seq!['&', 'q', 'u', 'o', 't', ';'] {
        seq!['"'] + xml_unescaped(t.skip(6))
    } else if t.len() >= 6 && t.take(6) == seq!['&', 'a', 'p', 'o', 's', ';'] {
        seq!['\''] + xml_unescaped(t.skip(6))
    } else {
        seq![t[0]] + xml_unescaped(t.skip(1))
    }
}

/// The escaping of `c` followed by any text reads back as `c` followed by
/// what that text reads back as.
proof fn lemma_unescape_step(c: char, rest: Seq<char>)
    ensures
        xml_unescaped(xml_escape_char(c) + rest) == seq![c] + xml_unescaped(rest),
{
    let e = xml_escape_char(c);
    let t = e + rest;
    assert(t.skip(e.len() as int) =~= rest);
    assert(t.take(e.len() as int) =~= e);
    if c == '&' {
        assert(t.take(5) =~= e);
    } else if c == '<' {
        assert(t[1] == 'l');
    } else if c == '>' {
        assert(t[1] == 'g');
    } else if c == '"' {
        assert(t[1] == 'q');
    } else if c == '\'' {
        assert(t[1] == 'a');
        assert(t[2] == 'p');
    } else {
        assert(t[0] == c);
    }
}

/// Escaping the characters of `s` one by one, from the front.
proof fn lemma_xml_escaped_front(s: Seq<char>)
    ensures
        s.len() > 0 ==> xml_escaped(s) == xml_escape_char(s[0]) + xml_escaped(s.drop_first()),
    decreases s.len(),
{
    if s.len() > 1 {
        lemma_xml_escaped_front(s.drop_last());
        assert(s.drop_last().drop_first() =~= s.drop_first().drop_last());
        assert(s.drop_last()[0] == s[0]);
        assert(s.drop_first().last() == s.last());
    } else if s.len() == 1 {
        assert(s.drop_last() =~= Seq::<char>::empty());
        assert(s.drop_first() =~= Seq::<char>::empty());
    }
}

/// Reading escaped text back gives the unescaped text again.
pub proof fn lemma_xml_escape_round_trip(s: Seq<char>)
    ensures
        xml_unescaped(xml_escaped(s)) == s,
    decreases s.len(),
{
    if s.len() > 0 {
        lemma_xml_escaped_front(s);
        lemma_xml_escape_round_trip(s.drop_first());
        lemma_unescape_step(s[0], xml_escaped(s.drop_first()));
        assert(seq![s[0]] + s.drop_first() =~= s);
    }
}

/// Escapes a text for XML content and attribute values: `&`, `<`, `>`, `"`
/// and `'` become `&amp;`, `&lt;`, `&gt;`, `&quot;` and `&apos;`.
pub fn xml_escape(s: &str) -> (r: String)
    ensures
        r@ == xml_escaped(s@),
        forall|i: int| 0 <= i < r@.len() ==> !xml_special(#[trigger] r@[i]),
{
    let v = chars_of(s);
    let mut out: Vec<char> = Vec::new();
    let mut i: usize = 0;
    while i < v.len()
        invariant
            i <= v@.len(),
            out@ == xml_escaped(v@.take(i as int)),
        decreases v@.len() - i,
    {
        let c = v[i];
        let ghost before = out@;
        if c == '&' {
            out.push('&');
            out.push('a');
            out.push('m');
            out.push('p');
            out.push(';');
        } else if c == '<' {
            out.push('&');
            out.push('l');
            out.push('t');
            out.push(';');
        } else if c == '>' {
            out.push('&');
            out.push('g');
            out.push('t');
            out.push(';');
        } else if c == '"' {
            out.push('&');
            out.push('q');
            out.push('u');
            out.push('o');
            out.push('t');
            out.push(';');
        } else if c == '\'' {
            out.push('&');
            out.push('a');
            out.push('p');
            out.push('o');
            out.push('s');
            out.push(';');
        } else {
            out.push(c);
        }
        assert(v@.take(i + 1).drop_last() =~= v@.take(i as int));
        assert(out@ =~= before + xml_escape_char(c));
        i = i + 1;
    }
    assert(v@.take(v@.len() as int) =~= v@);
    proof {
        lemma_xml_escaped_safe(s@);
    }
    string_of(&out)
}

// ---------------------------------------------------------------------------
// Real-time statistics
// ---------------------------------------------------------------------------

/// The number of timing samples kept per endpoint.
pub const MAX_TIMINGS: usize = 10000;

/// The samples after pushing `t` onto `times`: when the cap is reached the
/// oldest half is dropped first.
pub open spec fn pushed_times(times: Seq<usize>, t: usize) -> Seq<usize> {
    if times.len() >= MAX_TIMINGS {
        times.skip((MAX_TIMINGS / 2) as int).push(t)
    } else {
        times.push(t)
    }
}

/// Live statistics of one endpoint.
#[derive(Debug, Clone)]
pub struct RealTimeEndpointStats {
    pub count: usize,
    pub failures: usize,
    pub total_time_ms: usize,
    pub times: Vec<usize>,
}

impl Default for RealTimeEndpointStats {
    fn default() -> (s: Self)
        ensures
            s.count == 0,
            s.failures == 0,
            s.total_time_ms == 0,
            s.times@.len() == 0,
    {
        RealTimeEndpointStats { count: 0, failures: 0, total_time_ms: 0, times: Vec::new() }
    }
}

impl RealTimeEndpointStats {
    /// Records a timing sample, keeping at most [`MAX_TIMINGS`]: when the
    /// cap is reached the oldest half is dropped first.
    pub fn push_time(&mut self, time: usize)
        ensures
            final(self).times@ == pushed_times(old(self).times@, time),
            final(self).count == old(self).count,
            final(self).failures == old(self).failures,
            final(self).total_time_ms == old(self).total_time_ms,
    {
        if self.times.len() >= MAX_TIMINGS {
            let rest = self.times.split_off(MAX_TIMINGS / 2);
            self.times = rest;
        }
        self.times.push(time);
    }
}

/// The samples never exceed the cap, and the newest sample is the last one.
pub proof fn lemma_push_time_bounded(times: Seq<usize>, t: usize)
    requires
        times.len() <= MAX_TIMINGS,
    ensures
        pushed_times(times, t).len() <= MAX_TIMINGS,
        pushed_times(times, t).last() == t,
{
}

/// A point in time, as std's monotonic clock gives it.
#[verifier::external_type_specification]
#[verifier::external_body]
pub struct ExInstant(Instant);

/// Live statistics of a run, per endpoint name, and when the run started.
#[derive(Debug)]
pub struct RealTimeMetrics {
    pub endpoints: StrMap<RealTimeEndpointStats>,
    pub start_time: Instant,
}

/// The current instant (std's `Instant::now`); nothing is claimed of it.
#[verifier::external_body]
fn now() -> (i: Instant) {
    Instant::now()
}

impl Clone for RealTimeMetrics {
    /// A copy with the same endpoints and start.
    fn clone(&self) -> (r: Self)
        ensures
            r.endpoints@.dom() == self.endpoints@.dom(),
            r.start_time == self.start_time,
    {
        RealTimeMetrics { endpoints: self.endpoints.clone(), start_time: self.start_time }
    }
}

impl Default for RealTimeMetrics {
    fn default() -> (m: Self)
        ensures
            m.endpoints@ == Map::<Seq<char>, RealTimeEndpointStats>::empty(),
    {
        RealTimeMetrics { endpoints: StrMap::new(), start_time: now() }
    }
}

/// The statistics of an endpoint after one more request of `duration_ms`.
pub open spec fn recorded(
    before: RealTimeEndpointStats,
    duration_ms: usize,
    success: bool,
    after: RealTimeEndpointStats,
) -> bool {
    &&& after.count == before.count + 1
    &&& after.total_time_ms == before.total_time_ms + duration_ms
    &&& after.times@ == pushed_times(before.times@, duration_ms)
    &&& after.failures == before.failures + (if success {
        0int
    } else {
        1int
    })
}

/// The statistics of an endpoint after its first request, of `duration_ms`.
pub open spec fn first_record(duration_ms: usize, success: bool, s: RealTimeEndpointStats) -> bool {
    &&& s.count == 1
    &&& s.total_time_ms == duration_ms
    &&& s.times@ == seq![duration_ms]
    &&& s.failures == (if success {
        0int
    } else {
        1int
    })
}

/// One more request of `duration_ms` on an endpoint with statistics `s`
/// keeps every counter within `usize`.
pub open spec fn record_fits(s: RealTimeEndpointStats, duration_ms: usize) -> bool {
    s.count < usize::MAX && s.failures < usize::MAX && s.total_time_ms + duration_ms <= usize::MAX
}

impl RealTimeMetrics {
    /// Whether recording a request of `duration_ms` on `endpoint` keeps
    /// its counters within `usize`.
    pub fn can_record(&self, endpoint: &str, duration_ms: usize) -> (b: bool)
        ensures
            b == (!self.endpoints@.contains_key(endpoint@) || record_fits(
                self.endpoints@[endpoint@],
                duration_ms,
            )),
    {
        match self.endpoints.get(endpoint) {
            Some(s) => s.count < usize::MAX && s.failures < usize::MAX && s.total_time_ms
                <= usize::MAX - duration_ms,
            None => true,
        }
    }

    /// Records one request on `endpoint`: one more request, its time added
    /// and kept as a sample, and one more failure when it failed. A new
    /// endpoint starts from zero; other endpoints are unchanged.
    pub fn record(&mut self, endpoint: &str, duration_ms: usize, success: bool)
        requires
            !old(self).endpoints@.contains_key(endpoint@) || record_fits(
                old(self).endpoints@[endpoint@],
                duration_ms,
            ),
        ensures
            final(self).endpoints@.dom() == old(self).endpoints@.dom().insert(endpoint@),
            forall|k: Seq<char>|
                k != endpoint@ && #[trigger] old(self).endpoints@.contains_key(k)
                    ==> final(self).endpoints@[k] == old(self).endpoints@[k],
            old(self).endpoints@.contains_key(endpoint@) ==> recorded(
                old(self).endpoints@[endpoint@],
                duration_ms,
                success,
                final(self).endpoints@[endpoint@],
            ),
            !old(self).endpoints@.contains_key(endpoint@) ==> first_record(
                duration_ms,
                success,
                final(self).endpoints@[endpoint@],
            ),
    {
        let ghost before = self.endpoints@;
        let key = String::from_str(endpoint);
        let mut stats = match self.endpoints.insert(key.clone(), RealTimeEndpointStats::default()) {
            Some(s) => s,
            None => RealTimeEndpointStats::default(),
        };
        let ghost start = stats;
        stats.count = stats.count + 1;
        stats.total_time_ms = stats.total_time_ms + duration_ms;
        stats.push_time(duration_ms);
        if !success {
            stats.failures = stats.failures + 1;
        }
        let ghost s2 = stats;
        let _ = self.endpoints.insert(key, stats);
        assert(self.endpoints@ =~= before.insert(endpoint@, s2));
        assert(recorded(start, duration_ms, success, s2));
        assert(!before.contains_key(endpoint@) ==> s2.times@ =~= seq![duration_ms]);
    }
}

// ---------------------------------------------------------------------------
// Percentiles
// ---------------------------------------------------------------------------

/// The number of samples in the first `k` entries of a `(time, count)`
/// table.
pub open spec fn prefix_count(times: Seq<(usize, usize)>, k: int) -> int
    decreases k,
{
    if k <= 0 {
        0
    } else {
        prefix_count(times, k - 1) + times[k - 1].1
    }
}

/// The number of samples up to and including entry `k`.
pub open spec fn count_through(times: Seq<(usize, usize)>, k: int) -> int {
    prefix_count(times, k + 1)
}

/// Prefix counts never shrink along the table.
proof fn lemma_prefix_count_monotonic(times: Seq<(usize, usize)>, j: int, k: int)
    requires
        0 <= j <= k,
    ensures
        prefix_count(times, j) <= prefix_count(times, k),
    decreases k - j,
{
    if j < k {
        lemma_prefix_count_monotonic(times, j, k - 1);
    }
}

/// The time of the sample of rank `target` in a `(time, count)` table in
/// ascending time order: the first entry whose running count reaches
/// `target`; the last entry's time when none does; 0 for an empty table.
pub open spec fn rank_time(times: Seq<(usize, usize)>, target: int) -> int {
    if times.len() == 0 {
        0
    } else if exists|k: int| 0 <= k < times.len() && #[trigger] count_through(times, k) >= target {
        let k = choose|k: int|
            0 <= k < times.len() && #[trigger] count_through(times, k) >= target && forall|j: int|
                0 <= j < k ==> #[trigger] count_through(times, j) < target;
        times[k].0 as int
    } else {
        times.last().0 as int
    }
}

/// The number of samples in a `(time, count)` table.
pub fn total_count(times: &Vec<(usize, usize)>) -> (n: usize)
    requires
        prefix_count(times@, times@.len() as int) <= usize::MAX,
    ensures
        n == prefix_count(times@, times@.len() as int),
{
    let mut n: usize = 0;
    let mut i: usize = 0;
    while i < times.len()
        invariant
            i <= times@.len(),
            n == prefix_count(times@, i as int),
            prefix_count(times@, times@.len() as int) <= usize::MAX,
        decreases times@.len() - i,
    {
        proof {
            lemma_prefix_count_monotonic(times@, i + 1, times@.len() as int);
        }
        n = n + times[i].1;
        i = i + 1;
    }
    n
}

/// The time of the sample of rank `target` (see [`rank_time`]).
pub fn percentile_time(times: &Vec<(usize, usize)>, target: usize) -> (t: usize)
    requires
        prefix_count(times@, times@.len() as int) <= usize::MAX,
    ensures
        t == rank_time(times@, target as int),
{
    if times.len() == 0 {
        return 0;
    }
    let mut cumulative: usize = 0;
    let mut i: usize = 0;
    while i < times.len()
        invariant
            i <= times@.len(),
            cumulative == prefix_count(times@, i as int),
            prefix_count(times@, times@.len() as int) <= usize::MAX,
            forall|j: int| 0 <= j < i ==> #[trigger] count_through(times@, j) < target,
        decreases times@.len() - i,
    {
        proof {
            lemma_prefix_count_monotonic(times@, i + 1, times@.len() as int);
        }
        cumulative = cumulative + times[i].1;
        if cumulative >= target {
            proof {
                let k = i as int;
                assert(0 <= k < times@.len() && count_through(times@, k) >= target);
                let c = choose|c: int|
                    0 <= c < times@.len() && #[trigger] count_through(times@, c) >= target && forall|j: int|
                        0 <= j < c ==> #[trigger] count_through(times@, j) < target;
                if c < k {
                    assert(count_through(times@, c) < target);
                } else if c > k {
                    assert(count_through(times@, k) < target);
                }
            }
            return times[i].0;
        }
        i = i + 1;
    }
    let last = times.len() - 1;
    times[last].0
}

// ---------------------------------------------------------------------------
// JUnit XML
// ---------------------------------------------------------------------------

/// The file a reporting definition asks a JUnit report in: its file name,
/// or `junit.xml`; none when the module is not `junit-xml`.
pub fn junit_report_file(module: &str, filename: &Option<String>) -> (r: Option<String>)
    ensures
        module@ != "junit-xml"@ ==> r is None,
        module@ == "junit-xml"@ ==> (r matches Some(f) && f@ == match filename {
            Some(n) => n@,
            None => "junit.xml"@,
        }),
{
    if !crate::text::str_eq(module, "junit-xml") {
        return None;
    }
    match filename {
        Some(n) => Some(n.clone()),
        None => Some(String::from_str("junit.xml")),
    }
}

/// One test case of a JUnit report: a request name, its method (upper
/// case), how many of its requests failed, and its mean time in seconds
/// as written in the report.
#[derive(Debug, Clone)]
pub struct JUnitCase {
    pub name: String,
    pub method: String,
    pub fail_count: usize,
    pub time_text: String,
}

/// The total number of failures of the first `k` cases.
pub open spec fn case_failures(cases: Seq<JUnitCase>, k: int) -> int
    decreases k,
{
    if k <= 0 {
        0
    } else {
        case_failures(cases, k - 1) + cases[k - 1].fail_count
    }
}

/// The lines of one test case.
pub open spec fn junit_case_text(c: JUnitCase) -> Seq<char> {
    "    <testcase name=\""@ + xml_escaped(c.name@) + "\" time=\""@ + c.time_text@ + "\">\n"@
        + (if c.fail_count > 0 {
        "      <failure message=\"Request failed: "@ + xml_escaped(c.method@) + " "@ + xml_escaped(
            c.name@,
        ) + "\" type=\"Error\" />\n"@
    } else {
        Seq::empty()
    }) + "    </testcase>\n"@
}

/// The lines of the first `k` test cases.
pub open spec fn junit_cases_text(cases: Seq<JUnitCase>, k: int) -> Seq<char>
    decreases k,
{
    if k <= 0 {
        Seq::empty()
    } else {
        junit_cases_text(cases, k - 1) + junit_case_text(cases[k - 1])
    }
}

/// A JUnit report of the cases: one suite `bzt-rs` with as many tests as
/// cases and their failures summed, then each case in order.
pub open spec fn junit_text(cases: Seq<JUnitCase>) -> Seq<char> {
    "<?xml version=\"1.0\" encoding=\"UTF-8\"?>\n<testsuites>\n"@
        + "  <testsuite name=\"bzt-rs\" tests=\""@ + crate::text::decimal(cases.len()) + "\" failures=\""@
        + crate::text::decimal(case_failures(cases, cases.len() as int) as nat) + "\">\n"@
        + junit_cases_text(cases, cases.len() as int) + "  </testsuite>\n</testsuites>\n"@
}

/// The text of a JUnit report of `cases` (names and methods escaped).
pub fn junit_document(cases: &Vec<JUnitCase>) -> (s: String)
    requires
        case_failures(cases@, cases@.len() as int) <= u64::MAX,
    ensures
        s@ == junit_text(cases@),
{
    let mut failures: u64 = 0;
    let mut body = String::new();
    let mut i: usize = 0;
    while i < cases.len()
        invariant
            i <= cases@.len(),
            failures == case_failures(cases@, i as int),
            body@ == junit_cases_text(cases@, i as int),
            case_failures(cases@, cases@.len() as int) <= u64::MAX,
        decreases cases@.len() - i,
    {
        proof {
            lemma_case_failures_monotonic(cases@, i + 1, cases@.len() as int);
        }
        let c = &cases[i];
        failures = failures + c.fail_count as u64;
        let ghost before = body@;
        body.append("    <testcase name=\"");
        body.append(xml_escape(c.name.as_str()).as_str());
        body.append("\" time=\"");
        body.append(c.time_text.as_str());
        body.append("\">\n");
        if c.fail_count > 0 {
            body.append("      <failure message=\"Request failed: ");
            body.append(xml_escape(c.method.as_str()).as_str());
            body.append(" ");
            body.append(xml_escape(c.name.as_str()).as_str());
            body.append("\" type=\"Error\" />\n");
        }
        body.append("    </testcase>\n");
        assert(body@ =~= before + junit_case_text(*c));
        i = i + 1;
    }
    let mut s = String::from_str("<?xml version=\"1.0\" encoding=\"UTF-8\"?>\n<testsuites>\n");
    s.append("  <testsuite name=\"bzt-rs\" tests=\"");
    s.append(crate::text::decimal_string(cases.len() as u64).as_str());
    s.append("\" failures=\"");
    s.append(crate::text::decimal_string(failures).as_str());
    s.append("\">\n");
    s.append(body.as_str());
    s.append("  </testsuite>\n</testsuites>\n");
    s
}

proof fn lemma_case_failures_monotonic(cases: Seq<JUnitCase>, j: int, k: int)
    requires
        0 <= j <= k,
    ensures
        case_failures(cases, j) <= case_failures(cases, k),
    decreases k - j,
{
    if j < k {
        lemma_case_failures_monotonic(cases, j, k - 1);
    }
}

// ---------------------------------------------------------------------------
// InfluxDB target
// ---------------------------------------------------------------------------

/// Where an `influxdb` reporting definition sends its points: the URL
/// (default `http://localhost:8086`), the bucket (default `bzt`) and the
/// token (default empty); none for another module.
pub fn influx_target(
    module: &str,
    url: &Option<String>,
    bucket: &Option<String>,
    token: &Option<String>,
) -> (r: Option<(String, String, String)>)
    ensures
        module@ != "influxdb"@ ==> r is None,
        module@ == "influxdb"@ ==> (r matches Some(t) && t.0@ == match url {
            Some(u) => u@,
            None => "http://localhost:8086"@,
        } && t.1@ == match bucket {
            Some(b) => b@,
            None => "bzt"@,
        } && t.2@ == match token {
            Some(k) => k@,
            None => Seq::<char>::empty(),
        }),
{
    if !crate::text::str_eq(module, "influxdb") {
        return None;
    }
    let u = match url {
        Some(u) => u.clone(),
        None => String::from_str("http://localhost:8086"),
    };
    let b = match bucket {
        Some(b) => b.clone(),
        None => String::from_str("bzt"),
    };
    let k = match token {
        Some(k) => k.clone(),
        None => String::new(),
    };
    Some((u, b, k))
}

// ---------------------------------------------------------------------------
// Terminal summary
// ---------------------------------------------------------------------------

/// The number of UTF-8 bytes of a character.
pub open spec fn utf8_width(c: char) -> nat {
    if (c as u32) < 0x80 {
        1
    } else if (c as u32) < 0x800 {
        2
    } else if (c as u32) < 0x10000 {
        3
    } else {
        4
    }
}

/// The number of UTF-8 bytes of a text.
pub open spec fn utf8_len(s: Seq<char>) -> nat
    decreases s.len(),
{
    if s.len() == 0 {
        0
    } else {
        utf8_len(s.drop_last()) + utf8_width(s.last())
    }
}

/// The UTF-8 length of a prefix grows with the prefix.
proof fn lemma_utf8_len_prefix(s: Seq<char>, j: int, k: int)
    requires
        0 <= j <= k <= s.len(),
    ensures
        utf8_len(s.take(j)) <= utf8_len(s.take(k)),
        utf8_len(s.take(k)) >= k,
    decreases k,
{
    if k > 0 {
        assert(s.take(k).drop_last() =~= s.take(k - 1));
        if j < k {
            lemma_utf8_len_prefix(s, j, k - 1);
        } else {
            lemma_utf8_len_prefix(s, k - 1, k - 1);
        }
    } else {
        assert(s.take(0) =~= Seq::<char>::empty());
    }
}

/// An endpoint path as the summary shows it: longer than 40 bytes, its
/// first 37 bytes and an ellipsis.
pub open spec fn shown_path(s: Seq<char>) -> Seq<char> {
    if utf8_len(s) > 40 {
        let k = choose|k: int| 0 <= k <= s.len() && utf8_len(s.take(k)) == 37;
        s.take(k) + seq!['\u{2026}']
    } else {
        s
    }
}

/// A text longer than 40 bytes can be cut after 37 bytes only at a
/// character boundary.
pub open spec fn cuttable_path(s: Seq<char>) -> bool {
    utf8_len(s) > 40 ==> exists|k: int| 0 <= k <= s.len() && utf8_len(s.take(k)) == 37
}

/// An endpoint path as the summary shows it (see [`shown_path`]).
pub fn display_path(name: &str) -> (r: String)
    requires
        cuttable_path(name@),
    ensures
        r@ == shown_path(name@),
{
    let v = chars_of(name);
    let mut bytes: usize = 0;
    let mut i: usize = 0;
    let mut cut: usize = 0;
    let mut found = false;
    assert(v@.take(0) =~= Seq::<char>::empty());
    while i < v.len() && bytes <= 40
        invariant
            i <= v@.len(),
            bytes == utf8_len(v@.take(i as int)),
            bytes <= 44,
            found ==> cut <= i && utf8_len(v@.take(cut as int)) == 37,
            !found ==> forall|j: int| 0 <= j <= i ==> utf8_len(#[trigger] v@.take(j)) != 37,
        decreases v@.len() - i,
    {
        let c = v[i];
        let w: usize = if (c as u32) < 0x80 {
            1
        } else if (c as u32) < 0x800 {
            2
        } else if (c as u32) < 0x10000 {
            3
        } else {
            4
        };
        assert(v@.take(i + 1).drop_last() =~= v@.take(i as int));
        bytes = bytes + w;
        i = i + 1;
        if !found && bytes == 37 {
            found = true;
            cut = i;
        }
    }
    assert(v@.take(v@.len() as int) =~= v@);
    proof {
        lemma_utf8_len_prefix(v@, i as int, v@.len() as int);
    }
    if bytes > 40 {
        proof {
            let k = choose|k: int| 0 <= k <= v@.len() && utf8_len(v@.take(k)) == 37;
            if !found {
                if k > i {
                    lemma_utf8_len_prefix(v@, i as int, k);
                } else {
                    assert(utf8_len(v@.take(k)) != 37);
                }
            }
        }
        let mut out = crate::text::sub_chars(&v, 0, cut);
        out.push('\u{2026}');
        proof {
            let k = choose|k: int| 0 <= k <= v@.len() && utf8_len(v@.take(k)) == 37;
            if k < cut {
                lemma_utf8_len_strict(v@, k, cut as int);
            } else if k > cut {
                lemma_utf8_len_strict(v@, cut as int, k);
            }
            assert(v@.subrange(0, cut as int) =~= v@.take(cut as int));
        }
        string_of(&out)
    } else {
        assert(i == v@.len());
        String::from_str(name)
    }
}

/// A longer prefix has strictly more UTF-8 bytes.
proof fn lemma_utf8_len_strict(s: Seq<char>, j: int, k: int)
    requires
        0 <= j < k <= s.len(),
    ensures
        utf8_len(s.take(j)) < utf8_len(s.take(k)),
    decreases k,
{
    assert(s.take(k).drop_last() =~= s.take(k - 1));
    if j < k - 1 {
        lemma_utf8_len_strict(s, j, k - 1);
    }
}

/// Endpoint `a` is listed before endpoint `b`: more requests first, and
/// among equal counts the earlier one first.
pub open spec fn listed_before(counts: Seq<usize>, a: int, b: int) -> bool {
    counts[a] > counts[b] || (counts[a] == counts[b] && a < b)
}

/// The order in which the summary lists endpoints with request counts
/// `counts`: every position once, by descending count, ties in the order
/// of their positions.
pub fn endpoint_order(counts: &Vec<usize>) -> (o: Vec<usize>)
    ensures
        o@.len() == counts@.len(),
        forall|i: int| 0 <= i < o@.len() ==> #[trigger] o@[i] < counts@.len(),
        forall|a: int, b: int|
            0 <= a < b < o@.len() ==> listed_before(counts@, #[trigger] o@[a] as int, #[trigger] o@[b] as int),
        forall|j: usize| j < counts@.len() ==> #[trigger] o@.contains(j),
{
    let mut o: Vec<usize> = Vec::new();
    let mut i: usize = 0;
    while i < counts.len()
        invariant
            i <= counts@.len(),
            o@.len() == i,
            forall|k: int| 0 <= k < o@.len() ==> #[trigger] o@[k] < i,
            forall|a: int, b: int|
                0 <= a < b < o@.len() ==> listed_before(counts@, #[trigger] o@[a] as int, #[trigger] o@[b] as int),
            forall|j: usize| j < i ==> #[trigger] o@.contains(j),
        decreases counts@.len() - i,
    {
        let mut p: usize = 0;
        while p < o.len() && (counts[o[p]] > counts[i] || (counts[o[p]] == counts[i] && o[p] < i))
            invariant
                p <= o@.len(),
                i < counts@.len(),
                forall|k: int| 0 <= k < o@.len() ==> #[trigger] o@[k] < i,
                forall|k: int| 0 <= k < p ==> listed_before(counts@, #[trigger] o@[k] as int, i as int),
            decreases o@.len() - p,
        {
            p = p + 1;
        }
        let ghost before = o@;
        proof {
            if p < before.len() {
                assert forall|k: int| p <= k < before.len() implies listed_before(
                    counts@,
                    i as int,
                    #[trigger] before[k] as int,
                ) by {
                    assert(listed_before(counts@, before[p as int] as int, before[k] as int) || k == p);
                    assert(!listed_before(counts@, before[p as int] as int, i as int));
                }
            }
        }
        o.insert(p, i);
        assert forall|a: int, b: int|
            0 <= a < b < o@.len() implies listed_before(counts@, #[trigger] o@[a] as int, #[trigger] o@[b] as int) by {
            if b < p {
                assert(o@[a] == before[a] && o@[b] == before[b]);
            } else if b == p {
                assert(o@[a] == before[a]);
            } else if a < p {
                assert(o@[a] == before[a] && o@[b] == before[b - 1]);
            } else if a == p {
                assert(o@[b] == before[b - 1]);
            } else {
                assert(o@[a] == before[a - 1] && o@[b] == before[b - 1]);
            }
        }
        assert forall|j: usize| j < i + 1 implies #[trigger] o@.contains(j) by {
            if j == i {
                assert(o@[p as int] == j);
            } else {
                assert(before.contains(j));
                let k = choose|k: int| 0 <= k < before.len() && before[k] == j;
                if k < p {
                    assert(o@[k] == j);
                } else {
                    assert(o@[k + 1] == j);
                }
            }
        }
        i = i + 1;
    }
    o
}

} // verus!
