//! The configuration model of a load test: execution plans, scenarios,
//! requests, assertions, pacing, SLA criteria, reporting and services.
//!
//! Thresholds that the configuration writes as 32-bit floats are held here
//! by their IEEE-754 bit patterns (`f32::to_bits`), which stand for them
//! exactly.

use crate::strmap::StrMap;
use crate::text::{chars_of, starts_with, starts_with_in, str_eq, sub_string};
use vstd::prelude::*;
use vstd::string::StringExecFns;

verus! {

/// The protocol a request speaks.
#[derive(Debug, Clone, Copy, PartialEq, Eq, Structural)]
pub enum Protocol {
    Http,
    Websocket,
    Ws,
    Grpc,
}

/// HTTP request methods.
#[derive(Debug, Clone, Copy, PartialEq, Eq, Structural)]
pub enum HttpMethod {
    Get,
    Post,
    Put,
    Delete,
    Patch,
    Head,
}

/// gRPC call shapes other than unary.
#[derive(Debug, Clone, Copy, PartialEq, Eq, Structural)]
pub enum GrpcMode {
    ServerStreaming,
    ClientStreaming,
    BidiStreaming,
}

/// A whole load-test configuration.
#[derive(Debug, Clone)]
pub struct Configuration {
    pub execution: Vec<ExecutionPlan>,
    pub scenarios: StrMap<ScenarioDefinition>,
    pub reporting: Vec<ReportingDefinition>,
    pub services: Vec<ServiceDefinition>,
    pub api: Option<ApiConfig>,
}

/// How one scenario is executed: users, ramp-up, hold time and limits.
#[derive(Debug, Clone)]
pub struct ExecutionPlan {
    pub concurrency: usize,
    pub ramp_up: String,
    pub hold_for: String,
    pub scenario: String,
    pub throughput: Option<usize>,
    pub steps: Option<usize>,
    pub pacing: Option<PacingConfig>,
}

/// A named sequence of requests with its weight, think time, data sources
/// and headers.
#[derive(Debug, Clone)]
pub struct ScenarioDefinition {
    pub requests: Vec<HTTPRequestDefinition>,
    pub weight: usize,
    pub think_time: Option<String>,
    pub data_sources: Option<Vec<DataSourceDefinition>>,
    /// Scenario-level headers applied to all requests in this scenario.
    pub headers: Option<StrMap<String>>,
}

/// The weight a scenario has when the configuration gives none.
pub fn default_weight() -> (w: usize)
    ensures
        w == 1,
{
    1
}

/// A data source: a bare path or a path with reading options.
#[derive(Debug, Clone)]
pub enum DataSourceDefinition {
    Simple(String),
    Structured(StructuredDataSource),
}

/// The file path of a data source.
pub open spec fn data_source_path(d: DataSourceDefinition) -> Seq<char> {
    match d {
        DataSourceDefinition::Simple(p) => p@,
        DataSourceDefinition::Structured(s) => s.path@,
    }
}

impl DataSourceDefinition {
    /// The file path of the data source, whichever its form.
    pub fn path(&self) -> (p: &str)
        ensures
            p@ == data_source_path(*self),
    {
        match self {
            DataSourceDefinition::Simple(p) => p.as_str(),
            DataSourceDefinition::Structured(s) => s.path.as_str(),
        }
    }
}

/// A data source with explicit reading options.
#[derive(Debug, Clone)]
pub struct StructuredDataSource {
    pub path: String,
    pub delimiter: Option<String>,
    pub quoted: bool,
    pub loop_data: bool,
    pub ordered: bool,
}

/// A request: a bare URL (a GET) or a detailed definition.
#[derive(Debug, Clone)]
pub enum HTTPRequestDefinition {
    Simple(String),
    Detailed(Box<DetailedRequest>),
}

/// A fully described request.
#[derive(Debug, Clone)]
pub struct DetailedRequest {
    pub url: String,
    pub method: Option<HttpMethod>,
    pub headers: Option<StrMap<String>>,
    pub body: Option<String>,
    /// Human-readable label for metrics/reporting.
    pub label: Option<String>,
    /// File path to read request body from.
    pub body_file: Option<String>,
    /// Request timeout (e.g. "30s", "5000ms").
    pub timeout: Option<String>,
    pub on_start: bool,
    pub think_time: Option<String>,
    pub extract_jsonpath: Option<StrMap<String>>,
    pub extract_regexp: Option<StrMap<String>>,
    pub extract_xpath: Option<StrMap<String>>,
    pub assert: Vec<AssertionDefinition>,
    /// Protocol override (e.g. "websocket", "grpc")
    pub protocol: Option<Protocol>,
    /// WebSocket message to send
    pub message: Option<String>,
    /// gRPC service method
    pub method_name: Option<String>,
    pub grpc_mode: Option<GrpcMode>,
    pub messages: Vec<String>,
    /// Conditional execution: `variable_name` == value
    pub execute_if: Option<String>,
    /// Loop execution: while `variable_name` == value
    pub loop_while: Option<String>,
}

/// A detailed request for `url` with every other field absent, false or
/// empty.
pub open spec fn bare_request(url: Seq<char>, r: DetailedRequest) -> bool {
    &&& r.url@ == url
    &&& r.method is None
    &&& r.headers is None
    &&& r.body is None
    &&& r.label is None
    &&& r.body_file is None
    &&& r.timeout is None
    &&& !r.on_start
    &&& r.think_time is None
    &&& r.extract_jsonpath is None
    &&& r.extract_regexp is None
    &&& r.extract_xpath is None
    &&& r.assert@.len() == 0
    &&& r.protocol is None
    &&& r.message is None
    &&& r.method_name is None
    &&& r.grpc_mode is None
    &&& r.messages@.len() == 0
    &&& r.execute_if is None
    &&& r.loop_while is None
}

impl DetailedRequest {
    /// A request for `url` with every other field absent, false or empty.
    pub fn for_url(url: String) -> (r: Self)
        ensures
            bare_request(url@, r),
    {
        DetailedRequest {
            url,
            method: None,
            headers: None,
            body: None,
            label: None,
            body_file: None,
            timeout: None,
            on_start: false,
            think_time: None,
            extract_jsonpath: None,
            extract_regexp: None,
            extract_xpath: None,
            assert: Vec::new(),
            protocol: None,
            message: None,
            method_name: None,
            grpc_mode: None,
            messages: Vec::new(),
            execute_if: None,
            loop_while: None,
        }
    }
}

impl Default for DetailedRequest {
    fn default() -> (r: Self)
        ensures
            bare_request(Seq::empty(), r),
    {
        DetailedRequest::for_url(String::new())
    }
}

/// Request pacing: `rate` requests per `per` period, optionally randomized.
#[derive(Debug, Clone)]
pub struct PacingConfig {
    pub rate: usize,
    pub per: String,
    pub randomize: bool,
}

/// The pacing period when the configuration gives none.
pub fn default_pacing_per() -> (s: String)
    ensures
        s@ == "1s"@,
{
    String::from_str("1s")
}

/// The measured quantity an SLA criterion bounds.
#[derive(Debug, Clone, Copy, PartialEq, Eq, Structural)]
pub enum SlaMetric {
    FailRate,
    AvgResponseTime,
    P90ResponseTime,
    P95ResponseTime,
    P99ResponseTime,
    Throughput,
}

/// What happens when an SLA criterion is breached.
#[derive(Debug, Clone, PartialEq)]
pub enum SlaAction {
    Stop,
    Warn,
    Continue,
    Exec(String),
}

/// `a` is the action that name `s` denotes: `stop`, `warn` and `continue`
/// name themselves; anything else is a command, with one leading `exec:`
/// removed.
pub open spec fn action_named(s: Seq<char>, a: SlaAction) -> bool {
    if s == "stop"@ {
        a is Stop
    } else if s == "warn"@ {
        a is Warn
    } else if s == "continue"@ {
        a is Continue
    } else if starts_with(s, "exec:"@) {
        sla_command(a) == Some(s.skip(5))
    } else {
        sla_command(a) == Some(s)
    }
}

/// The command carried by an action, if any.
pub open spec fn sla_command(a: SlaAction) -> Option<Seq<char>> {
    match a {
        SlaAction::Exec(c) => Some(c@),
        _ => None,
    }
}

/// The name under which an action is written.
pub open spec fn sla_action_name(a: SlaAction) -> Seq<char> {
    match a {
        SlaAction::Stop => "stop"@,
        SlaAction::Warn => "warn"@,
        SlaAction::Continue => "continue"@,
        SlaAction::Exec(c) => "exec:"@ + c@,
    }
}

/// Two actions are the same action: same kind, and the same command for
/// `Exec`.
pub open spec fn same_action(a: SlaAction, b: SlaAction) -> bool {
    match (a, b) {
        (SlaAction::Stop, SlaAction::Stop) => true,
        (SlaAction::Warn, SlaAction::Warn) => true,
        (SlaAction::Continue, SlaAction::Continue) => true,
        (SlaAction::Exec(x), SlaAction::Exec(y)) => x@ == y@,
        _ => false,
    }
}

impl SlaAction {
    /// The action that a configured action name stands for (`stop`, `warn`,
    /// `continue`, `exec:<command>`, or any other text as a command).
    pub fn from_name(s: &str) -> (a: SlaAction)
        ensures
            action_named(s@, a),
    {
        if str_eq(s, "stop") {
            SlaAction::Stop
        } else if str_eq(s, "warn") {
            SlaAction::Warn
        } else if str_eq(s, "continue") {
            SlaAction::Continue
        } else {
            let v = chars_of(s);
            let prefix = chars_of("exec:");
            if starts_with_in(&v, 0, v.len(), &prefix) {
                proof {
                    reveal_strlit("exec:");
                    assert(v@.subrange(0, v@.len() as int) =~= v@);
                }
                let cmd = sub_string(&v, 5, v.len());
                assert(cmd@ =~= s@.skip(5));
                SlaAction::Exec(cmd)
            } else {
                proof {
                    assert(v@.subrange(0, v@.len() as int) =~= v@);
                }
                SlaAction::Exec(String::from_str(s))
            }
        }
    }

    /// The name under which the action is written (`exec:` before a command).
    pub fn name(&self) -> (s: String)
        ensures
            s@ == sla_action_name(*self),
    {
        match self {
            SlaAction::Stop => String::from_str("stop"),
            SlaAction::Warn => String::from_str("warn"),
            SlaAction::Continue => String::from_str("continue"),
            SlaAction::Exec(c) => {
                let mut s = String::from_str("exec:");
                s.append(c.as_str());
                s
            },
        }
    }

    /// `true` for the `Stop` action.
    pub fn is_stop(&self) -> (b: bool)
        ensures
            b == (*self is Stop),
    {
        match self {
            SlaAction::Stop => true,
            _ => false,
        }
    }
}

impl Default for SlaAction {
    fn default() -> (a: Self)
        ensures
            a is Stop,
    {
        SlaAction::Stop
    }
}

/// Reading an action back from its written name gives the same action.
pub proof fn lemma_sla_action_name_round_trip(a: SlaAction, b: SlaAction)
    requires
        action_named(sla_action_name(a), b),
    ensures
        same_action(a, b),
{
    reveal_strlit("stop");
    reveal_strlit("warn");
    reveal_strlit("continue");
    reveal_strlit("exec:");
    match a {
        SlaAction::Exec(c) => {
            let n = "exec:"@ + c@;
            assert(n.subrange(0, 5) =~= "exec:"@);
            assert(n.skip(5) =~= c@);
            assert("exec:"@[0] == 'e');
            assert(n[0] == 'e');
            assert("stop"@[0] == 's');
            assert("warn"@[0] == 'w');
            assert("continue"@[0] == 'c');
            assert(n != "stop"@);
            assert(n != "warn"@);
            assert(n != "continue"@);
            assert(starts_with(n, "exec:"@));
            assert(sla_command(b) == Some(c@));
            assert(b is Exec);
            assert(b->Exec_0@ == c@);
        },
        SlaAction::Warn => {
            assert("warn"@[0] != "stop"@[0]);
        },
        _ => {},
    }
}

/// Writing the action that a name denotes gives the name back exactly when
/// the name is `stop`, `warn`, `continue` or starts with `exec:`.
pub proof fn lemma_sla_action_named_round_trip(s: Seq<char>, a: SlaAction)
    requires
        action_named(s, a),
    ensures
        sla_action_name(a) == s <==> (s == "stop"@ || s == "warn"@ || s == "continue"@
            || starts_with(s, "exec:"@)),
{
    reveal_strlit("stop");
    reveal_strlit("warn");
    reveal_strlit("continue");
    reveal_strlit("exec:");
    if s != "stop"@ && s != "warn"@ && s != "continue"@ {
        if starts_with(s, "exec:"@) {
            assert("exec:"@ + s.skip(5) =~= s);
        } else {
            let n = "exec:"@ + s;
            assert(n.len() == s.len() + 5);
        }
    }
}

/// One SLA criterion: a metric, its threshold (as `f32` bits), an optional
/// subject path, an optional duration and the action on breach.
#[derive(Debug, Clone)]
pub struct SlaCriterion {
    pub metric: SlaMetric,
    pub threshold_bits: u32,
    pub subject: Option<String>,
    pub duration: Option<String>,
    pub action: SlaAction,
}

/// A response assertion: the subject (`body` or `http-code`) must (or, with
/// `not`, must not) contain each entry of `contains`.
#[derive(Debug, Clone)]
pub struct AssertionDefinition {
    pub contains: Vec<String>,
    pub subject: String,
    pub regexp: bool,
    pub not: bool,
}

/// The assertion subject when the configuration gives none.
pub fn default_subject() -> (s: String)
    ensures
        s@ == "body"@,
{
    String::from_str("body")
}

/// A reporting module and its settings (the failure threshold as `f32`
/// bits).
#[derive(Debug, Clone)]
pub struct ReportingDefinition {
    pub module: String,
    pub filename: Option<String>,
    pub url: Option<String>,
    pub token: Option<String>,
    pub org: Option<String>,
    pub bucket: Option<String>,
    pub interval: Option<String>,
    pub failed_threshold_bits: Option<u32>,
    pub sla: Vec<SlaCriterion>,
}

/// A service with shell commands for the prepare, startup and shutdown
/// phases.
#[derive(Debug, Clone)]
pub struct ServiceDefinition {
    pub module: String,
    pub prepare: Vec<String>,
    pub startup: Vec<String>,
    pub shutdown: Vec<String>,
}

/// The runtime control API.
#[derive(Debug, Clone)]
pub struct ApiConfig {
    pub enabled: bool,
    pub port: u16,
}

/// The control API port when the configuration gives none.
pub fn default_api_port() -> (p: u16)
    ensures
        p == 8000,
{
    8000
}

} // verus!
