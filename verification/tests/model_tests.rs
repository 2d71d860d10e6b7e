use bzt_rs::engine::data_sources::{check_path_within, check_size_limit, CsvDataSource, MAX_FILE_SIZE};
use bzt_rs::engine::extraction::{ExtractionEngine, UserSession};
use bzt_rs::engine::goose::{collect_sla_criteria, hook_commands, live_push_intervals, sla_watch_round, WatchAction};
use bzt_rs::engine::mock::{generate_mock_response, mock_http_answer, mock_ws_message};
use bzt_rs::engine::reporting::{
    display_path, endpoint_order, influx_target, junit_document, junit_report_file, percentile_time, total_count,
    xml_escape, JUnitCase, RealTimeEndpointStats, RealTimeMetrics,
};
use bzt_rs::engine::sla::{RequestAggregate, SlaEngine, SlaResult};
use bzt_rs::engine::validation::{validate_env_refs, validate_files, FileStatus, ValidationSummary};
use bzt_rs::engine::BztError;
use bzt_rs::json::{apply_override, override_fits, override_value, JsonNumber, JsonValue};
use bzt_rs::models::config::{
    default_api_port, default_pacing_per, default_subject, default_weight, AssertionDefinition, Configuration,
    DataSourceDefinition, DetailedRequest, ExecutionPlan, HTTPRequestDefinition, HttpMethod, Protocol,
    ReportingDefinition, ScenarioDefinition, ServiceDefinition, SlaAction, SlaCriterion, SlaMetric,
};
use bzt_rs::normalizer::{
    default_hold_for, default_ramp_up, SchemaNormalizer, ShorthandConfiguration, ShorthandExecution,
    ShorthandExecutionPlan, ShorthandScenario,
};
use bzt_rs::options::{config_format, config_override, console_disabled, split_option, ConfigFormat};
use bzt_rs::strmap::StrMap;
use bzt_rs::translator::{
    extract_default_host, grpc_host_key, html_report_file, parse_think_time, plan_execution, should_retry,
};

fn map(pairs: &[(&str, &str)]) -> StrMap<String> {
    let mut m = StrMap::new();
    for (k, v) in pairs {
        let _ = m.insert(k.to_string(), v.to_string());
    }
    m
}

fn scenario(requests: Vec<HTTPRequestDefinition>) -> ScenarioDefinition {
    ScenarioDefinition { requests, weight: 1, think_time: None, data_sources: None, headers: None }
}

fn config_with(scenarios: Vec<(&str, ScenarioDefinition)>) -> Configuration {
    let mut m = StrMap::new();
    for (k, s) in scenarios {
        let _ = m.insert(k.to_string(), s);
    }
    Configuration { execution: vec![], scenarios: m, reporting: vec![], services: vec![], api: None }
}

fn reporting(module: &str) -> ReportingDefinition {
    ReportingDefinition {
        module: module.to_string(),
        filename: None,
        url: None,
        token: None,
        org: None,
        bucket: None,
        interval: None,
        failed_threshold_bits: None,
        sla: vec![],
    }
}

// --- data sources ---

#[test]
fn test_get_record_wrapping_index() {
    let ds = CsvDataSource::from_records(vec![map(&[("id", "a")]), map(&[("id", "b")]), map(&[("id", "c")])]);
    assert_eq!(ds.get_record(0).unwrap().get("id").unwrap(), "a");
    assert_eq!(ds.get_record(3).unwrap().get("id").unwrap(), "a");
    assert_eq!(ds.get_record(4).unwrap().get("id").unwrap(), "b");
    assert_eq!(ds.get_record(5).unwrap().get("id").unwrap(), "c");
    assert_eq!(ds.get_record(100).unwrap().get("id").unwrap(), "b");
}

#[test]
fn test_get_record_large_index_wraps() {
    let ds = CsvDataSource::from_records(vec![map(&[("v", "x")])]);
    assert_eq!(ds.get_record(0).unwrap().get("v").unwrap(), "x");
    assert_eq!(ds.get_record(usize::MAX).unwrap().get("v").unwrap(), "x");
}

#[test]
fn test_get_record_empty_records_returns_none() {
    let ds = CsvDataSource::from_records(vec![]);
    assert!(ds.get_record(0).is_none());
    assert!(ds.get_record(100).is_none());
}

#[test]
fn test_csv_source_empty_file() {
    let ds = CsvDataSource::from_csv(b"id,name\n").unwrap();
    assert!(ds.get_record(0).is_none(), "empty CSV should have no records");
}

#[test]
fn test_csv_source_utf8_content() {
    let ds = CsvDataSource::from_csv("name,city\nHans,Munich\nYuki,Tokyo\n".as_bytes()).unwrap();
    let rec = ds.get_record(0).unwrap();
    assert_eq!(rec.get("name").unwrap(), "Hans");
    assert_eq!(rec.get("city").unwrap(), "Munich");
    let rec2 = ds.get_record(1).unwrap();
    assert_eq!(rec2.get("name").unwrap(), "Yuki");
    assert_eq!(rec2.get("city").unwrap(), "Tokyo");
}

#[test]
fn csv_malformed_rows_are_internal_errors() {
    match CsvDataSource::from_csv(b"a,b\n1,2,3\n") {
        Err(BztError::Internal(m)) => assert!(!m.is_empty()),
        other => panic!("unexpected {:?}", other.is_ok()),
    }
}

#[test]
fn path_and_size_checks() {
    assert!(check_path_within("data.csv", "/proj/data.csv", "/proj").is_ok());
    match check_path_within("/etc/passwd", "/etc/passwd", "/proj") {
        Err(BztError::Validation { field, reason }) => {
            assert_eq!(field, "data-source path");
            assert!(reason.contains("outside the project directory"));
        }
        _ => panic!("expected a refusal"),
    }
    assert!(check_path_within("x", "/projects/x", "/proj").is_err());
    assert!(check_size_limit("f.csv", MAX_FILE_SIZE).is_ok());
    match check_size_limit("f.csv", MAX_FILE_SIZE + 1) {
        Err(BztError::Validation { reason, .. }) => {
            assert_eq!(reason, "File 'f.csv' is 104857601 bytes, exceeds maximum of 104857600 bytes");
        }
        _ => panic!("expected a refusal"),
    }
}

// --- extraction ---

#[test]
fn test_extract_jsonpath() {
    let rules = map(&[("userId", "$.id")]);
    let mut session = UserSession::default();
    ExtractionEngine::extract_jsonpath(r#"{"id": 123, "name": "test"}"#, &rules, &mut session);
    assert_eq!(session.variables.get("userId").unwrap(), "123");
}

#[test]
fn test_extract_regex() {
    let rules = map(&[("token", "Token: ([a-z0-9-]+)")]);
    let mut session = UserSession::default();
    ExtractionEngine::extract_regex("Token: abc-123-def", &rules, &mut session);
    assert_eq!(session.variables.get("token").unwrap(), "abc-123-def");
}

#[test]
fn test_extract_xpath() {
    let body = r#"<bookstore><book category="cooking"><title lang="en">Everyday Italian</title><price>30.00</price></book></bookstore>"#;
    let rules = map(&[("title", "//book[@category='cooking']/title/text()"), ("price", "//price/text()")]);
    let mut session = UserSession::default();
    ExtractionEngine::extract_xpath(body, &rules, &mut session);
    assert_eq!(session.variables.get("title").unwrap(), "Everyday Italian");
    assert_eq!(session.variables.get("price").unwrap(), "30.00");
}

#[test]
fn test_extract_jsonpath_empty_body() {
    let rules = map(&[("val", "$.id")]);
    let mut session = UserSession::default();
    ExtractionEngine::extract_jsonpath("", &rules, &mut session);
    assert!(session.variables.is_empty(), "empty body should produce no variables");
}

#[test]
fn test_extract_jsonpath_malformed_json() {
    let rules = map(&[("val", "$.id")]);
    let mut session = UserSession::default();
    ExtractionEngine::extract_jsonpath("{not valid json", &rules, &mut session);
    assert!(session.variables.is_empty(), "malformed JSON should produce no variables");
}

#[test]
fn test_extract_jsonpath_missing_field() {
    let rules = map(&[("missing", "$.nonexistent")]);
    let mut session = UserSession::default();
    ExtractionEngine::extract_jsonpath(r#"{"id": 123}"#, &rules, &mut session);
    assert!(session.variables.is_empty(), "missing field should produce no variable");
}

#[test]
fn test_extract_jsonpath_empty_rules() {
    let rules = map(&[]);
    let mut session = UserSession::default();
    ExtractionEngine::extract_jsonpath(r#"{"id": 123}"#, &rules, &mut session);
    assert!(session.variables.is_empty(), "empty rules should produce no variables");
}

#[test]
fn test_extract_jsonpath_string_value() {
    let rules = map(&[("n", "$.name")]);
    let mut session = UserSession::default();
    ExtractionEngine::extract_jsonpath(r#"{"name": "hello"}"#, &rules, &mut session);
    assert_eq!(session.variables.get("n").unwrap(), "hello");
}

#[test]
fn test_extract_jsonpath_bool_value() {
    let rules = map(&[("flag", "$.active")]);
    let mut session = UserSession::default();
    ExtractionEngine::extract_jsonpath(r#"{"active": true}"#, &rules, &mut session);
    assert_eq!(session.variables.get("flag").unwrap(), "true");
}

#[test]
fn test_extract_regex_no_match() {
    let rules = map(&[("val", r"token=([a-z]+)")]);
    let mut session = UserSession::default();
    ExtractionEngine::extract_regex("nothing here matches", &rules, &mut session);
    assert!(session.variables.is_empty(), "no match should produce no variable");
}

#[test]
fn test_extract_regex_invalid_regex() {
    let rules = map(&[("val", "[invalid")]);
    let mut session = UserSession::default();
    ExtractionEngine::extract_regex("some text", &rules, &mut session);
    assert!(session.variables.is_empty(), "invalid regex should produce no variable");
}

#[test]
fn test_extract_regex_empty_body() {
    let rules = map(&[("val", r"token=([a-z]+)")]);
    let mut session = UserSession::default();
    ExtractionEngine::extract_regex("", &rules, &mut session);
    assert!(session.variables.is_empty(), "empty body should produce no variable");
}

#[test]
fn test_extract_regex_empty_rules() {
    let rules = map(&[]);
    let mut session = UserSession::default();
    ExtractionEngine::extract_regex("Token: abc", &rules, &mut session);
    assert!(session.variables.is_empty(), "empty rules should produce no variables");
}

#[test]
fn test_extract_regex_full_match_no_group() {
    let rules = map(&[("val", r"[a-z]+-\d+")]);
    let mut session = UserSession::default();
    ExtractionEngine::extract_regex("abc-123", &rules, &mut session);
    assert_eq!(session.variables.get("val").unwrap(), "abc-123");
}

#[test]
fn test_extract_xpath_malformed_xml() {
    let rules = map(&[("val", "//root/text()")]);
    let mut session = UserSession::default();
    ExtractionEngine::extract_xpath("<unclosed", &rules, &mut session);
    assert!(session.variables.is_empty(), "malformed XML should produce no variables");
}

#[test]
fn test_extract_xpath_invalid_xpath_syntax() {
    let rules = map(&[("val", "[invalid-xpath")]);
    let mut session = UserSession::default();
    ExtractionEngine::extract_xpath(r#"<root><item>hello</item></root>"#, &rules, &mut session);
    assert!(session.variables.is_empty(), "invalid xpath should produce no variables");
}

#[test]
fn test_extract_xpath_no_match() {
    let rules = map(&[("val", "//missing/text()")]);
    let mut session = UserSession::default();
    ExtractionEngine::extract_xpath(r#"<root><item>hello</item></root>"#, &rules, &mut session);
    assert!(session.variables.is_empty(), "xpath with no match should produce no variables");
}

#[test]
fn test_extract_xpath_empty_rules() {
    let rules = map(&[]);
    let mut session = UserSession::default();
    ExtractionEngine::extract_xpath(r#"<root><item>hello</item></root>"#, &rules, &mut session);
    assert!(session.variables.is_empty(), "empty rules should produce no variables");
}

#[test]
fn test_user_session_default_is_empty() {
    let session = UserSession::default();
    assert!(session.variables.is_empty());
}

#[test]
fn test_user_session_variable_overwrite() {
    let mut session = UserSession::default();
    let _ = session.variables.insert("key".to_string(), "val1".to_string());
    let _ = session.variables.insert("key".to_string(), "val2".to_string());
    assert_eq!(session.variables.get("key").unwrap(), "val2");
}

// --- reporting ---

#[test]
fn test_xml_escape_ampersand() {
    assert_eq!(xml_escape("a&b"), "a&amp;b");
}

#[test]
fn test_xml_escape_less_than() {
    assert_eq!(xml_escape("a<b"), "a&lt;b");
}

#[test]
fn test_xml_escape_greater_than() {
    assert_eq!(xml_escape("a>b"), "a&gt;b");
}

#[test]
fn test_xml_escape_double_quote() {
    assert_eq!(xml_escape(r#"a"b"#), "a&quot;b");
}

#[test]
fn test_xml_escape_single_quote() {
    assert_eq!(xml_escape("a'b"), "a&apos;b");
}

#[test]
fn test_xml_escape_all_special_chars() {
    assert_eq!(xml_escape("a&b<c>d\"e'f"), "a&amp;b&lt;c&gt;d&quot;e&apos;f");
}

#[test]
fn test_xml_escape_empty_string() {
    assert_eq!(xml_escape(""), "");
}

#[test]
fn test_xml_escape_no_special_chars() {
    assert_eq!(xml_escape("Hello World 123"), "Hello World 123");
}

#[test]
fn test_xml_escape_multiple_ampersands() {
    assert_eq!(xml_escape("&&"), "&amp;&amp;");
}

#[test]
fn test_xml_escape_xml_injection_prevention() {
    let escaped = xml_escape("<script>alert('xss')</script>");
    assert!(!escaped.contains("<script>"));
    assert!(escaped.contains("&lt;script&gt;"));
}

#[test]
fn test_real_time_metrics_default() {
    let metrics = RealTimeMetrics::default();
    assert!(metrics.endpoints.is_empty());
    assert!(metrics.start_time.elapsed().as_secs() < 5);
}

#[test]
fn test_real_time_endpoint_stats_default() {
    let stats = RealTimeEndpointStats::default();
    assert_eq!(stats.count, 0);
    assert_eq!(stats.failures, 0);
    assert_eq!(stats.total_time_ms, 0);
    assert!(stats.times.is_empty());
}

#[test]
fn push_time_keeps_at_most_the_cap() {
    let mut stats = RealTimeEndpointStats::default();
    for t in 0..10_000usize {
        stats.push_time(t);
    }
    assert_eq!(stats.times.len(), 10_000);
    stats.push_time(77);
    assert_eq!(stats.times.len(), 5_001);
    assert_eq!(stats.times[0], 5_000);
    assert_eq!(*stats.times.last().unwrap(), 77);
}

#[test]
fn record_counts_requests_and_failures() {
    let mut m = RealTimeMetrics::default();
    m.record("/a", 10, true);
    m.record("/a", 30, false);
    m.record("/b", 5, true);
    let a = m.endpoints.get("/a").unwrap();
    assert_eq!((a.count, a.failures, a.total_time_ms), (2, 1, 40));
    assert_eq!(a.times, vec![10, 30]);
    assert_eq!(m.endpoints.get("/b").unwrap().count, 1);
}

#[test]
fn test_percentile_exact() {
    let times = vec![(100, 10), (200, 10), (300, 10)];
    let total = total_count(&times);
    assert_eq!(total, 30);
    assert_eq!(percentile_time(&times, 29), 300);
    assert_eq!(percentile_time(&times, 10), 100);
    assert_eq!(percentile_time(&times, 11), 200);
    assert_eq!(percentile_time(&vec![], 1), 0);
    assert_eq!(percentile_time(&vec![(5, 1)], 9), 5);
}

#[test]
fn junit_document_text() {
    let cases = vec![
        JUnitCase { name: "/a<b>".to_string(), method: "GET".to_string(), fail_count: 0, time_text: "0.075".to_string() },
        JUnitCase { name: "/f".to_string(), method: "POST".to_string(), fail_count: 2, time_text: "0.100".to_string() },
    ];
    let doc = junit_document(&cases);
    let expected = "<?xml version=\"1.0\" encoding=\"UTF-8\"?>\n<testsuites>\n  <testsuite name=\"bzt-rs\" tests=\"2\" failures=\"2\">\n    <testcase name=\"/a&lt;b&gt;\" time=\"0.075\">\n    </testcase>\n    <testcase name=\"/f\" time=\"0.100\">\n      <failure message=\"Request failed: POST /f\" type=\"Error\" />\n    </testcase>\n  </testsuite>\n</testsuites>\n";
    assert_eq!(doc, expected);
    assert_eq!(junit_report_file("junit-xml", &None), Some("junit.xml".to_string()));
    assert_eq!(junit_report_file("junit-xml", &Some("r.xml".to_string())), Some("r.xml".to_string()));
    assert_eq!(junit_report_file("html", &None), None);
}

#[test]
fn influx_defaults() {
    let t = influx_target("influxdb", &None, &Some("b".to_string()), &None).unwrap();
    assert_eq!(t, ("http://localhost:8086".to_string(), "b".to_string(), String::new()));
    assert!(influx_target("junit-xml", &None, &None, &None).is_none());
}

#[test]
fn test_cli_summary_long_path_truncation() {
    let long_path = "/api/v1/users/".repeat(5);
    let shown = display_path(&long_path);
    assert!(shown.len() <= 40);
    assert_eq!(shown, format!("{}…", &long_path[..37]));
    assert_eq!(display_path("/short"), "/short");
}

#[test]
fn test_cli_summary_multiple_endpoints_sorted_by_count() {
    assert_eq!(endpoint_order(&vec![5, 20]), vec![1, 0]);
    assert_eq!(endpoint_order(&vec![3, 7, 3, 9]), vec![3, 1, 0, 2]);
    assert_eq!(endpoint_order(&vec![]), Vec::<usize>::new());
}

// --- SLA ---

fn result(passed: bool, action: SlaAction) -> SlaResult {
    SlaResult {
        metric: SlaMetric::FailRate,
        actual_bits: 0.5f32.to_bits(),
        threshold_bits: 0.1f32.to_bits(),
        passed,
        action,
        subject: None,
    }
}

#[test]
fn test_check_breaches_stop_action() {
    let results = vec![result(false, SlaAction::Stop)];
    let err = SlaEngine::check_breaches(&results);
    assert!(err.is_err());
    assert!(matches!(err.unwrap_err(), BztError::SlaViolation { .. }));
}

#[test]
fn test_check_breaches_warn_action_no_error() {
    let results = vec![result(false, SlaAction::Warn)];
    let result = SlaEngine::check_breaches(&results);
    assert!(result.is_ok());
}

#[test]
fn sla_totals_by_subject() {
    let agg = |path: &str, ok: usize, fail: usize, time: usize| RequestAggregate {
        path: path.to_string(),
        method: "GET".to_string(),
        success_count: ok,
        fail_count: fail,
        counter: ok + fail,
        total_time: time,
        minimum_time: 0,
        maximum_time: 0,
        times: vec![],
    };
    let reqs = vec![agg("/a", 8, 2, 500), agg("/b", 1, 0, 40)];
    let all = SlaEngine::totals(&reqs, None);
    assert_eq!((all.requests, all.failures, all.total_time, all.timed), (11, 2, 540, 11));
    let b = SlaEngine::totals(&reqs, Some("/b"));
    assert_eq!((b.requests, b.failures, b.total_time, b.timed), (1, 0, 40, 1));
    let mut live = RealTimeMetrics::default();
    live.record("/x", 10, false);
    let t = SlaEngine::live_totals(&live, Some("/x"));
    assert_eq!((t.requests, t.failures, t.total_time, t.timed), (1, 1, 10, 1));
}

#[test]
fn sla_watch_runs_each_command_once_and_stops() {
    let mut ran = StrMap::new();
    let results = vec![
        result(false, SlaAction::Exec("notify".to_string())),
        result(true, SlaAction::Stop),
        result(false, SlaAction::Warn),
        result(false, SlaAction::Exec("notify".to_string())),
    ];
    let (actions, ends) = sla_watch_round(&results, &mut ran);
    assert_eq!(actions, vec![WatchAction::Run("notify".to_string()), WatchAction::Warn(2)]);
    assert!(!ends);
    let (again, _) = sla_watch_round(&results, &mut ran);
    assert_eq!(again, vec![WatchAction::Warn(2)]);
    let stop = vec![result(false, SlaAction::Continue), result(false, SlaAction::Stop), result(false, SlaAction::Warn)];
    let (actions, ends) = sla_watch_round(&stop, &mut ran);
    assert_eq!(actions, vec![WatchAction::Note(0), WatchAction::Abort(1)]);
    assert!(ends);
}

#[test]
fn sla_criteria_from_reporting() {
    let mut r = reporting("final-stats");
    r.failed_threshold_bits = Some(0.1f32.to_bits());
    r.sla = vec![SlaCriterion {
        metric: SlaMetric::P95ResponseTime,
        threshold_bits: 500.0f32.to_bits(),
        subject: None,
        duration: None,
        action: SlaAction::Warn,
    }];
    let c = collect_sla_criteria(&vec![r]);
    assert_eq!(c.len(), 2);
    assert_eq!(c[0].metric, SlaMetric::FailRate);
    assert_eq!(c[0].action, SlaAction::Stop);
    assert_eq!(c[1].metric, SlaMetric::P95ResponseTime);
    let mut i = reporting("influxdb");
    i.interval = Some("10s".to_string());
    let mut z = reporting("influxdb");
    z.interval = Some("0s".to_string());
    assert_eq!(live_push_intervals(&vec![reporting("junit-xml"), i, z]), vec![(1, 10_000)]);
}

#[test]
fn hooks_by_phase() {
    let svc = ServiceDefinition {
        module: "shell".to_string(),
        prepare: vec!["a".to_string()],
        startup: vec!["b".to_string(), "c".to_string()],
        shutdown: vec![],
    };
    let other = ServiceDefinition { module: "docker".to_string(), prepare: vec!["x".to_string()], startup: vec![], shutdown: vec![] };
    let services = vec![svc, other];
    assert_eq!(hook_commands(&services, "prepare"), vec!["a".to_string()]);
    assert_eq!(hook_commands(&services, "startup"), vec!["b".to_string(), "c".to_string()]);
    assert!(hook_commands(&services, "other").is_empty());
}

// --- validation ---

#[test]
fn test_validate_env_refs_detects_sensitive_var_in_simple_request() {
    let config = config_with(vec![(
        "test_scenario",
        scenario(vec![HTTPRequestDefinition::Simple("https://${env.AWS_SECRET_KEY}.example.com/api".to_string())]),
    )]);
    let warnings = validate_env_refs(&config);
    assert_eq!(warnings.len(), 1);
    assert!(warnings[0].contains("AWS_SECRET_KEY"));
    assert!(warnings[0].contains("test_scenario"));
    assert!(warnings[0].contains("request 0"));
}

#[test]
fn test_validate_env_refs_skips_safe_vars() {
    let config = config_with(vec![(
        "safe",
        scenario(vec![HTTPRequestDefinition::Simple("https://${env.DEBUG}.example.com/api".to_string())]),
    )]);
    let warnings = validate_env_refs(&config);
    assert!(warnings.is_empty(), "DEBUG should not be flagged as sensitive");
}

#[test]
fn test_validate_env_refs_checks_detailed_request_body_and_url() {
    let d = DetailedRequest {
        url: "https://api.example.com/data".to_string(),
        method: Some(HttpMethod::Post),
        body: Some("{\"token\": \"${env.SECRET_TOKEN}\"}".to_string()),
        ..Default::default()
    };
    let config = config_with(vec![("detailed", scenario(vec![HTTPRequestDefinition::Detailed(Box::new(d))]))]);
    let warnings = validate_env_refs(&config);
    assert_eq!(warnings.len(), 1);
    assert!(warnings[0].contains("SECRET_TOKEN"));
}

#[test]
fn test_validate_env_refs_multiple_requests_multiple_warnings() {
    let config = config_with(vec![(
        "multi",
        scenario(vec![
            HTTPRequestDefinition::Simple("${env.API_KEY}/endpoint".to_string()),
            HTTPRequestDefinition::Simple("${env.DB_PASSWORD}/db".to_string()),
            HTTPRequestDefinition::Simple("https://${env.HOST}/health".to_string()),
        ]),
    )]);
    let warnings = validate_env_refs(&config);
    assert_eq!(warnings.len(), 2);
    assert_eq!(
        warnings[1],
        "Scenario 'multi', request 1: env var '${env.DB_PASSWORD}' matches sensitive patterns"
    );
}

#[test]
fn test_file_existence_validation() {
    let found_ds = DataSourceDefinition::Simple("/tmp/x/test.csv".to_string());
    let missing_ds = DataSourceDefinition::Simple("missing.csv".to_string());
    let existence = validate_files(&[&found_ds, &missing_ds], &[true, false]);
    assert!(matches!(existence.get("/tmp/x/test.csv").unwrap(), FileStatus::Found));
    assert!(matches!(existence.get("missing.csv").unwrap(), FileStatus::Missing));
}

#[test]
fn validation_summary_verdict_and_lines() {
    let mut s = ValidationSummary::default();
    s.syntax_valid = true;
    s.normalization_successful = true;
    s.translation_successful = true;
    let _ = s.file_existence.insert("a.csv".to_string(), FileStatus::Found);
    assert!(s.is_valid());
    let _ = s.file_existence.insert("b.csv".to_string(), FileStatus::Missing);
    assert!(!s.is_valid());
    let lines = s.report_lines();
    assert_eq!(
        lines,
        vec![
            "[OK] Parsing configuration",
            "[OK] Normalizing configuration",
            "[OK] Verifying data-source: a.csv",
            "[ERROR] Missing data-source: b.csv",
            "[OK] Translating to Goose Attack",
            "Validation Failed.",
        ]
    );
}

// --- models and defaults ---

#[test]
fn model_defaults() {
    assert_eq!(default_weight(), 1);
    assert_eq!(default_pacing_per(), "1s");
    assert_eq!(default_subject(), "body");
    assert_eq!(default_api_port(), 8000);
    assert_eq!(default_ramp_up(), "0s");
    assert_eq!(default_hold_for(), "10s");
    assert_eq!(SlaAction::default(), SlaAction::Stop);
    assert_eq!(SlaAction::from_name("exec:run.sh"), SlaAction::Exec("run.sh".to_string()));
    assert_eq!(SlaAction::from_name("other").name(), "exec:other");
    assert_eq!(DataSourceDefinition::Simple("p.csv".to_string()).path(), "p.csv");
}

// --- mock ---

#[test]
fn test_assertion_to_body_mapping() {
    let req = DetailedRequest {
        url: "/api/test".to_string(),
        assert: vec![AssertionDefinition {
            contains: vec!["Success".to_string(), "token: 123".to_string()],
            subject: "body".to_string(),
            regexp: false,
            not: false,
        }],
        ..Default::default()
    };
    let response = generate_mock_response(&req);
    assert_eq!(response.status, 200);
    assert_eq!(response.body, "Success token: 123");
}

#[test]
fn mock_routes() {
    let hello = DetailedRequest {
        url: "/api/hello".to_string(),
        method: Some(HttpMethod::Post),
        assert: vec![AssertionDefinition {
            contains: vec!["Hello Mock".to_string()],
            subject: "body".to_string(),
            regexp: false,
            not: false,
        }],
        ..Default::default()
    };
    let ws = DetailedRequest {
        url: "/ws/chat".to_string(),
        protocol: Some(Protocol::Websocket),
        assert: vec![AssertionDefinition {
            contains: vec!["Welcome".to_string()],
            subject: "body".to_string(),
            regexp: false,
            not: false,
        }],
        ..Default::default()
    };
    let config = config_with(vec![(
        "s",
        scenario(vec![
            HTTPRequestDefinition::Simple("/ping".to_string()),
            HTTPRequestDefinition::Detailed(Box::new(hello)),
            HTTPRequestDefinition::Detailed(Box::new(ws)),
        ]),
    )]);
    assert_eq!(mock_http_answer(&config, Some(HttpMethod::Get), "ping"), Some((200, "OK".to_string())));
    assert_eq!(mock_http_answer(&config, Some(HttpMethod::Post), "/api/hello"), Some((200, "Hello Mock".to_string())));
    assert_eq!(mock_http_answer(&config, Some(HttpMethod::Get), "/api/hello"), None);
    assert_eq!(mock_ws_message(&config, "chat"), Some("Welcome".to_string()));
    assert_eq!(mock_ws_message(&config, "/other"), None);
}

// --- normalizer ---

#[test]
fn test_hierarchical_resolution() {
    let mut scenarios = StrMap::new();
    let _ = scenarios.insert("auth".to_string(), ShorthandScenario { requests: vec!["/login".to_string()] });
    let _ = scenarios.insert("auth.search".to_string(), ShorthandScenario { requests: vec!["/search".to_string()] });
    let shorthand = ShorthandConfiguration {
        execution: ShorthandExecution::Single(ShorthandExecutionPlan {
            concurrency: 1,
            ramp_up: "0s".to_string(),
            hold_for: "1s".to_string(),
            scenario: "auth.search".to_string(),
        }),
        scenarios,
    };
    let config = SchemaNormalizer::normalize_shorthand(shorthand);
    let resolved = config.scenarios.get("auth.search").unwrap();
    assert_eq!(resolved.requests.len(), 2);
    match &resolved.requests[0] {
        HTTPRequestDefinition::Detailed(d) => {
            assert_eq!(d.url, "/login");
            assert!(d.on_start);
        }
        _ => panic!("Expected detailed request"),
    }
    match &resolved.requests[1] {
        HTTPRequestDefinition::Simple(url) => assert_eq!(url, "/search"),
        _ => panic!("Expected simple request"),
    }
}

#[test]
fn test_multiple_execution_plans() {
    let shorthand = ShorthandConfiguration {
        execution: ShorthandExecution::Multiple(vec![
            ShorthandExecutionPlan { concurrency: 5, ramp_up: "10s".to_string(), hold_for: "1m".to_string(), scenario: "s1".to_string() },
            ShorthandExecutionPlan { concurrency: 10, ramp_up: "5s".to_string(), hold_for: "30s".to_string(), scenario: "s2".to_string() },
        ]),
        scenarios: StrMap::new(),
    };
    let config = SchemaNormalizer::normalize_shorthand(shorthand);
    assert_eq!(config.execution.len(), 2);
    assert_eq!(config.execution[0].concurrency, 5);
    assert_eq!(config.execution[1].concurrency, 10);
}

// --- translator ---

#[test]
fn test_extract_default_host_resolution() {
    let sd = scenario(vec![
        HTTPRequestDefinition::Simple("/relative-path".to_string()),
        HTTPRequestDefinition::Simple("https://my-domain.org:9000/api/v1".to_string()),
    ]);
    assert_eq!(extract_default_host(&sd), Some("https://my-domain.org:9000".to_string()));
}

#[test]
fn default_host_edge_cases() {
    let sd = scenario(vec![
        HTTPRequestDefinition::Simple("http:///nohost".to_string()),
        HTTPRequestDefinition::Simple("ws://chat.local?x=1".to_string()),
    ]);
    assert_eq!(extract_default_host(&sd), Some("ws://chat.local".to_string()));
    assert_eq!(extract_default_host(&scenario(vec![HTTPRequestDefinition::Simple("ftp://x".to_string())])), None);
}

#[test]
fn think_times_and_plans() {
    assert_eq!(parse_think_time("1s-3s"), (1000, 3000));
    assert_eq!(parse_think_time("500ms"), (500, 500));
    assert_eq!(parse_think_time("1s-2s-9s"), (1000, 2000));
    let mut sd = scenario(vec![HTTPRequestDefinition::Simple("http://h:1/x".to_string())]);
    sd.weight = 3;
    sd.think_time = Some("100ms-200ms".to_string());
    let config = config_with(vec![("s", sd)]);
    let plan = ExecutionPlan {
        concurrency: 4,
        ramp_up: "2s".to_string(),
        hold_for: "1m".to_string(),
        scenario: "s".to_string(),
        throughput: Some(7),
        steps: None,
        pacing: None,
    };
    let settings = plan_execution(&config, &plan, &None);
    assert_eq!(settings.users, 4);
    assert_eq!(settings.run_time_secs, 60);
    assert_eq!(settings.ramp_up_ms, 2000);
    assert_eq!(settings.host, "http://h:1");
    assert_eq!(settings.throttle, Some(7));
    let sc = settings.scenario.unwrap();
    assert_eq!(sc.weight, Some(3));
    assert_eq!(sc.wait_ms, Some((100, 200)));
    let other = plan_execution(&config, &ExecutionPlan { scenario: "none".to_string(), ..plan }, &Some("http://o".to_string()));
    assert_eq!(other.host, "http://o");
    assert!(other.scenario.is_none());
    let mut html = reporting("html");
    html.filename = Some("out.html".to_string());
    assert_eq!(html_report_file(&vec![reporting("html"), html]), Some("out.html".to_string()));
    assert_eq!(html_report_file(&vec![reporting("html")]), Some("report.html".to_string()));
}

#[test]
fn request_step_decisions() {
    assert!(should_retry("Connection Reset by peer", 1));
    assert!(!should_retry("connection reset", 3));
    assert!(!should_retry("timeout", 0));
    assert_eq!(grpc_host_key("localhost:50051"), "http://localhost:50051");
    assert_eq!(grpc_host_key("https://x"), "https://x");
}

// --- options and overrides ---

#[test]
fn option_parsing() {
    assert_eq!(split_option(" a.b = c "), Some(("a.b".to_string(), "c".to_string())));
    assert_eq!(split_option("novalue"), None);
    assert!(console_disabled(&vec!["x=1".to_string(), "modules.console.disable = true".to_string()]));
    assert!(!console_disabled(&vec!["modules.console.disable=false".to_string()]));
    assert_eq!(config_override("execution.0.concurrency=5"), Some(("execution.0.concurrency".to_string(), "5".to_string())));
    assert_eq!(config_override("modules.x=1"), None);
    assert_eq!(config_format("c.YML"), Some(ConfigFormat::Yaml));
    assert_eq!(config_format("dir/c.Json"), Some(ConfigFormat::Json));
    assert_eq!(config_format("c.toml"), Some(ConfigFormat::Toml));
    assert_eq!(config_format("c.txt"), None);
    assert_eq!(config_format(".json"), None);
}

fn obj() -> JsonValue {
    JsonValue::Object(StrMap::new())
}

#[test]
fn override_sets_nested_values() {
    let mut root = obj();
    apply_override(&mut root, "execution.0.concurrency", override_value("5", None, None)).unwrap();
    match &root {
        JsonValue::Object(m) => match m.get("execution").unwrap() {
            JsonValue::Array(a) => {
                assert_eq!(a.len(), 1);
                match &a[0] {
                    JsonValue::Object(e) => match e.get("concurrency").unwrap() {
                        JsonValue::Number(JsonNumber::PosInt(5)) => {}
                        other => panic!("unexpected {:?}", other),
                    },
                    other => panic!("unexpected {:?}", other),
                }
            }
            other => panic!("unexpected {:?}", other),
        },
        other => panic!("unexpected {:?}", other),
    }
    let mut scalar = JsonValue::Bool(true);
    assert_eq!(
        apply_override(&mut scalar, "a.b", JsonValue::Null),
        Err("Expected object or array at part 'a' for path a.b".to_string())
    );
    let mut arr = JsonValue::Array(vec![]);
    assert_eq!(
        apply_override(&mut arr, "x", JsonValue::Null),
        Err("Expected array index but found 'x' at path x".to_string())
    );
    let mut leaf = JsonValue::Null;
    assert_eq!(
        apply_override(&mut leaf, "k", JsonValue::Null),
        Err("Cannot set property of non-object/non-array for path k".to_string())
    );
    let mut padded = JsonValue::Array(vec![]);
    apply_override(&mut padded, "2", JsonValue::Bool(false)).unwrap();
    match padded {
        JsonValue::Array(a) => {
            assert_eq!(a.len(), 3);
            assert!(matches!(a[0], JsonValue::Null));
            assert!(matches!(a[2], JsonValue::Bool(false)));
        }
        other => panic!("unexpected {:?}", other),
    }
}

#[test]
fn override_value_kinds() {
    assert!(matches!(override_value("true", None, None), JsonValue::Bool(true)));
    assert!(matches!(override_value("-12", Some(Some("-12.0".to_string())), None), JsonValue::Number(JsonNumber::NegInt(-12))));
    assert!(matches!(override_value("+7", None, None), JsonValue::Number(JsonNumber::PosInt(7))));
    match override_value("1.5", Some(Some("1.5".to_string())), None) {
        JsonValue::Number(JsonNumber::Float(t)) => assert_eq!(t, "1.5"),
        other => panic!("unexpected {:?}", other),
    }
    match override_value("inf", Some(None), None) {
        JsonValue::String(s) => assert_eq!(s, "inf"),
        other => panic!("unexpected {:?}", other),
    }
    assert!(matches!(override_value("null", None, Some(JsonValue::Null)), JsonValue::Null));
    match override_value("hello", None, None) {
        JsonValue::String(s) => assert_eq!(s, "hello"),
        other => panic!("unexpected {:?}", other),
    }
}

#[test]
fn override_paths_with_the_largest_index_are_refused() {
    let empty = JsonValue::Object(StrMap::new());
    assert!(override_fits(&empty, "execution.0.concurrency"));
    assert!(override_fits(&empty, "scenarios.main"));
    assert!(!override_fits(&empty, "execution.18446744073709551615.x"));
    let mut inner = StrMap::new();
    let _ = inner.insert("m".to_string(), JsonValue::Object(StrMap::new()));
    let root = JsonValue::Object(inner);
    assert!(override_fits(&root, "m.18446744073709551615"));
    assert!(!override_fits(&JsonValue::Array(vec![]), "18446744073709551615"));
}

#[test]
fn mock_answer_passes_its_body_assertions() {
    let mut req = DetailedRequest::for_url("/api/items".to_string());
    req.assert = vec![
        AssertionDefinition {
            contains: vec!["alpha".to_string(), "beta".to_string()],
            subject: "body".to_string(),
            regexp: false,
            not: false,
        },
        AssertionDefinition { contains: vec!["200".to_string()], subject: "http-code".to_string(), regexp: false, not: false },
        AssertionDefinition { contains: vec!["gamma".to_string()], subject: "body".to_string(), regexp: false, not: false },
    ];
    let response = generate_mock_response(&req);
    assert_eq!(response.body, "alpha beta gamma");
    for a in &req.assert {
        assert!(bzt_rs::engine::control_flow::AssertionEngine::check_assertion(&response.body, response.status, a).is_ok());
    }
}

#[test]
fn config_format_reads_the_file_name_of_a_path() {
    assert_eq!(config_format("configs/load.test.YML"), Some(ConfigFormat::Yaml));
    assert_eq!(config_format("./a/b.toml"), Some(ConfigFormat::Toml));
    assert_eq!(config_format("dir.json/plain"), None);
    assert_eq!(config_format(".json"), None);
}
