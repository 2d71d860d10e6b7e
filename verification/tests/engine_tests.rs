use bzt_rs::engine::control_flow::{AssertionEngine, ControlFlowEngine, FloatOrder};
use bzt_rs::engine::env::EnvironmentLoader;
use bzt_rs::engine::interpolation::Interpolator;
use bzt_rs::engine::macros::{is_sensitive_var, mask_env_value, sensitive_blocklist, GeneratedValues, MacroEvaluator};
use bzt_rs::engine::pacing::{parse_period, PacingEngine};
use bzt_rs::engine::utils::{parse_time_to_ms, parse_time_to_ms_checked};
use bzt_rs::engine::BztError;
use bzt_rs::models::config::{AssertionDefinition, PacingConfig};
use bzt_rs::strmap::StrMap;

fn map(pairs: &[(&str, &str)]) -> StrMap<String> {
    let mut m = StrMap::new();
    for (k, v) in pairs {
        let _ = m.insert(k.to_string(), v.to_string());
    }
    m
}

fn numeric(a: &str, b: &str) -> Option<FloatOrder> {
    match (a.parse::<f64>(), b.parse::<f64>()) {
        (Ok(x), Ok(y)) => Some(match x.partial_cmp(&y) {
            Some(std::cmp::Ordering::Less) => FloatOrder::Less,
            Some(std::cmp::Ordering::Equal) => FloatOrder::Equal,
            Some(std::cmp::Ordering::Greater) => FloatOrder::Greater,
            None => FloatOrder::Unordered,
        }),
        _ => None,
    }
}

fn eval(cond: &str, vars: &StrMap<String>) -> bool {
    ControlFlowEngine::evaluate_condition(cond, vars, &numeric)
}

// --- assertions ---

#[test]
fn test_body_assertion() {
    let assertion = AssertionDefinition {
        contains: vec!["Hello".to_string()],
        subject: "body".to_string(),
        regexp: false,
        not: false,
    };
    assert!(AssertionEngine::check_assertion("Hello world", 200, &assertion).is_ok());
    assert!(AssertionEngine::check_assertion("Goodbye", 200, &assertion).is_err());
}

#[test]
fn test_status_assertion() {
    let assertion = AssertionDefinition {
        contains: vec!["200".to_string()],
        subject: "http-code".to_string(),
        regexp: false,
        not: false,
    };
    assert!(AssertionEngine::check_assertion("", 200, &assertion).is_ok());
    assert!(AssertionEngine::check_assertion("", 404, &assertion).is_err());
}

#[test]
fn status_assertion_failure_names_pattern() {
    let assertion = AssertionDefinition {
        contains: vec!["201".to_string()],
        subject: "http-code".to_string(),
        regexp: false,
        not: true,
    };
    match AssertionEngine::check_assertion("", 201, &assertion) {
        Err(BztError::Validation { field, reason }) => {
            assert_eq!(field, "http-code");
            assert_eq!(reason, "expected status to not be 201");
        }
        other => panic!("unexpected {:?}", other),
    }
}

#[test]
fn regex_body_assertion_and_not() {
    let assertion = AssertionDefinition {
        contains: vec!["id=[0-9]+".to_string()],
        subject: "body".to_string(),
        regexp: true,
        not: false,
    };
    assert!(AssertionEngine::check_assertion("user id=42", 200, &assertion).is_ok());
    let negated = AssertionDefinition { not: true, ..assertion };
    match AssertionEngine::check_assertion("user id=42", 200, &negated) {
        Err(BztError::Validation { field, reason }) => {
            assert_eq!(field, "body");
            assert_eq!(reason, "expected to not contain 'id=[0-9]+'");
        }
        other => panic!("unexpected {:?}", other),
    }
}

// --- conditions ---

#[test]
fn test_evaluate_condition_basic() {
    let vars = map(&[("status", "200")]);
    assert!(eval("status == 200", &vars));
    assert!(eval("status != 404", &vars));
}

#[test]
fn test_evaluate_condition_numeric() {
    let vars = map(&[("count", "10")]);
    assert!(eval("count > 5", &vars));
    assert!(eval("count >= 10", &vars));
    assert!(eval("count < 20", &vars));
    assert!(!eval("count < 5", &vars));
}

#[test]
fn test_evaluate_condition_logical() {
    let vars = map(&[("status", "200"), ("count", "10")]);
    assert!(eval("status == 200 && count > 5", &vars));
    assert!(eval("status == 500 || count == 10", &vars));
    assert!(!eval("status == 200 && count < 5", &vars));
}

#[test]
fn test_evaluate_condition_truthy() {
    let vars = map(&[("exists", "true")]);
    assert!(eval("exists", &vars));
    assert!(!eval("missing", &vars));
}

#[test]
fn condition_edge_cases() {
    let vars = map(&[("name", "bob"), ("empty", "")]);
    assert!(eval("", &vars));
    assert!(eval("   ", &vars));
    assert!(!eval("empty", &vars));
    assert!(eval("name > alice", &vars));
    assert!(eval("name == \"bob\"", &vars));
    assert!(!eval("NaN > 1", &vars));
}

// --- interpolation ---

#[test]
fn test_single_variable() {
    let vars = map(&[("name", "Alice")]);
    assert_eq!(Interpolator::interpolate("Hello ${name}!", &vars), "Hello Alice!");
}

#[test]
fn test_multiple_variables() {
    let vars = map(&[("first", "John"), ("last", "Doe")]);
    assert_eq!(Interpolator::interpolate("${first} ${last}", &vars), "John Doe");
}

#[test]
fn test_missing_variable_unchanged() {
    let vars = map(&[]);
    assert_eq!(Interpolator::interpolate("Hello ${name}!", &vars), "Hello ${name}!");
}

#[test]
fn test_no_variables() {
    let vars = map(&[]);
    assert_eq!(Interpolator::interpolate("Hello world!", &vars), "Hello world!");
}

#[test]
fn test_same_variable_multiple_times() {
    let vars = map(&[("x", "foo")]);
    assert_eq!(Interpolator::interpolate("${x}_${x}_${x}", &vars), "foo_foo_foo");
}

#[test]
fn test_partial_match_no_replace() {
    let vars = map(&[("name", "Alice")]);
    assert_eq!(
        Interpolator::interpolate("Hello ${name} and ${other}!", &vars),
        "Hello Alice and ${other}!"
    );
}

#[test]
fn test_variable_name_with_numbers() {
    let vars = map(&[("var123", "value")]);
    assert_eq!(Interpolator::interpolate("${var123}", &vars), "value");
}

#[test]
fn test_empty_input() {
    let vars = map(&[]);
    assert_eq!(Interpolator::interpolate("", &vars), "");
}

#[test]
fn interpolation_without_placeholders_is_identity() {
    let vars = map(&[("a", "1")]);
    assert_eq!(Interpolator::interpolate("plain ${ text", &vars), "plain ${ text");
}

// --- sensitive variables ---

#[test]
fn test_is_sensitive_var_aws() {
    assert!(is_sensitive_var("AWS_SECRET_KEY"));
    assert!(is_sensitive_var("AWS_ACCESS_KEY_ID"));
    assert!(is_sensitive_var("aws_secret_key"));
}

#[test]
fn test_is_sensitive_var_secret_prefix() {
    assert!(is_sensitive_var("SECRET_KEY"));
    assert!(is_sensitive_var("SECRET_TOKEN"));
    assert!(is_sensitive_var("secret_value"));
}

#[test]
fn test_is_sensitive_var_key_suffix() {
    assert!(is_sensitive_var("API_KEY"));
    assert!(is_sensitive_var("STRIPE_SECRET_KEY"));
}

#[test]
fn test_is_sensitive_var_token_password() {
    assert!(is_sensitive_var("GITHUB_TOKEN"));
    assert!(is_sensitive_var("DB_PASSWORD"));
    assert!(is_sensitive_var("DATABASE_URL"));
}

#[test]
fn test_is_sensitive_var_private_db() {
    assert!(is_sensitive_var("PRIVATE_KEY"));
    assert!(is_sensitive_var("DB_HOST"));
    assert!(is_sensitive_var("DB_NAME"));
}

#[test]
fn test_is_sensitive_var_safe() {
    assert!(!is_sensitive_var("HOME"));
    assert!(!is_sensitive_var("PATH"));
    assert!(!is_sensitive_var("LANG"));
    assert!(!is_sensitive_var("USER"));
    assert!(!is_sensitive_var("DEBUG"));
}

#[test]
fn sensitive_patterns_exact_and_contains() {
    assert!(is_sensitive_var("key"));
    assert!(!is_sensitive_var("KEYBOARD"));
    assert!(is_sensitive_var("MY_PASSWORD_HINT"));
    assert_eq!(
        sensitive_blocklist(),
        vec!["AWS_", "SECRET", "KEY", "_KEY", "_TOKEN", "_PASSWORD", "PASSWORD", "PRIVATE", "DATABASE_URL", "DB_"]
    );
}

#[test]
fn test_mask_env_value_sensitive() {
    assert_eq!(mask_env_value("AWS_SECRET_KEY", "super-secret"), "[REDACTED]");
    assert_eq!(mask_env_value("DB_PASSWORD", "hunter2"), "[REDACTED]");
}

#[test]
fn test_mask_env_value_safe() {
    assert_eq!(mask_env_value("HOME", "/home/user"), "/home/user");
    assert_eq!(mask_env_value("PATH", "/usr/bin"), "/usr/bin");
}

// --- environment placeholders ---

#[test]
fn test_resolve_env_var() {
    let vars = map(&[("DEBUG", "true")]);
    let result = EnvironmentLoader::resolve("${env.DEBUG}", &vars, &[], &map(&[])).unwrap();
    assert_eq!(result, "true");
}

#[test]
fn test_resolve_missing_var_returns_empty() {
    let vars = map(&[]);
    let result = EnvironmentLoader::resolve("${env.MISSING}", &vars, &[], &map(&[])).unwrap();
    assert_eq!(result, "");
}

#[test]
fn test_blocklist_rejects_sensitive_var() {
    let vars = map(&[("AWS_SECRET_KEY", "secret123")]);
    let result = EnvironmentLoader::resolve("${env.AWS_SECRET_KEY}", &vars, &["SECRET"], &map(&[]));
    assert!(result.is_err());
    assert!(matches!(result.unwrap_err(), BztError::Environment { .. }));
}

#[test]
fn test_resolve_with_prefix_and_suffix() {
    let vars = map(&[("HOST", "localhost")]);
    let result =
        EnvironmentLoader::resolve("http://${env.HOST}:8080/path", &vars, &[], &map(&[])).unwrap();
    assert_eq!(result, "http://localhost:8080/path");
}

#[test]
fn test_no_env_var_no_change() {
    let vars = map(&[]);
    let result = EnvironmentLoader::resolve("plain text", &vars, &[], &map(&[])).unwrap();
    assert_eq!(result, "plain text");
}

#[test]
fn test_multiple_env_vars() {
    let vars = map(&[("A", "hello"), ("B", "world")]);
    let result = EnvironmentLoader::resolve("${env.A} ${env.B}", &vars, &[], &map(&[])).unwrap();
    assert_eq!(result, "hello world");
}

#[test]
fn env_snapshot_used_after_session_variables() {
    let vars = map(&[("A", "session")]);
    let env = map(&[("A", "environment"), ("B", "from-env")]);
    let result = EnvironmentLoader::resolve("${env.A}/${env.B}", &vars, &[], &env).unwrap();
    assert_eq!(result, "session/from-env");
}

#[test]
fn env_resolution_error_names_variable() {
    let env = map(&[("GITHUB_TOKEN", "t")]);
    match EnvironmentLoader::resolve("x ${env.HOST} ${env.GITHUB_TOKEN}", &map(&[]), &[], &env) {
        Err(e) => {
            assert_eq!(
                e.message(),
                "[ENV] Variable 'GITHUB_TOKEN': access to sensitive environment variable is blocked"
            );
        }
        Ok(s) => panic!("resolved {s}"),
    }
}

// --- macros ---

fn no_generated() -> GeneratedValues {
    GeneratedValues {
        email: String::new(),
        name: String::new(),
        word: String::new(),
        uuid: String::new(),
    }
}

#[test]
fn test_env_var_injection() {
    let env = map(&[("TEST_VAR", "hello")]);
    let input = "Value is ${TEST_VAR}";
    assert_eq!(MacroEvaluator::evaluate(input, None, &env).unwrap(), "Value is hello");
}

#[test]
fn test_record_injection() {
    let record = map(&[("id", "123")]);
    let input = "User ${id}";
    assert_eq!(
        MacroEvaluator::evaluate(input, Some(&record), &map(&[])).unwrap(),
        "User 123"
    );
}

#[test]
fn test_faker_macro() {
    let input = "${faker.email}";
    let output = MacroEvaluator::evaluate(input, None, &map(&[])).unwrap();
    assert!(output.contains('@'));
    assert_ne!(output, "${faker.email}");
}

#[test]
fn test_uuid_macro() {
    let input = "${uuid}";
    let output = MacroEvaluator::evaluate(input, None, &map(&[])).unwrap();
    assert_eq!(output.len(), 36);
    assert_ne!(output, "${uuid}");
}

#[test]
fn test_sensitive_env_var_blocked() {
    let env = map(&[("AWS_SECRET_KEY", "should-not-resolve")]);
    let input = "${AWS_SECRET_KEY}";
    let result = MacroEvaluator::evaluate(input, None, &env);
    assert!(result.is_err());
    let err = result.unwrap_err();
    assert!(err.message().contains("blocked"));
}

#[test]
fn test_sensitive_env_var_env_prefix_blocked() {
    let env = map(&[("DB_PASSWORD", "hunter2")]);
    let input = "${env.DB_PASSWORD}";
    let result = MacroEvaluator::evaluate(input, None, &env);
    assert!(result.is_err());
}

#[test]
fn macro_expansion_order_and_generated_values() {
    let g = GeneratedValues {
        email: "a@example.com".to_string(),
        name: "Ann".to_string(),
        word: "w".to_string(),
        uuid: "u".to_string(),
    };
    let env = map(&[("HOST", "h"), ("PORT", "80")]);
    let record = map(&[("user", "bob")]);
    let out = MacroEvaluator::expand(
        "${faker.email} ${faker.name} ${faker.word} ${uuid} ${env.HOST}:${PORT} ${user} ${unknown} ${MISSING}",
        &g,
        Some(&record),
        &env,
    )
    .unwrap();
    assert_eq!(out, "a@example.com Ann w u h:80 bob ${unknown} ${MISSING}");
    let plain = MacroEvaluator::expand("${user}", &no_generated(), None, &env).unwrap();
    assert_eq!(plain, "${user}");
}

// --- errors ---

#[test]
fn test_not_implemented_display() {
    let err = BztError::NotImplemented { feature: "distributed mode".to_string() };
    let msg = err.message();
    assert!(msg.contains("NOT IMPLEMENTED"));
    assert!(msg.contains("distributed mode"));
}

#[test]
fn test_validation_display() {
    let err = BztError::Validation { field: "concurrency".to_string(), reason: "must be > 0".to_string() };
    let msg = err.message();
    assert!(msg.contains("VALIDATION"));
    assert!(msg.contains("concurrency"));
}

#[test]
fn test_env_error_display() {
    let err = BztError::Environment { var: "AWS_SECRET_KEY".to_string(), reason: "blocked".to_string() };
    let msg = err.message();
    assert!(msg.contains("ENV"));
    assert!(msg.contains("AWS_SECRET_KEY"));
}

#[test]
fn test_networking_error_display() {
    let err = BztError::Network {
        host: "api.example.com".to_string(),
        operation: "connect".to_string(),
        details: "connection refused".to_string(),
    };
    let msg = err.message();
    assert!(msg.contains("NETWORK"));
    assert!(msg.contains("api.example.com"));
}

#[test]
fn test_mock_error_display() {
    let err = BztError::Mock { reason: "server not started".to_string() };
    let msg = err.message();
    assert!(msg.contains("MOCK"));
    assert!(msg.contains("server not started"));
}

#[test]
fn test_internal_error_display() {
    let err = BztError::Internal("unexpected state".to_string());
    let msg = err.message();
    assert!(msg.contains("INTERNAL"));
    assert!(msg.contains("unexpected state"));
}

#[test]
fn test_goose_error_display() {
    let err = BztError::Goose("goose failed".to_string());
    let msg = err.message();
    assert!(msg.contains("GOOSE"));
    assert!(msg.contains("goose failed"));
}

#[test]
fn serde_and_io_messages() {
    let serde = BztError::Serde { message: "bad".to_string(), file_path: Some("c.yaml".to_string()) };
    assert_eq!(serde.message(), "[SERDE] bad in 'c.yaml'");
    let io = BztError::Io { context: "operation failed".to_string(), detail: "file not found".to_string() };
    assert_eq!(io.message(), "[IO] operation failed: file not found");
}

// --- time parsing ---

#[test]
fn test_parse_time_to_ms() {
    assert_eq!(parse_time_to_ms("30s"), 30_000);
    assert_eq!(parse_time_to_ms("500ms"), 500);
    assert_eq!(parse_time_to_ms("1m"), 60_000);
    assert_eq!(parse_time_to_ms("100"), 100);
    assert_eq!(parse_time_to_ms(""), 0);
    assert_eq!(parse_time_to_ms("invalid"), 0);
}

#[test]
fn test_parse_time_zero_values() {
    assert_eq!(parse_time_to_ms("0s"), 0);
    assert_eq!(parse_time_to_ms("0ms"), 0);
    assert_eq!(parse_time_to_ms("0m"), 0);
    assert_eq!(parse_time_to_ms("0"), 0);
}

#[test]
fn test_parse_time_large_values() {
    assert_eq!(parse_time_to_ms("999999s"), 999_999_000);
    assert_eq!(parse_time_to_ms("999999m"), 59_999_940_000);
    assert_eq!(parse_time_to_ms("999999ms"), 999_999);
}

#[test]
fn test_parse_time_whitespace_handling() {
    assert_eq!(parse_time_to_ms(" 30s "), 30_000);
    assert_eq!(parse_time_to_ms("\t5m\t"), 300_000);
    assert_eq!(parse_time_to_ms("  100ms  "), 100);
}

#[test]
fn test_parse_time_unsupported_suffixes() {
    assert_eq!(parse_time_to_ms("1h"), 0);
    assert_eq!(parse_time_to_ms("1d"), 0);
}

#[test]
fn test_parse_time_boundary_values() {
    assert_eq!(parse_time_to_ms("1ms"), 1);
    assert_eq!(parse_time_to_ms("1s"), 1_000);
    assert_eq!(parse_time_to_ms("1m"), 60_000);
}

#[test]
fn test_parse_time_non_numeric_after_suffix() {
    assert_eq!(parse_time_to_ms("abc s"), 0);
    assert_eq!(parse_time_to_ms("xms"), 0);
    assert_eq!(parse_time_to_ms("abcms"), 0);
}

#[test]
fn test_parse_time_just_suffix_no_number() {
    assert_eq!(parse_time_to_ms("s"), 0);
    assert_eq!(parse_time_to_ms("ms"), 0);
    assert_eq!(parse_time_to_ms("m"), 0);
}

#[test]
fn parse_time_overflow_is_reported() {
    assert_eq!(parse_time_to_ms_checked("18446744073709551615s"), None);
    assert_eq!(parse_time_to_ms_checked("+7ss"), Some(7000));
}

// --- pacing ---

#[test]
fn test_calculate_delay_fixed_rate() {
    let config = PacingConfig { rate: 10, per: "1s".to_string(), randomize: false };
    let delay = PacingEngine::calculate_delay(&config, 0);
    assert_eq!(delay.as_millis(), 100);
}

#[test]
fn test_calculate_delay_rate_zero() {
    let config = PacingConfig { rate: 0, per: "1s".to_string(), randomize: false };
    let delay = PacingEngine::calculate_delay(&config, 0);
    assert_eq!(delay.as_millis(), 0);
}

#[test]
fn test_calculate_delay_per_minute() {
    let config = PacingConfig { rate: 60, per: "1m".to_string(), randomize: false };
    let delay = PacingEngine::calculate_delay(&config, 0);
    assert_eq!(delay.as_millis(), 1000);
}

#[test]
fn test_calculate_delay_randomized_nonzero() {
    let config = PacingConfig { rate: 10, per: "1s".to_string(), randomize: true };
    let delay = PacingEngine::calculate_delay(&config, 0);
    assert!(delay.as_millis() > 0);
}

#[test]
fn randomized_delay_is_clamped() {
    let config = PacingConfig { rate: 10, per: "1s".to_string(), randomize: true };
    assert_eq!(PacingEngine::calculate_delay(&config, 5000).as_millis(), 1000);
    assert_eq!(PacingEngine::calculate_delay(&config, 37).as_millis(), 37);
    assert_eq!(PacingEngine::calculate_delay(&config, 0).as_millis(), 1);
}

#[test]
fn test_parse_period_seconds() {
    assert_eq!(parse_period("1s"), 1000);
    assert_eq!(parse_period("30s"), 30000);
}

#[test]
fn test_parse_period_ms() {
    assert_eq!(parse_period("500ms"), 500);
}

#[test]
fn test_parse_period_minutes() {
    assert_eq!(parse_period("1m"), 60000);
    assert_eq!(parse_period("5m"), 300000);
}

#[test]
fn parse_period_fallbacks() {
    assert_eq!(parse_period("xs"), 1000);
    assert_eq!(parse_period("xm"), 60000);
    assert_eq!(parse_period("xms"), 1000);
    assert_eq!(parse_period("2h"), 1000);
}

#[test]
fn generated_names_and_words_have_their_forms() {
    let env = map(&[]);
    let name = MacroEvaluator::evaluate("${faker.name}", None, &env).unwrap();
    assert!(name.contains(' '));
    let word = MacroEvaluator::evaluate("${faker.word}", None, &env).unwrap();
    assert!(!word.is_empty());
    assert!(!word.contains(' '));
}
