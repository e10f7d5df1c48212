use watchdog::error::Error;
use watchdog::model::{MetricSample, ResultCategory, TestResult};
use watchdog::relay::{
    bearer_header, check_conf_status, check_kuma_status, count_unstable, evaluate_group,
    kuma_message, kuma_query_url, relay_route, should_reload, version_change,
};

fn ping_success() -> (String, Result<TestResult, Error>) {
    (
        "ping 1.1.1.1".to_string(),
        Ok(TestResult::build(
            "1.1.1.1".to_string(),
            ResultCategory::Success,
            Some(vec![MetricSample { name: "ping_rtt".to_string(), value: "11.5".to_string() }]),
        )),
    )
}

#[test]
fn all_successes_make_a_working_group() {
    let outcomes = vec![ping_success()];
    let (entry, last_ping) = evaluate_group("g1".to_string(), &outcomes);
    assert_eq!(entry.name, "g1");
    assert!(entry.working);
    assert!(!entry.has_warnings);
    assert!(entry.error_message.is_none());
    assert_eq!(entry.metrics.len(), 1);
    assert_eq!(entry.metrics[0].name, "ping_rtt");
    assert_eq!(entry.metrics[0].metric, "11.5");
    assert_eq!(
        entry.metrics[0].labels,
        vec![("test_target".to_string(), "1.1.1.1".to_string())]
    );
    assert_eq!(last_ping.as_deref(), Some("11.5"));
}

#[test]
fn failed_probe_sets_error_message() {
    let outcomes = vec![(
        "ping 10.99.99.99".to_string(),
        Ok(TestResult::fail("10.99.99.99".to_string())),
    )];
    let (entry, last_ping) = evaluate_group("g1".to_string(), &outcomes);
    assert!(!entry.working);
    assert_eq!(entry.error_message.as_deref(), Some("test 'ping 10.99.99.99' failed"));
    assert!(entry.error_detail.is_none());
    assert!(entry.metrics.is_empty());
    assert!(last_ping.is_none());
}

#[test]
fn probe_error_carries_message_and_detail() {
    let outcomes = vec![(
        "dns example.org".to_string(),
        Err(Error::new(
            "DNS test failed".to_string(),
            "The 'dns' command is not supported yet".to_string(),
        )),
    )];
    let (entry, _) = evaluate_group("g1".to_string(), &outcomes);
    assert!(!entry.working);
    assert_eq!(entry.error_message.as_deref(), Some("DNS test failed"));
    assert_eq!(
        entry.error_detail.as_deref(),
        Some("The 'dns' command is not supported yet")
    );
}

#[test]
fn warning_probe_marks_group_unstable_but_working() {
    let outcomes = vec![(
        "http example.org/fail".to_string(),
        Ok(TestResult::warning("example.org/fail".to_string())),
    )];
    let (entry, _) = evaluate_group("g1".to_string(), &outcomes);
    assert!(entry.working);
    assert!(entry.has_warnings);
}

#[test]
fn unstable_count_counts_failures_and_warnings() {
    let (ok_entry, _) = evaluate_group("g1".to_string(), &vec![ping_success()]);
    let (warn_entry, _) = evaluate_group(
        "g2".to_string(),
        &vec![("http x".to_string(), Ok(TestResult::warning("x".to_string())))],
    );
    let (fail_entry, _) = evaluate_group(
        "g3".to_string(),
        &vec![("ping y".to_string(), Ok(TestResult::fail("y".to_string())))],
    );
    let results = vec![ok_entry, warn_entry, fail_entry];
    assert_eq!(count_unstable(&results), 2);
}

#[test]
fn kuma_message_reports_health() {
    assert_eq!(kuma_message(3, 0), "OK 3 healthy");
    assert_eq!(kuma_message(3, 2), "WARN 2 unstable");
}

#[test]
fn kuma_url_appends_ping_when_present() {
    assert_eq!(
        kuma_query_url("https://kuma.example/api/push/x", "OK 3 healthy", &None),
        "https://kuma.example/api/push/x?status=up&msg=OK 3 healthy"
    );
    assert_eq!(
        kuma_query_url("https://kuma.example/api/push/x", "OK 3 healthy", &Some("11.5".to_string())),
        "https://kuma.example/api/push/x?status=up&msg=OK 3 healthy&ping=11.5"
    );
}

#[test]
fn relay_routes_and_bearer() {
    assert_eq!(
        relay_route("http://localhost:3030", "r1"),
        "http://localhost:3030/api/v1/relay/r1"
    );
    assert_eq!(bearer_header("secret"), "Bearer secret");
}

#[test]
fn version_change_detects_new_versions() {
    assert_eq!(version_change(None, "v1"), None);
    assert_eq!(version_change(Some("v1".to_string()), "v1"), None);
    assert_eq!(version_change(Some("v2".to_string()), "v1"), Some("v2".to_string()));
}

#[test]
fn reload_waits_for_a_known_version() {
    // the very first tick records the version without reloading
    assert!(!should_reload(&Some("v1".to_string()), ""));
    assert!(should_reload(&Some("v2".to_string()), "v1"));
    assert!(!should_reload(&None, "v1"));
}

#[test]
fn conf_status_must_be_200() {
    assert!(check_conf_status(200, "200 OK").is_ok());
    let err = check_conf_status(404, "404 Not Found").unwrap_err();
    assert_eq!(err.message, "Expected status code 200, found 404 Not Found");
}

#[test]
fn kuma_status_must_be_200() {
    assert!(check_kuma_status(200, "200 OK").is_ok());
    let err = check_kuma_status(503, "503 Service Unavailable").unwrap_err();
    assert_eq!(err.message, "Expected 200 for Kuma update, found 503 Service Unavailable");
}
