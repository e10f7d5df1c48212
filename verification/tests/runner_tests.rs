use watchdog::model::ResultCategory;
use watchdog::runner::{DnsTest, HttpOutcome, HttpTest, PingTest, ProbeKind, TestRunner};

const PING_OUTPUT: &str = "PING 1.1.1.1 (1.1.1.1) 56(84) bytes of data.\n\
64 bytes from 1.1.1.1: icmp_seq=1 ttl=56 time=11.5 ms\n\
\n\
--- 1.1.1.1 ping statistics ---\n\
1 packets transmitted, 1 received, 0% packet loss, time 0ms\n\
rtt min/avg/max/mdev = 11.537/11.537/11.537/0.000 ms\n";

#[test]
fn runner_dispatches_by_prefix_in_order() {
    let runner = TestRunner::new();
    assert_eq!(runner.select_runner("ping 1.1.1.1"), ProbeKind::Ping);
    assert_eq!(runner.select_runner("dns example.org"), ProbeKind::Dns);
    assert_eq!(runner.select_runner("http example.org"), ProbeKind::Http);
    assert_eq!(runner.select_runner("unknown"), ProbeKind::Unknown);
    assert_eq!(runner.select_runner(""), ProbeKind::Unknown);
}

#[test]
fn should_fail_unknown_test_type() {
    let runner = TestRunner::new();
    assert_eq!(runner.select_runner("unknown"), ProbeKind::Unknown);
    let err = runner.unknown_test_error("unknown");
    assert_eq!(err.message, "Test 'unknown' failed, command not found");
    assert!(err.details.is_none());
}

#[test]
fn should_fail_empty_test() {
    let runner = TestRunner::new();
    assert_eq!(runner.select_runner(""), ProbeKind::Unknown);
    let err = runner.unknown_test_error("");
    assert_eq!(err.message, "Test '' failed, command not found");
}

#[test]
fn ping_parses_target_from_descriptor() {
    let ping = PingTest::new();
    assert!(ping.matches("ping 1.1.1.1"));
    assert!(!ping.matches("http example.org"));
    assert_eq!(ping.parse_target("ping 1.1.1.1").unwrap(), "1.1.1.1");
    let err = ping.parse_target("ping").unwrap_err();
    assert_eq!(err.message, "Ping test failed");
    assert_eq!(
        err.details.as_deref(),
        Some("The ping command expects a valid target")
    );
}

#[test]
fn ping_failure_exit_is_fail() {
    let ping = PingTest::new();
    let result = ping.evaluate("10.99.99.99", false, "").unwrap();
    assert_eq!(result.target, "10.99.99.99");
    assert_eq!(result.result, ResultCategory::Fail);
    assert!(result.metrics.is_none());
}

#[test]
fn ping_fast_round_trip_is_success_with_metric() {
    let ping = PingTest::new();
    let result = ping.evaluate("1.1.1.1", true, PING_OUTPUT).unwrap();
    assert_eq!(result.target, "1.1.1.1");
    assert_eq!(result.result, ResultCategory::Success);
    let metrics = result.metrics.unwrap();
    assert_eq!(metrics.len(), 1);
    assert_eq!(metrics[0].name, "ping_rtt");
    assert_eq!(metrics[0].value, "11.537");
    assert!(metrics[0].value.parse::<f64>().unwrap() > 0.0);
}

#[test]
fn ping_slow_round_trip_is_warning() {
    let ping = PingTest::new();
    let output = "rtt min/avg/max/mdev = 104.250/104.250/104.250/0.000 ms\n";
    let result = ping.evaluate("1.1.1.1", true, output).unwrap();
    assert_eq!(result.result, ResultCategory::Warning);
    assert_eq!(result.metrics.unwrap()[0].value, "104.25");
}

#[test]
fn ping_hundred_exactly_is_warning() {
    let ping = PingTest::new();
    let output = "rtt min/avg/max/mdev = 100.000/100.000/100.000/0.000 ms\n";
    let result = ping.evaluate("1.1.1.1", true, output).unwrap();
    assert_eq!(result.result, ResultCategory::Warning);
    assert_eq!(result.metrics.unwrap()[0].value, "100");
}

#[test]
fn ping_unreadable_summary_is_error() {
    let ping = PingTest::new();
    let err = ping.evaluate("1.1.1.1", true, "no summary here\n").unwrap_err();
    assert_eq!(err.message, "Failed to ping");
    assert_eq!(err.details.as_deref(), Some("invalid float literal"));
}

#[test]
fn http_maps_status_classes() {
    let http = HttpTest::new();
    assert!(http.matches("http example.org"));
    assert_eq!(http.parse_target("http example.org").unwrap(), "example.org");

    let ok = http.evaluate(
        "example.org",
        HttpOutcome::Response { status: 200, latency_ms: 42 },
    );
    assert_eq!(ok.result, ResultCategory::Success);
    let metrics = ok.metrics.unwrap();
    assert_eq!(metrics[0].name, "http_latency");
    assert_eq!(metrics[0].value, "42");

    let redirect = http.evaluate(
        "example.org",
        HttpOutcome::Response { status: 301, latency_ms: 7 },
    );
    assert_eq!(redirect.result, ResultCategory::Success);

    let not_found = http.evaluate(
        "example.org/fail",
        HttpOutcome::Response { status: 404, latency_ms: 30 },
    );
    assert_eq!(not_found.result, ResultCategory::Warning);

    let server_error = http.evaluate(
        "example.org",
        HttpOutcome::Response { status: 500, latency_ms: 30 },
    );
    assert_eq!(server_error.result, ResultCategory::Warning);

    let down = http.evaluate("www.does-not-exist.invalid", HttpOutcome::TransportFailure);
    assert_eq!(down.result, ResultCategory::Fail);
    assert!(down.metrics.is_none());
}

#[test]
fn http_missing_target_is_error() {
    let http = HttpTest::new();
    let err = http.parse_target("http").unwrap_err();
    assert_eq!(err.message, "HTTP test failed");
    assert_eq!(err.details.as_deref(), Some("The HTTP command expects a target"));
}

#[test]
fn http_builds_plain_http_url() {
    let http = HttpTest::new();
    assert_eq!(http.build_url("example.org/path"), "http://example.org/path");
}

#[test]
fn dns_matches_but_is_unsupported() {
    let dns = DnsTest::new();
    assert!(dns.matches("dns example.org"));
    let err = dns.execute("dns example.org").unwrap_err();
    assert_eq!(err.message, "DNS test failed");
    assert_eq!(err.details.as_deref(), Some("The 'dns' command is not supported yet"));
}
