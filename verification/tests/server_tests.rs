use watchdog::clock::{current_time_millis, format_rfc3339};
use watchdog::model::{GroupResultInput, MetricInput};
use watchdog::server::{check_authorization, render_prometheus, ServerErr};
use watchdog::storage::MemoryStorage;

const T0: i64 = 1_600_000_000_000;

#[test]
fn authorization_requires_the_exact_bearer_token() {
    assert!(check_authorization(Some("Bearer secret"), "secret").is_ok());

    let err = check_authorization(Some("Bearer wrong"), "secret").unwrap_err();
    assert_eq!(err.status, 401);
    assert_eq!(err.message, "Invalid authentication");

    assert!(check_authorization(None, "secret").is_err());
    assert!(check_authorization(Some("secret"), "secret").is_err());
    assert!(check_authorization(Some("bearer secret"), "secret").is_err());
}

#[test]
fn error_constructors_set_status_codes() {
    assert_eq!(ServerErr::_bad_request("x".to_string()).status, 400);
    assert_eq!(ServerErr::unauthorized("x".to_string()).status, 401);
    let not_found = ServerErr::not_found("Endpoint not found".to_string());
    assert_eq!(not_found.status, 404);
    assert_eq!(not_found.message, "Endpoint not found");
    assert!(not_found.details.is_empty());
}

#[test]
fn exporter_renders_regions_then_tests() {
    let mut storage = MemoryStorage::new();
    storage.init_region("r1", vec!["g1".to_string()], T0);
    storage.init_group("r1", "g1", T0);
    let results = vec![GroupResultInput {
        name: "g1".to_string(),
        working: true,
        has_warnings: false,
        error_message: None,
        error_detail: None,
        metrics: vec![MetricInput {
            name: "http_latency".to_string(),
            labels: vec![("test_target".to_string(), "example.org".to_string())],
            metric: "42".to_string(),
        }],
    }];
    storage.apply_region_update("r1", &results, T0 + 100);

    let page = render_prometheus(&storage.collect_region_metrics(), &storage.collect_test_metrics());
    assert_eq!(
        page,
        "watchdog_region{region_name=\"r1\"} 3\n\
         \n\
         watchdog_http_latency{test_target=\"example.org\",region=\"r1\",group=\"g1\"} 42\n\
         \n"
    );
}

#[test]
fn incident_timestamps_render_as_rfc3339() {
    let mut storage = MemoryStorage::new();
    storage.init_region("r1", vec!["g1".to_string()], T0);
    storage.init_group("r1", "g1", T0);
    storage.trigger_group_incident("r1", "g1", T0).unwrap();
    let incidents = storage.find_incidents();
    assert_eq!(incidents[0].timestamp, format_rfc3339(T0));
    assert_eq!(format_rfc3339(0), "1970-01-01T00:00:00+00:00");
}

#[test]
fn clock_stays_in_formattable_range() {
    let now = current_time_millis();
    assert!(now >= 0);
    // formatting what the clock returned must not panic
    let rendered = format_rfc3339(now);
    assert!(!rendered.is_empty());
}
