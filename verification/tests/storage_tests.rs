use watchdog::model::{GroupResultInput, MetricInput};
use watchdog::storage::{GroupMetrics, GroupState, MemoryStorage, RegionState};

const T0: i64 = 1_600_000_000_000;

fn store_with_region() -> MemoryStorage {
    let mut storage = MemoryStorage::new();
    storage.init_region("r1", vec!["g1".to_string()], T0);
    storage.init_group("r1", "g1", T0);
    storage
}

fn heartbeat(working: bool, has_warnings: bool) -> Vec<GroupResultInput> {
    vec![GroupResultInput {
        name: "g1".to_string(),
        working,
        has_warnings,
        error_message: None,
        error_detail: None,
        metrics: vec![],
    }]
}

#[test]
fn init_leaves_initial_states() {
    let storage = store_with_region();
    let region = storage.get_region_status("r1").unwrap();
    assert!(matches!(region.status, RegionState::Initial));
    assert_eq!(region.updated_at, T0);
    let group = storage.get_group_status("r1", "g1").unwrap();
    assert!(matches!(group.status, GroupState::Initial));
    assert_eq!(group.updated_at, T0);
    assert!(group.last_metrics.is_empty());
    assert!(group.last_error.is_none());
}

#[test]
fn refresh_group_down_preserves_updated_at() {
    let mut storage = store_with_region();
    let before = storage.get_group_status("r1", "g1").unwrap().updated_at;
    storage
        .refresh_group("r1", "g1", GroupState::Down, vec![], None, T0 + 5000)
        .unwrap();
    let group = storage.get_group_status("r1", "g1").unwrap();
    assert!(matches!(group.status, GroupState::Down));
    assert_eq!(group.updated_at, before);
}

#[test]
fn refresh_group_up_advances_updated_at() {
    let mut storage = store_with_region();
    let before = storage.get_group_status("r1", "g1").unwrap().updated_at;
    storage
        .refresh_group("r1", "g1", GroupState::Up, vec![], None, T0 + 5000)
        .unwrap();
    let group = storage.get_group_status("r1", "g1").unwrap();
    assert!(matches!(group.status, GroupState::Up));
    assert!(group.updated_at > before);
    assert_eq!(group.updated_at, T0 + 5000);
}

#[test]
fn refresh_group_warn_advances_updated_at() {
    let mut storage = store_with_region();
    storage
        .refresh_group("r1", "g1", GroupState::Warn, vec![], None, T0 + 7000)
        .unwrap();
    let group = storage.get_group_status("r1", "g1").unwrap();
    assert!(matches!(group.status, GroupState::Warn));
    assert_eq!(group.updated_at, T0 + 7000);
}

#[test]
fn refresh_group_down_unknown_key_fails() {
    let mut storage = store_with_region();
    let err = storage
        .refresh_group("r1", "ghost", GroupState::Down, vec![], None, T0)
        .unwrap_err();
    assert_eq!(err.message, "Could not find group storage r1.ghost");
}

#[test]
fn incident_ids_start_at_zero_and_stay_consecutive() {
    let mut storage = store_with_region();
    storage.trigger_group_incident("r1", "g1", T0 + 1).unwrap();
    storage.trigger_region_incident("r1", 11_000, T0 + 2).unwrap();
    storage.trigger_group_incident("r1", "g1", T0 + 3).unwrap();
    let incidents = storage.find_incidents();
    assert_eq!(incidents.len(), 3);
    for (i, incident) in incidents.iter().enumerate() {
        assert_eq!(incident.id, i as u32);
    }
}

#[test]
fn region_incident_cascades_linked_groups() {
    let mut storage = MemoryStorage::new();
    storage.init_region("r1", vec!["g1".to_string(), "g2".to_string()], T0);
    storage.init_group("r1", "g1", T0);
    storage.init_group("r1", "g2", T0);
    storage.refresh_region("r1", false, T0 + 1000);
    storage.trigger_region_incident("r1", 11_000, T0 + 9000).unwrap();

    let region = storage.get_region_status("r1").unwrap();
    assert!(matches!(region.status, RegionState::Down));
    // the region keeps the timestamp it had before the incident
    assert_eq!(region.updated_at, T0 + 1000);

    for group_name in ["g1", "g2"] {
        let group = storage.get_group_status("r1", group_name).unwrap();
        assert!(matches!(group.status, GroupState::Incident));
        assert_eq!(group.updated_at, T0 + 9000);
        assert!(group.last_metrics.is_empty());
        assert!(group.last_error.is_none());
    }

    let incidents = storage.find_incidents();
    assert_eq!(incidents.len(), 1);
    assert_eq!(incidents[0].message, "Region r1 is DOWN");
    assert_eq!(
        incidents[0].error_message.as_deref(),
        Some("Region relay has not sent heartbeat in time (11000ms threshold exceeded)")
    );
}

#[test]
fn group_incident_preserves_state_and_references_error() {
    let mut storage = store_with_region();
    storage
        .refresh_group(
            "r1",
            "g1",
            GroupState::Down,
            vec![],
            Some("test 'ping 10.99.99.99' failed".to_string()),
            T0,
        )
        .unwrap();
    storage.trigger_group_incident("r1", "g1", T0 + 4000).unwrap();
    let group = storage.get_group_status("r1", "g1").unwrap();
    assert!(matches!(group.status, GroupState::Incident));
    assert_eq!(group.updated_at, T0);
    let incidents = storage.find_incidents();
    assert_eq!(incidents.len(), 1);
    assert_eq!(incidents[0].message, "Group r1.g1 is DOWN");
    assert_eq!(
        incidents[0].error_message.as_deref(),
        Some("Triggered from group relay (test 'ping 10.99.99.99' failed)")
    );
}

#[test]
fn get_incident_finds_by_id() {
    let mut storage = store_with_region();
    storage.trigger_group_incident("r1", "g1", T0).unwrap();
    let incident = storage.get_incident(0).unwrap();
    assert_eq!(incident.id, 0);
    assert!(storage.get_incident(1).is_none());
}

#[test]
fn heartbeat_refreshes_group_and_region() {
    let mut storage = store_with_region();
    let (was_down, errors) = storage.apply_region_update("r1", &heartbeat(true, false), T0 + 100);
    assert!(!was_down);
    assert!(errors.is_empty());
    let region = storage.get_region_status("r1").unwrap();
    assert!(matches!(region.status, RegionState::Up));
    assert_eq!(region.updated_at, T0 + 100);
    let group = storage.get_group_status("r1", "g1").unwrap();
    assert!(matches!(group.status, GroupState::Up));
    assert_eq!(group.updated_at, T0 + 100);
}

#[test]
fn heartbeat_with_warning_sets_region_warn() {
    let mut storage = store_with_region();
    storage.apply_region_update("r1", &heartbeat(true, true), T0 + 100);
    let region = storage.get_region_status("r1").unwrap();
    assert!(matches!(region.status, RegionState::Warn));
    let group = storage.get_group_status("r1", "g1").unwrap();
    assert!(matches!(group.status, GroupState::Warn));
}

#[test]
fn failing_heartbeat_on_incident_group_is_sticky() {
    let mut storage = store_with_region();
    storage.apply_region_update("r1", &heartbeat(false, false), T0 + 100);
    storage.trigger_group_incident("r1", "g1", T0 + 4000).unwrap();
    let before = storage.get_group_status("r1", "g1").unwrap().updated_at;

    // a heartbeat that still reports failure leaves the group untouched
    storage.apply_region_update("r1", &heartbeat(false, false), T0 + 8000);
    let group = storage.get_group_status("r1", "g1").unwrap();
    assert!(matches!(group.status, GroupState::Incident));
    assert_eq!(group.updated_at, before);

    // and no further incident is appended by the heartbeat path
    assert_eq!(storage.find_incidents().len(), 1);

    // a recovering heartbeat does refresh the group again
    storage.apply_region_update("r1", &heartbeat(true, false), T0 + 9000);
    let group = storage.get_group_status("r1", "g1").unwrap();
    assert!(matches!(group.status, GroupState::Up));
    assert_eq!(group.updated_at, T0 + 9000);
}

#[test]
fn analytics_statuses_stay_in_range() {
    let mut storage = store_with_region();
    storage.apply_region_update("r1", &heartbeat(false, false), T0 + 100);
    let summary = storage.compute_analytics();
    assert_eq!(summary.regions.len(), 1);
    assert_eq!(summary.groups.len(), 1);
    let region_names = ["initial", "up", "warn", "down"];
    let group_names = ["initial", "up", "warn", "down", "incident"];
    for region in &summary.regions {
        assert!(region_names.contains(&region.status.as_str()));
    }
    for group in &summary.groups {
        assert!(group_names.contains(&group.status.as_str()));
    }
    assert_eq!(summary.regions[0].name, "r1");
    assert_eq!(summary.regions[0].status, "warn");
    assert_eq!(summary.groups[0].name, "r1.g1");
    assert_eq!(summary.groups[0].status, "down");
}

#[test]
fn region_metrics_encode_states() {
    let mut storage = store_with_region();
    let metrics = storage.collect_region_metrics();
    assert_eq!(metrics.len(), 1);
    assert_eq!(metrics[0].name, "region");
    assert_eq!(metrics[0].labels, vec![("region_name".to_string(), "r1".to_string())]);
    assert_eq!(metrics[0].metric, "1");

    storage.refresh_region("r1", false, T0 + 100);
    assert_eq!(storage.collect_region_metrics()[0].metric, "3");
    storage.refresh_region("r1", true, T0 + 200);
    assert_eq!(storage.collect_region_metrics()[0].metric, "2");
    storage.trigger_region_incident("r1", 11_000, T0 + 300).unwrap();
    assert_eq!(storage.collect_region_metrics()[0].metric, "0");
}

#[test]
fn test_metrics_are_enriched_with_region_and_group() {
    let mut storage = store_with_region();
    let results = vec![GroupResultInput {
        name: "g1".to_string(),
        working: true,
        has_warnings: false,
        error_message: None,
        error_detail: None,
        metrics: vec![MetricInput {
            name: "http_latency".to_string(),
            labels: vec![("test_target".to_string(), "example.org".to_string())],
            metric: "42".to_string(),
        }],
    }];
    storage.apply_region_update("r1", &results, T0 + 100);
    let metrics = storage.collect_test_metrics();
    assert_eq!(metrics.len(), 1);
    assert_eq!(metrics[0].name, "http_latency");
    assert_eq!(metrics[0].metric, "42");
    assert_eq!(
        metrics[0].labels,
        vec![
            ("test_target".to_string(), "example.org".to_string()),
            ("region".to_string(), "r1".to_string()),
            ("group".to_string(), "g1".to_string()),
        ]
    );
}

#[test]
fn group_metrics_replace_older_samples() {
    let mut storage = store_with_region();
    storage
        .refresh_group(
            "r1",
            "g1",
            GroupState::Up,
            vec![GroupMetrics {
                name: "ping_rtt".to_string(),
                labels: vec![],
                metric: "10".to_string(),
            }],
            None,
            T0 + 100,
        )
        .unwrap();
    storage
        .refresh_group(
            "r1",
            "g1",
            GroupState::Up,
            vec![GroupMetrics {
                name: "ping_rtt".to_string(),
                labels: vec![],
                metric: "20".to_string(),
            }],
            None,
            T0 + 200,
        )
        .unwrap();
    let group = storage.get_group_status("r1", "g1").unwrap();
    assert_eq!(group.last_metrics.len(), 1);
    assert_eq!(group.last_metrics[0].metric, "20");
}
