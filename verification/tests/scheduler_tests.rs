use watchdog::config::{Config, ConfigInput, GroupConfigInput, RegionConfigInput};
use watchdog::model::GroupResultInput;
use watchdog::scheduler::scheduler_tick;
use watchdog::server::init_storage_regions;
use watchdog::storage::{GroupState, MemoryStorage, RegionState};

const T0: i64 = 1_600_000_000_000;

fn config(interval: &str, miss_threshold: u64, fail_threshold: u64) -> Config {
    let input = ConfigInput {
        alerters: None,
        regions: vec![RegionConfigInput {
            name: "r1".to_string(),
            send_interval: Some(interval.to_string()),
            miss_threshold: Some(miss_threshold),
            kuma_url: None,
            groups: vec![GroupConfigInput {
                name: "g1".to_string(),
                fail_threshold: Some(fail_threshold),
                tests: vec!["ping 1.1.1.1".to_string()],
            }],
        }],
    };
    Config::try_from_input(&input, "v1".to_string()).unwrap()
}

fn heartbeat(working: bool) -> Vec<GroupResultInput> {
    vec![GroupResultInput {
        name: "g1".to_string(),
        working,
        has_warnings: false,
        error_message: None,
        error_detail: None,
        metrics: vec![],
    }]
}

#[test]
fn quiet_store_raises_no_incident() {
    let config = config("1s", 2, 2);
    let mut storage = MemoryStorage::new();
    init_storage_regions(&mut storage, &config, T0);
    // Initial entities are ignored by the sweep, however long they are silent
    let messages = scheduler_tick(&mut storage, &config.regions, T0 + 100_000);
    assert!(messages.is_empty());
    assert!(storage.find_incidents().is_empty());
}

#[test]
fn down_group_beyond_threshold_becomes_one_incident() {
    // fail_threshold 2 at 1s cadence: group threshold_ms = 3000
    let config = config("1s", 2, 2);
    let mut storage = MemoryStorage::new();
    init_storage_regions(&mut storage, &config, T0);
    // the relay keeps reporting failures, so the region stays fresh while
    // the down group's timestamp stays where it stopped working
    storage.apply_region_update("r1", &heartbeat(false), T0);
    storage.apply_region_update("r1", &heartbeat(false), T0 + 1500);

    // before the group threshold nothing happens
    let messages = scheduler_tick(&mut storage, &config.regions, T0 + 2000);
    assert!(messages.is_empty());

    // 4 s later the group has been down beyond threshold_ms = 3000
    storage.apply_region_update("r1", &heartbeat(false), T0 + 3500);
    let messages = scheduler_tick(&mut storage, &config.regions, T0 + 4000);
    assert_eq!(messages, vec!["Network DOWN on group r1.g1".to_string()]);
    let incidents = storage.find_incidents();
    assert_eq!(incidents.len(), 1);
    assert_eq!(incidents[0].message, "Group r1.g1 is DOWN");
    let group = storage.get_group_status("r1", "g1").unwrap();
    assert!(matches!(group.status, GroupState::Incident));

    // still-failing heartbeats do not rearm the incident latch
    storage.apply_region_update("r1", &heartbeat(false), T0 + 5000);
    let messages = scheduler_tick(&mut storage, &config.regions, T0 + 6000);
    assert!(messages.is_empty());
    assert_eq!(storage.find_incidents().len(), 1);
}

#[test]
fn silent_region_becomes_down_and_cascades() {
    // miss_threshold 2 at 1s cadence: region threshold_ms = 3000
    let config = config("1s", 2, 2);
    let mut storage = MemoryStorage::new();
    init_storage_regions(&mut storage, &config, T0);
    storage.apply_region_update("r1", &heartbeat(true), T0);

    // then the relay goes silent; 4 s later the region expires
    let messages = scheduler_tick(&mut storage, &config.regions, T0 + 4000);
    assert_eq!(messages, vec!["Network DOWN on region r1".to_string()]);
    let region = storage.get_region_status("r1").unwrap();
    assert!(matches!(region.status, RegionState::Down));
    let group = storage.get_group_status("r1", "g1").unwrap();
    assert!(matches!(group.status, GroupState::Incident));
    let incidents = storage.find_incidents();
    assert_eq!(incidents.len(), 1);
    assert_eq!(incidents[0].message, "Region r1 is DOWN");

    // a down region is not declared down twice
    let messages = scheduler_tick(&mut storage, &config.regions, T0 + 8000);
    assert!(messages.is_empty());
    assert_eq!(storage.find_incidents().len(), 1);
}

#[test]
fn healthy_heartbeats_keep_the_sweep_quiet() {
    let config = config("1s", 2, 2);
    let mut storage = MemoryStorage::new();
    init_storage_regions(&mut storage, &config, T0);
    storage.apply_region_update("r1", &heartbeat(true), T0);
    let messages = scheduler_tick(&mut storage, &config.regions, T0 + 2000);
    assert!(messages.is_empty());
    let region = storage.get_region_status("r1").unwrap();
    assert!(matches!(region.status, RegionState::Up));
}
