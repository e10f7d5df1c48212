use watchdog::config::{
    parse_to_milliseconds, Config, ConfigInput, GroupConfigInput, RegionConfigInput,
};

#[test]
fn should_parse_milliseconds() {
    assert_eq!(parse_to_milliseconds("1000"), Ok(1000));
}

#[test]
fn should_parse_seconds() {
    assert_eq!(parse_to_milliseconds("5s"), Ok(5000));
}

#[test]
fn should_parse_minutes() {
    assert_eq!(parse_to_milliseconds("3m"), Ok(180_000));
}

#[test]
fn should_parse_hours() {
    assert_eq!(parse_to_milliseconds("2h"), Ok(7_200_000));
}

#[test]
fn should_deny_negative() {
    assert_eq!(parse_to_milliseconds("-45"), Err("invalid milliseconds"));
}

#[test]
fn should_deny_floating_numbers() {
    assert_eq!(parse_to_milliseconds("3.235"), Err("invalid milliseconds"));
}

#[test]
fn should_deny_invalid_characters() {
    assert_eq!(parse_to_milliseconds("3z"), Err("invalid milliseconds"));
}

#[test]
fn should_parse_explicit_millisecond_suffix() {
    assert_eq!(parse_to_milliseconds("20ms"), Ok(20));
}

#[test]
fn should_accept_leading_plus() {
    assert_eq!(parse_to_milliseconds("+45"), Ok(45));
}

#[test]
fn should_deny_empty_string() {
    assert_eq!(parse_to_milliseconds(""), Err("invalid milliseconds"));
}

#[test]
fn should_deny_bad_seconds() {
    assert_eq!(parse_to_milliseconds("x5s"), Err("invalid seconds"));
}

#[test]
fn should_deny_overflowing_hours() {
    assert_eq!(
        parse_to_milliseconds("18446744073709551615h"),
        Err("invalid hours")
    );
}

fn sample_input() -> ConfigInput {
    ConfigInput {
        alerters: None,
        regions: vec![RegionConfigInput {
            name: "r1".to_string(),
            send_interval: Some("5s".to_string()),
            miss_threshold: Some(2),
            kuma_url: None,
            groups: vec![GroupConfigInput {
                name: "g1".to_string(),
                fail_threshold: None,
                tests: vec!["ping 1.1.1.1".to_string()],
            }],
        }],
    }
}

#[test]
fn derives_region_and_group_thresholds() {
    let config = Config::try_from_input(&sample_input(), "v1".to_string()).unwrap();
    assert_eq!(config.version, "v1");
    assert_eq!(config.regions.len(), 1);
    let region = &config.regions[0];
    assert_eq!(region.name, "r1");
    assert_eq!(region.interval_ms, 5000);
    // interval * miss_threshold + 1000
    assert_eq!(region.threshold_ms, 11_000);
    assert_eq!(region.groups.len(), 1);
    // fail_threshold defaults to 3
    assert_eq!(region.groups[0].threshold_ms, 16_000);
    assert_eq!(region.groups[0].tests, vec!["ping 1.1.1.1".to_string()]);
}

#[test]
fn default_interval_is_ten_seconds() {
    let mut input = sample_input();
    input.regions[0].send_interval = None;
    input.regions[0].miss_threshold = None;
    let config = Config::try_from_input(&input, "v1".to_string()).unwrap();
    assert_eq!(config.regions[0].interval_ms, 10_000);
    // 10s * default miss threshold 3 + 1000
    assert_eq!(config.regions[0].threshold_ms, 31_000);
}

#[test]
fn rejects_bad_interval() {
    let mut input = sample_input();
    input.regions[0].send_interval = Some("7q".to_string());
    let err = Config::try_from_input(&input, "v1".to_string()).unwrap_err();
    assert_eq!(err, "invalid milliseconds");
}

#[test]
fn export_region_finds_by_name() {
    let config = Config::try_from_input(&sample_input(), "v1".to_string()).unwrap();
    assert!(config.export_region("r1").is_some());
    assert!(config.export_region("nope").is_none());
}
