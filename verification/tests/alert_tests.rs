use watchdog::alert::{
    check_alert_response, escape_markdown, split_recipients, telegram_notify_url, AlertManager,
    AlertMedium, AlertRequest, SpryngAlerter, TelegramAlerter,
};
use watchdog::config::AlertConfig;

fn telegram_entry() -> AlertConfig {
    AlertConfig {
        name: "tg".to_string(),
        medium: "telegram".to_string(),
        chat_env: Some("TELEGRAM_CHAT".to_string()),
        token_env: Some("TELEGRAM_TOKEN".to_string()),
        recipients_env: None,
    }
}

fn env() -> Vec<(String, String)> {
    vec![
        ("TELEGRAM_CHAT".to_string(), "12345".to_string()),
        ("TELEGRAM_TOKEN".to_string(), "SECRET-REDACTED".to_string()),
        ("SPRYNG_TOKEN".to_string(), "SECRET-REDACTED".to_string()),
        ("SPRYNG_TO".to_string(), "+321111, +322222".to_string()),
    ]
}

#[test]
fn markdown_escape_doubles_dashes() {
    assert_eq!(escape_markdown("Network DOWN on region r-1"), "Network DOWN on region r\\-1");
    assert_eq!(escape_markdown("no dash"), "no dash");
}

#[test]
fn telegram_url_contains_escaped_message() {
    let url = telegram_notify_url("tok", "42", "a-b");
    assert_eq!(
        url,
        "https://api.telegram.org/bottok/sendMessage?chat_id=42&parse_mode=MarkdownV2&text=a\\-b"
    );
}

#[test]
fn recipients_are_split_and_trimmed() {
    assert_eq!(
        split_recipients("+321111, +322222 ,+323333"),
        vec!["+321111".to_string(), "+322222".to_string(), "+323333".to_string()]
    );
}

#[test]
fn manager_builds_telegram_medium_from_env() {
    let config = vec![telegram_entry()];
    let manager = AlertManager::try_from_config(&config, &env()).unwrap();
    let request = manager.alert(Some("tg"), "hello").unwrap();
    match request {
        AlertRequest::Get { url } => {
            assert!(url.starts_with("https://api.telegram.org/botSECRET-REDACTED/sendMessage?chat_id=12345"));
            assert!(url.ends_with("&parse_mode=MarkdownV2&text=hello"));
        }
        AlertRequest::PostJson { .. } => panic!("expected a GET request"),
    }
}

#[test]
fn manager_builds_spryng_medium_from_env() {
    let config = vec![AlertConfig {
        name: "sms".to_string(),
        medium: "spryng".to_string(),
        chat_env: None,
        token_env: Some("SPRYNG_TOKEN".to_string()),
        recipients_env: Some("SPRYNG_TO".to_string()),
    }];
    let manager = AlertManager::try_from_config(&config, &env()).unwrap();
    let request = manager.alert(None, "alert body").unwrap();
    match request {
        AlertRequest::PostJson { url, bearer, body } => {
            assert_eq!(url, "https://rest.spryngsms.com/v1/messages");
            assert_eq!(bearer, "SECRET-REDACTED");
            assert_eq!(body.body, "alert body");
            assert_eq!(body.encoding, "auto");
            assert_eq!(body.originator, "watchdog");
            assert_eq!(body.route, "business");
            assert_eq!(body.recipients, vec!["+321111".to_string(), "+322222".to_string()]);
        }
        AlertRequest::Get { .. } => panic!("expected a POST request"),
    }
}

#[test]
fn manager_rejects_missing_settings_and_env() {
    let mut entry = telegram_entry();
    entry.chat_env = None;
    let err = AlertManager::try_from_config(&vec![entry], &env()).unwrap_err();
    assert_eq!(err.message, "Expected 'chat_env' configuration with Telegram medium");

    let mut entry = telegram_entry();
    entry.token_env = None;
    let err = AlertManager::try_from_config(&vec![entry], &env()).unwrap_err();
    assert_eq!(err.message, "Expected 'token_env' configuration with Telegram medium");

    let mut entry = telegram_entry();
    entry.chat_env = Some("UNSET_NAME".to_string());
    let err = AlertManager::try_from_config(&vec![entry], &env()).unwrap_err();
    assert_eq!(err.message, "Expected Telegram chat ID as environment variable");
}

#[test]
fn manager_rejects_unknown_provider() {
    let entry = AlertConfig {
        name: "x".to_string(),
        medium: "carrier-pigeon".to_string(),
        chat_env: None,
        token_env: None,
        recipients_env: None,
    };
    let err = AlertManager::try_from_config(&vec![entry], &env()).unwrap_err();
    assert_eq!(err.message, "Could not find provider carrier-pigeon");
}

#[test]
fn alert_requires_a_registered_medium() {
    let manager = AlertManager::new();
    let err = manager.alert(Some("tg"), "x").unwrap_err();
    assert_eq!(err.message, "Could not find requested medium");
    let err = manager.alert(None, "x").unwrap_err();
    assert_eq!(err.message, "Could not find default medium");
}

#[test]
fn test_alerts_cover_every_medium() {
    let mut manager = AlertManager::new();
    manager.add_medium(AlertMedium::Telegram(TelegramAlerter::new(
        "tg".to_string(),
        "42".to_string(),
        "tok".to_string(),
    )));
    manager.add_medium(AlertMedium::Spryng(SpryngAlerter::new(
        "sms".to_string(),
        "tok2".to_string(),
        vec!["+321111".to_string()],
    )));
    let requests = manager.test_alert_requests();
    assert_eq!(requests.len(), 2);
    assert_eq!(requests[0].0, "tg");
    assert_eq!(requests[1].0, "sms");
    match &requests[0].1 {
        AlertRequest::Get { url } => {
            assert!(url.contains("text=This is a watchdog monitoring test message"));
        }
        AlertRequest::PostJson { .. } => panic!("expected a GET request"),
    }
}

#[test]
fn alert_response_check_flags_client_and_server_errors() {
    assert!(check_alert_response(200, "200 OK", "tg").is_ok());
    assert!(check_alert_response(302, "302 Found", "tg").is_ok());
    let err = check_alert_response(403, "403 Forbidden", "tg").unwrap_err();
    assert_eq!(err.message, "Expected HTTP OK, but received 403 Forbidden for medium tg");
    assert!(check_alert_response(500, "500 Internal Server Error", "tg").is_err());
}
