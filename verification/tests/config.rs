use ddns::config::parse::{
    check, update_record_jobs, validate_getip, validate_is_value, validate_triggers,
    validate_urls, Config, ConfigError, Dns, GConfig, GetIP, GetIPType, Resolv, ResolvType,
    ValidationError, WebHook, WebHookIssue,
};
use ddns::config::{get_config, init_config, try_init_config, ConfigStore};
use ddns::provider::Provider;
use ddns::webhook::Type;

fn getip(url: &str, rtype: GetIPType, params: Option<&str>) -> GetIP {
    GetIP { url: url.to_string(), rtype, params: params.map(|p| p.to_string()) }
}

fn resolv(domain: &str, host: &str, triggers: Option<Vec<&str>>) -> Resolv {
    Resolv {
        domain: domain.to_string(),
        rtype: ResolvType::A,
        hostname: host.to_string(),
        target: "${ipv4}".to_string(),
        triggers: triggers.map(|t| t.into_iter().map(|s| s.to_string()).collect()),
    }
}

fn hook(url: &str, json: Option<&str>) -> WebHook {
    WebHook {
        rtype: Type::Post,
        url: url.to_string(),
        headers: Some(vec![("Content-Type".to_string(), "application/json".to_string())]),
        json: json.map(|j| j.to_string()),
    }
}

fn base_config() -> Config {
    Config {
        config: GConfig {
            ipv4: vec![getip("https://api.ipify.org", GetIPType::Text, None)],
            ipv6: vec![getip("https://api64.ipify.org?format=json", GetIPType::Json, Some("ip"))],
            monitorip: 60,
            syncip: 300,
        },
        dns: Some(vec![(
            "cf".to_string(),
            Dns {
                provider: Provider::CloudFlare { key: "SECRET-REDACTED".to_string() },
                records: vec![resolv("example.com", "www", Some(vec!["notify"]))],
            },
        )]),
        webhook: Some(vec![(
            "notify".to_string(),
            hook("https://hooks.example.com/ddns", Some("{\"ip\": \"${ipv4}\"}")),
        )]),
    }
}

#[test]
fn parse_test() {
    let config = base_config();
    assert!(check(&config).is_ok());
}

#[test]
fn check_accepts_config_without_webhooks() {
    let mut config = base_config();
    config.webhook = None;
    assert_eq!(check(&config), Ok(()));
}

#[test]
fn check_accepts_equal_intervals() {
    let mut config = base_config();
    config.config.monitorip = 300;
    assert_eq!(check(&config), Ok(()));
}

#[test]
fn check_refuses_monitor_longer_than_sync() {
    let mut config = base_config();
    config.config.monitorip = 301;
    assert_eq!(check(&config), Err(ConfigError::MonitorIp));
}

#[test]
fn check_refuses_unknown_trigger() {
    let mut config = base_config();
    config.dns.as_mut().unwrap()[0].1.records.push(resolv("example.com", "api", Some(vec!["notify", "missing"])));
    assert_eq!(
        check(&config),
        Err(ConfigError::Trigger(ValidationError {
            code: "invalid_tigger".to_string(),
            message: Some("This trigger does not exist: missing".to_string()),
            value: None,
        }))
    );
}

#[test]
fn check_ignores_triggers_without_webhooks() {
    let mut config = base_config();
    config.webhook = None;
    config.dns.as_mut().unwrap()[0].1.records.push(resolv("example.com", "api", Some(vec!["missing"])));
    assert_eq!(check(&config), Ok(()));
}

#[test]
fn check_reports_all_broken_webhook_fields() {
    let mut config = base_config();
    config.webhook = Some(vec![
        ("a".to_string(), hook("not a url", None)),
        ("b".to_string(), hook("https://ok.example.com", Some("{"))),
    ]);
    config.config.monitorip = 1000;
    let json_err = serde_json::from_str::<serde_json::Value>("{").unwrap_err().to_string();
    assert_eq!(
        check(&config),
        Err(ConfigError::Invalid(vec![
            WebHookIssue {
                index: 0,
                webhook: "a".to_string(),
                field: "url".to_string(),
                error: ValidationError {
                    code: "url".to_string(),
                    message: None,
                    value: Some("not a url".to_string()),
                },
            },
            WebHookIssue {
                index: 1,
                webhook: "b".to_string(),
                field: "json".to_string(),
                error: ValidationError {
                    code: "invalid_json".to_string(),
                    message: Some(format!("field {{ is not a json: {}", json_err)),
                    value: None,
                },
            },
        ]))
    );
}

#[test]
fn check_webhook_rules_come_before_interval_rule() {
    let mut config = base_config();
    config.webhook = Some(vec![("a".to_string(), hook("nope", None))]);
    config.config.monitorip = 1000;
    assert!(matches!(check(&config), Err(ConfigError::Invalid(_))));
}

#[test]
fn validate_is_value_accepts_json() {
    assert_eq!(validate_is_value(&"{\"a\": [1, 2]}".to_string()), Ok(()));
    assert_eq!(validate_is_value(&"3".to_string()), Ok(()));
}

#[test]
fn validate_is_value_refuses_text() {
    let err = serde_json::from_str::<serde_json::Value>("abc").unwrap_err().to_string();
    assert_eq!(
        validate_is_value(&"abc".to_string()),
        Err(ValidationError {
            code: "invalid_json".to_string(),
            message: Some(format!("field abc is not a json: {}", err)),
            value: None,
        })
    );
}

#[test]
fn validate_triggers_reports_first_missing() {
    let ws = vec![("a".to_string(), 1u8), ("b".to_string(), 2u8)];
    assert_eq!(validate_triggers(&vec!["a".to_string(), "b".to_string()], &ws), Ok(()));
    assert_eq!(validate_triggers(&vec![], &ws), Ok(()));
    assert_eq!(
        validate_triggers(&vec!["a".to_string(), "x".to_string(), "y".to_string()], &ws),
        Err(ValidationError {
            code: "invalid_tigger".to_string(),
            message: Some("This trigger does not exist: x".to_string()),
            value: None,
        })
    );
}

#[test]
fn validate_getip_rules() {
    assert_eq!(validate_getip(&getip("https://a", GetIPType::Text, None)), Ok(()));
    assert_eq!(validate_getip(&getip("https://a", GetIPType::Json, Some("ip"))), Ok(()));
    assert_eq!(
        validate_getip(&getip("https://a", GetIPType::Json, None)),
        Err(ValidationError { code: "parsms is none".to_string(), message: None, value: None })
    );
    assert_eq!(
        validate_getip(&getip("https://a", GetIPType::Json, Some(""))),
        Err(ValidationError { code: "parsms is_empty".to_string(), message: None, value: None })
    );
}

#[test]
fn validate_urls_reports_index_and_reason() {
    let urls = vec!["https://a.example".to_string(), "nope".to_string(), "also bad".to_string()];
    let reason = url::Url::parse("nope").unwrap_err().to_string();
    assert_eq!(
        validate_urls(&urls),
        Err(ValidationError {
            code: "invalid_url".to_string(),
            message: Some(format!("item 1 is not a valid URL: {}", reason)),
            value: None,
        })
    );
    assert_eq!(validate_urls(&urls[..1]), Ok(()));
}

#[test]
fn resolv_type_names() {
    assert_eq!(ResolvType::A.as_string(), "A");
    assert_eq!(ResolvType::Aaaa.as_string(), "AAAA");
    assert_eq!(ResolvType::Cname.as_string(), "CNAME");
    assert_eq!(ResolvType::Srv.as_string(), "SRV");
}

#[test]
fn store_keeps_accepted_config() {
    let mut store = ConfigStore::new();
    assert!(!store.is_initialized());
    let config = base_config();
    assert_eq!(init_config(&mut store, config.clone()), Ok(()));
    assert!(store.is_initialized());
    assert_eq!(get_config(&store).config.syncip, 300);
    assert_eq!(get_config(&store).dns.as_ref().unwrap()[0].0, "cf");
}

#[test]
fn store_stays_empty_on_refused_config() {
    let mut store = ConfigStore::new();
    let mut config = base_config();
    config.config.monitorip = 999;
    assert_eq!(init_config(&mut store, config), Err(ConfigError::MonitorIp));
    assert!(!store.is_initialized());
}

#[test]
fn store_accepts_only_one_config() {
    let mut store = ConfigStore::new();
    assert_eq!(try_init_config(&mut store, base_config()), Some(Ok(())));
    let mut second = base_config();
    second.config.syncip = 900;
    assert_eq!(try_init_config(&mut store, second), None);
    assert_eq!(get_config(&store).config.syncip, 300);
    let mut bad = base_config();
    bad.config.monitorip = 5000;
    assert_eq!(try_init_config(&mut store, bad), Some(Err(ConfigError::MonitorIp)));
}

#[test]
fn sync_jobs_visit_every_record() {
    let mut config = base_config();
    config.dns.as_mut().unwrap()[0].1.records.push(resolv("example.com", "api", None));
    config.dns.as_mut().unwrap().push((
        "cf2".to_string(),
        Dns {
            provider: Provider::CloudFlare { key: "k".to_string() },
            records: vec![resolv("example.org", "@", None)],
        },
    ));
    assert_eq!(update_record_jobs(&config), vec![(0, 0), (0, 1), (1, 0)]);
    config.dns = None;
    assert_eq!(update_record_jobs(&config), vec![]);
}

#[test]
fn config_error_texts() {
    assert_eq!(ConfigError::MonitorIp.to_text(), "monitorip must be less than syncip");
    let trigger = ConfigError::Trigger(ValidationError {
        code: "invalid_tigger".to_string(),
        message: Some("This trigger does not exist: x".to_string()),
        value: None,
    });
    assert_eq!(trigger.to_text(), "triggers: This trigger does not exist: x");
    let invalid = ConfigError::Invalid(vec![
        WebHookIssue {
            index: 0,
            webhook: "a".to_string(),
            field: "url".to_string(),
            error: ValidationError {
                code: "url".to_string(),
                message: None,
                value: Some("not \"a\" url".to_string()),
            },
        },
        WebHookIssue {
            index: 12,
            webhook: "b".to_string(),
            field: "json".to_string(),
            error: ValidationError {
                code: "invalid_json".to_string(),
                message: Some("bad".to_string()),
                value: None,
            },
        },
    ]);
    assert_eq!(
        invalid.to_text(),
        "webhook[0].url: Validation error: url [{\"value\": String(\"not \\\"a\\\" url\")}]webhook[12].json: bad"
    );
    let no_params = ValidationError { code: "parsms is none".to_string(), message: None, value: None };
    assert_eq!(no_params.to_text(), "Validation error: parsms is none [{}]");
    assert_eq!(ConfigError::Invalid(vec![]).to_text(), "");
}

#[test]
fn validation_text_matches_validator_display() {
    let mut theirs = validator::ValidationError::new("url");
    theirs.add_param(std::borrow::Cow::from("value"), &"ht tp://x \"y\"".to_string());
    let ours = ValidationError {
        code: "url".to_string(),
        message: None,
        value: Some("ht tp://x \"y\"".to_string()),
    };
    assert_eq!(ours.to_text(), format!("{}", theirs));
    let bare = validator::ValidationError::new("parsms is none");
    let ours = ValidationError { code: "parsms is none".to_string(), message: None, value: None };
    assert_eq!(ours.to_text(), format!("{}", bare));
}
