use ddns::config::parse::{Resolv, ResolvType, WebHook};
use ddns::error::Error;
use ddns::ip::Gip;
use ddns::webhook::{find_name, prepare_webhook, trigger_steps, TriggerStep, Type};

fn hook(url: &str, json: Option<&str>) -> WebHook {
    WebHook { rtype: Type::Get, url: url.to_string(), headers: None, json: json.map(|j| j.to_string()) }
}

fn record(triggers: Option<Vec<&str>>) -> Resolv {
    Resolv {
        domain: "example.com".to_string(),
        rtype: ResolvType::Aaaa,
        hostname: "home".to_string(),
        target: "${ipv6}".to_string(),
        triggers: triggers.map(|t| t.into_iter().map(|s| s.to_string()).collect()),
    }
}

fn addrs() -> Gip {
    Gip { ipv4: "192.0.2.10".to_string(), ipv6: "2001:db8::10".to_string() }
}

#[test]
fn prepare_webhook_without_headers() {
    let req = prepare_webhook("https://h.example/x", &Type::Patch, &None, &Some("{}".to_string())).unwrap();
    assert_eq!(req.method, Type::Patch);
    assert_eq!(req.url, "https://h.example/x");
    assert_eq!(
        req.headers,
        Some(vec![("Content-Type".to_string(), "application/json".to_string())])
    );
    assert_eq!(req.json, Some("{}".to_string()));
    let req = prepare_webhook("https://h.example/x", &Type::Get, &None, &None).unwrap();
    assert!(req.headers.is_none());
    assert!(req.json.is_none());
}

#[test]
fn prepare_webhook_builds_headers() {
    let headers = Some(vec![
        ("Authorization".to_string(), "Bearer t".to_string()),
        ("x-tag".to_string(), "a\tb".to_string()),
    ]);
    let req = prepare_webhook("https://h.example", &Type::Post, &headers, &None).unwrap();
    assert_eq!(req.headers, headers);
    assert!(req.json.is_none());
}

#[test]
fn prepare_webhook_refuses_bad_header_name() {
    let headers = Some(vec![
        ("ok".to_string(), "v".to_string()),
        ("bad name".to_string(), "v".to_string()),
    ]);
    assert_eq!(
        prepare_webhook("https://h", &Type::Get, &headers, &None).unwrap_err(),
        Error::InvalidHeaderName("invalid HTTP header name".to_string())
    );
    let empty = Some(vec![("".to_string(), "v".to_string())]);
    assert_eq!(
        prepare_webhook("https://h", &Type::Get, &empty, &None).unwrap_err(),
        Error::InvalidHeaderName("invalid HTTP header name".to_string())
    );
}

#[test]
fn prepare_webhook_refuses_bad_header_value() {
    let headers = Some(vec![("x".to_string(), "line\nbreak".to_string())]);
    assert_eq!(
        prepare_webhook("https://h", &Type::Delete, &headers, &None).unwrap_err(),
        Error::InvalidHeaderValue("failed to parse header value".to_string())
    );
}

#[test]
fn find_name_gives_first_match() {
    let ws = vec![("a".to_string(), 1), ("b".to_string(), 2), ("a".to_string(), 3)];
    assert_eq!(find_name(&ws, &"a".to_string()), Some(0));
    assert_eq!(find_name(&ws, &"b".to_string()), Some(1));
    assert_eq!(find_name(&ws, &"c".to_string()), None);
}

#[test]
fn trigger_steps_resolve_url_and_body() {
    let ws = Some(vec![
        ("other".to_string(), hook("https://o.example", None)),
        ("notify".to_string(), hook("https://n.example/?ip=${ipv4}", Some("{\"v6\": \"${ipv6}\"}"))),
    ]);
    let steps = trigger_steps(&record(Some(vec!["notify", "nobody", "other"])), &ws, &addrs());
    assert_eq!(steps.len(), 3);
    match &steps[0] {
        Some(TriggerStep::Call { index, url, json }) => {
            assert_eq!(*index, 1);
            assert_eq!(url, "https://n.example/?ip=192.0.2.10");
            assert_eq!(json.as_deref(), Some("{\"v6\": \"2001:db8::10\"}"));
        }
        other => panic!("unexpected step {:?}", other),
    }
    assert!(steps[1].is_none());
    match &steps[2] {
        Some(TriggerStep::Call { index, url, json }) => {
            assert_eq!(*index, 0);
            assert_eq!(url, "https://o.example");
            assert!(json.is_none());
        }
        other => panic!("unexpected step {:?}", other),
    }
}

#[test]
fn trigger_steps_report_resolution_failures() {
    let ws = Some(vec![
        ("u".to_string(), hook("https://x/${ipv4", None)),
        ("j".to_string(), hook("https://x", Some("$x"))),
    ]);
    let steps = trigger_steps(&record(Some(vec!["u", "j"])), &ws, &addrs());
    match &steps[0] {
        Some(TriggerStep::UrlFailed { index, error }) => {
            assert_eq!(*index, 0);
            assert_eq!(*error, Error::General("} failed : 15".to_string()));
        }
        other => panic!("unexpected step {:?}", other),
    }
    match &steps[1] {
        Some(TriggerStep::JsonFailed { index, error }) => {
            assert_eq!(*index, 1);
            assert_eq!(*error, Error::General("{ failed : 1".to_string()));
        }
        other => panic!("unexpected step {:?}", other),
    }
}

#[test]
fn trigger_steps_without_triggers_or_webhooks() {
    assert!(trigger_steps(&record(None), &Some(vec![]), &addrs()).is_empty());
    let steps = trigger_steps(&record(Some(vec!["a"])), &None, &addrs());
    assert_eq!(steps.len(), 1);
    assert!(steps[0].is_none());
}

#[test]
fn prepare_webhook_json_body_marks_content_type() {
    let headers = Some(vec![("X-A".to_string(), "1".to_string())]);
    let body = Some("{\"ip\": \"1.2.3.4\"}".to_string());
    let req = prepare_webhook("https://h", &Type::Post, &headers, &body).unwrap();
    assert_eq!(
        req.headers,
        Some(vec![
            ("X-A".to_string(), "1".to_string()),
            ("Content-Type".to_string(), "application/json".to_string()),
        ])
    );
    assert_eq!(req.json, body);
    let own = Some(vec![("content-TYPE".to_string(), "application/merge-patch+json".to_string())]);
    let req = prepare_webhook("https://h", &Type::Patch, &own, &body).unwrap();
    assert_eq!(req.headers, own);
}
