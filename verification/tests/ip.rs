use ddns::config::parse::{GetIP, GetIPType};
use ddns::ip::{json_ip_text, pick_service, read_ip_text, update_ip, Gip, IpResponse, JsonValue, UpdateIpError};
use ddns::types::IPType;

fn obj(entries: Vec<(&str, JsonValue)>) -> JsonValue {
    JsonValue::Object(entries.into_iter().map(|(k, v)| (k.to_string(), v)).collect())
}

#[test]
fn gip_starts_unspecified() {
    let g = Gip::new();
    assert_eq!(g.ipv4, "0.0.0.0");
    assert_eq!(g.ipv6, "::");
}

#[test]
fn update_ip_sets_only_its_kind() {
    let mut g = Gip::new();
    update_ip(&mut g, IPType::IPV4, "203.0.113.7".to_string());
    assert_eq!(g.ipv4, "203.0.113.7");
    assert_eq!(g.ipv6, "::");
    update_ip(&mut g, IPType::IPV6, "2001:db8::1".to_string());
    assert_eq!(g.ipv4, "203.0.113.7");
    assert_eq!(g.ipv6, "2001:db8::1");
}

#[test]
fn update_ip_twice_is_once() {
    let mut g = Gip::new();
    update_ip(&mut g, IPType::IPV6, "2001:db8::2".to_string());
    let once = g.clone();
    update_ip(&mut g, IPType::IPV6, "2001:db8::2".to_string());
    assert_eq!(g.ipv4, once.ipv4);
    assert_eq!(g.ipv6, once.ipv6);
}

#[test]
fn json_ip_text_follows_dotted_path() {
    let doc = obj(vec![
        ("status", JsonValue::Str("ok".to_string())),
        ("data", obj(vec![("ip", JsonValue::Str("198.51.100.4".to_string()))])),
    ]);
    assert_eq!(json_ip_text(&doc, "data.ip"), Ok("198.51.100.4".to_string()));
    assert_eq!(json_ip_text(&doc, "status"), Ok("ok".to_string()));
}

#[test]
fn json_ip_text_missing_key() {
    let doc = obj(vec![("data", obj(vec![("ip", JsonValue::Str("x".to_string()))]))]);
    assert_eq!(
        json_ip_text(&doc, "data.addr"),
        Err(UpdateIpError::MissingJsonKey("addr".to_string()))
    );
    assert_eq!(json_ip_text(&doc, "ip"), Err(UpdateIpError::MissingJsonKey("ip".to_string())));
    assert_eq!(
        json_ip_text(&JsonValue::Str("1.2.3.4".to_string()), "ip"),
        Err(UpdateIpError::MissingJsonKey("ip".to_string()))
    );
}

#[test]
fn json_ip_text_not_a_string() {
    let doc = obj(vec![("ip", JsonValue::Number("42".to_string())), ("o", obj(vec![]))]);
    assert_eq!(json_ip_text(&doc, "ip"), Err(UpdateIpError::NotString));
    assert_eq!(json_ip_text(&doc, "o"), Err(UpdateIpError::NotString));
}

#[test]
fn json_ip_text_first_member_wins() {
    let doc = obj(vec![
        ("ip", JsonValue::Str("first".to_string())),
        ("ip", JsonValue::Str("second".to_string())),
    ]);
    assert_eq!(json_ip_text(&doc, "ip"), Ok("first".to_string()));
}

#[test]
fn read_ip_text_plain_and_json() {
    let text = GetIP { url: "https://a".to_string(), rtype: GetIPType::Text, params: None };
    assert_eq!(
        read_ip_text(&text, &IpResponse::Text(" 192.0.2.1\n".to_string())),
        Ok(" 192.0.2.1\n".to_string())
    );
    let json = GetIP { url: "https://b".to_string(), rtype: GetIPType::Json, params: Some("ip".to_string()) };
    let doc = obj(vec![("ip", JsonValue::Str("2001:db8::5".to_string()))]);
    assert_eq!(read_ip_text(&json, &IpResponse::Json(doc)), Ok("2001:db8::5".to_string()));
    let doc = obj(vec![("addr", JsonValue::Bool(true))]);
    assert_eq!(
        read_ip_text(&json, &IpResponse::Json(doc)),
        Err(UpdateIpError::MissingJsonKey("ip".to_string()))
    );
}

#[test]
fn update_ip_error_texts() {
    assert_eq!(UpdateIpError::MissingJsonKey("ip".to_string()).to_text(), "missing json key: ip");
    assert_eq!(UpdateIpError::NotString.to_text(), "target value is not string");
}

#[test]
fn pick_service_stays_in_range() {
    let services = vec![
        GetIP { url: "https://a".to_string(), rtype: GetIPType::Text, params: None },
        GetIP { url: "https://b".to_string(), rtype: GetIPType::Text, params: None },
        GetIP { url: "https://c".to_string(), rtype: GetIPType::Text, params: None },
    ];
    let mut seen = [false; 3];
    for _ in 0..200 {
        let i = pick_service(&services);
        assert!(i < 3);
        seen[i] = true;
    }
    assert!(seen.iter().filter(|s| **s).count() >= 2);
    assert_eq!(pick_service(&services[..1].to_vec()), 0);
}
