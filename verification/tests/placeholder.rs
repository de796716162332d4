use ddns::error::Error;
use ddns::ip::Gip;
use ddns::types::{parse, placeholder_resolve, unix_timestamp, IPType, Token};

const CONTENT: &str = "rdhghthdhgh${ipv4}hghfh$${ipv4}fghfghf${ipv4}adsdasdsad${ipv6}awdadadada${ipv6}ads$${ipv6}dadadwdawadwadade$${timestamp}ewadsafaffsf";

#[test]
fn test_parse() {
    let parsed = placeholder_resolve(CONTENT, &Gip::new()).unwrap();

    assert_eq!(
        parsed,
        "rdhghthdhgh0.0.0.0hghfh${ipv4}fghfghf0.0.0.0adsdasdsad::awdadadada::ads${ipv6}dadadwdawadwadade${timestamp}ewadsafaffsf"
    );
}

#[test]
fn parse_splits_text_and_placeholders() {
    let tokens = parse("ab${ipv4}c").unwrap();
    assert_eq!(
        tokens,
        vec![
            Token::Text("ab".to_string()),
            Token::Var("ipv4".to_string(), 3, 8),
            Token::Text("c".to_string()),
        ]
    );
}

#[test]
fn parse_escape_joins_text() {
    let tokens = parse("a$$b").unwrap();
    assert_eq!(tokens, vec![Token::Text("a$b".to_string())]);
}

#[test]
fn parse_empty_gives_no_token() {
    assert_eq!(parse("").unwrap(), vec![]);
}

#[test]
fn parse_positions_count_escapes_once() {
    let tokens = parse("$$${x}").unwrap();
    assert_eq!(
        tokens,
        vec![Token::Text("$".to_string()), Token::Var("x".to_string(), 2, 4)]
    );
}

#[test]
fn parse_empty_placeholder_name() {
    let tokens = parse("${}").unwrap();
    assert_eq!(tokens, vec![Token::Var("".to_string(), 1, 2)]);
}

#[test]
fn parse_error_dollar_at_end() {
    assert_eq!(parse("abc$"), Err(Error::General("next char is none : 3".to_string())));
}

#[test]
fn parse_error_no_open_brace() {
    assert_eq!(parse("ab$c"), Err(Error::General("{ failed : 3".to_string())));
}

#[test]
fn parse_error_no_close_brace() {
    assert_eq!(parse("a${bcd"), Err(Error::General("} failed : 5".to_string())));
}

#[test]
fn resolve_unknown_name_gives_name() {
    let g = Gip::new();
    assert_eq!(placeholder_resolve("x${other}y", &g).unwrap(), "xothery");
}

#[test]
fn resolve_uses_given_addresses() {
    let g = Gip { ipv4: "1.2.3.4".to_string(), ipv6: "2001:db8::1".to_string() };
    assert_eq!(
        placeholder_resolve("${ipv4} ${ipv6}", &g).unwrap(),
        "1.2.3.4 2001:db8::1"
    );
}

#[test]
fn resolve_timestamp_is_decimal_seconds() {
    let g = Gip::new();
    let before = unix_timestamp().unwrap();
    let s = placeholder_resolve("t=${timestamp}", &g).unwrap();
    let after = unix_timestamp().unwrap();
    let n: u64 = s.strip_prefix("t=").unwrap().parse().unwrap();
    assert!(before <= n && n <= after);
}

#[test]
fn resolve_parse_error_is_reported() {
    let g = Gip::new();
    assert_eq!(
        placeholder_resolve("${ipv4", &g),
        Err(Error::General("} failed : 5".to_string()))
    );
}

#[test]
fn escaped_text_resolves_to_itself() {
    let g = Gip::new();
    let text = "cost: $5 ${not a placeholder}";
    let escaped = text.replace('$', "$$");
    assert_eq!(placeholder_resolve(&escaped, &g).unwrap(), text);
}

#[test]
fn plain_text_resolves_to_itself() {
    let g = Gip::new();
    assert_eq!(placeholder_resolve("no placeholders here", &g).unwrap(), "no placeholders here");
}

#[test]
fn ip_type_names() {
    assert_eq!(IPType::IPV4.to_text(), "IPv4");
    assert_eq!(IPType::IPV6.to_text(), "IPv6");
}

#[test]
fn error_texts() {
    assert_eq!(Error::General("x".to_string()).to_text(), "general x");
    assert_eq!(Error::Response("y".to_string()).to_text(), "response y");
    assert_eq!(Error::InvalidHeaderName("z".to_string()).to_text(), "http invalidheadername z");
    assert_eq!(Error::ApiRequest("a".to_string()).to_text(), "api request a");
}

#[test]
fn placeholder_between_texts_resolves() {
    let g = Gip { ipv4: "10.0.0.1".to_string(), ipv6: "fe80::1".to_string() };
    assert_eq!(placeholder_resolve("a$$b${ipv6}c$$", &g).unwrap(), "a$bfe80::1c$");
    assert_eq!(placeholder_resolve("pre-${name}-post", &g).unwrap(), "pre-name-post");
}

#[test]
fn recorded_address_is_resolved() {
    let mut g = Gip::new();
    ddns::ip::update_ip(&mut g, IPType::IPV4, "198.51.100.23".to_string());
    assert_eq!(placeholder_resolve("ip=${ipv4};", &g).unwrap(), "ip=198.51.100.23;");
    ddns::ip::update_ip(&mut g, IPType::IPV6, "2001:db8::23".to_string());
    assert_eq!(placeholder_resolve("[${ipv6}]", &g).unwrap(), "[2001:db8::23]");
    assert_eq!(placeholder_resolve("${ipv4}", &g).unwrap(), "198.51.100.23");
}

#[test]
fn parse_round_trip() {
    for input in [CONTENT, "", "a$$b", "${}x${y}$$", "plain", "$$${timestamp}$$"] {
        let tokens = parse(input).unwrap();
        let back: String = tokens
            .iter()
            .map(|t| match t {
                Token::Text(s) => s.replace('$', "$$"),
                Token::Var(n, _, _) => format!("${{{}}}", n),
            })
            .collect();
        assert_eq!(back, input);
    }
}
