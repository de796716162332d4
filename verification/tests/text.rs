use ddns::text::{decimal_string, split_string, trim_string};

#[test]
fn decimal_of_numbers() {
    assert_eq!(decimal_string(0), "0");
    assert_eq!(decimal_string(7), "7");
    assert_eq!(decimal_string(10), "10");
    assert_eq!(decimal_string(1234567890), "1234567890");
    assert_eq!(decimal_string(u64::MAX), u64::MAX.to_string());
}

#[test]
fn trim_removes_unicode_white_space() {
    assert_eq!(trim_string("  1.2.3.4\n"), "1.2.3.4");
    assert_eq!(trim_string("\u{3000}x\u{a0}"), "x");
    assert_eq!(trim_string(" \t "), "");
    assert_eq!(trim_string("a b"), "a b");
}

#[test]
fn trim_agrees_with_std() {
    for s in ["", " ", "x", " x ", "\r\n::1\r\n", "\u{2028}a\u{205f}", "\u{200b}a"] {
        assert_eq!(trim_string(s), s.trim());
    }
}

#[test]
fn split_on_dots() {
    assert_eq!(split_string("a.b.c", '.'), vec!["a", "b", "c"]);
    assert_eq!(split_string("", '.'), vec![""]);
    assert_eq!(split_string("a..b.", '.'), vec!["a", "", "b", ""]);
}

#[test]
fn split_agrees_with_std() {
    for s in ["", ".", "x", "x.y", "..", "data.ip"] {
        let ours = split_string(s, '.');
        let std: Vec<String> = s.split('.').map(|p| p.to_string()).collect();
        assert_eq!(ours, std);
    }
}
