use rgate::text::ascii_lowercase;
use rgate::text::begins_with;
use rgate::text::contains;
use rgate::text::decimal;
use rgate::text::parse_port;
use rgate::text::same;
use rgate::text::split;
use rgate::text::trim_end_slashes;

#[test]
fn ports_are_read() {
    assert_eq!(parse_port("80"), Some(80));
    assert_eq!(parse_port("+0080"), Some(80));
    assert_eq!(parse_port("65535"), Some(65535));
    assert_eq!(parse_port("65536"), None);
    assert_eq!(parse_port("99999999999999999999999999"), None);
    assert_eq!(parse_port(""), None);
    assert_eq!(parse_port("+"), None);
    assert_eq!(parse_port("-1"), None);
    assert_eq!(parse_port("8 0"), None);
    assert_eq!(parse_port("65536x"), None);
}

#[test]
fn numbers_are_written() {
    assert_eq!(decimal(0), "0");
    assert_eq!(decimal(10), "10");
    assert_eq!(decimal(u64::MAX), "18446744073709551615");
    assert_eq!(parse_port(&decimal(8443)), Some(8443));
}

#[test]
fn texts_are_compared() {
    assert!(same("", ""));
    assert!(same("\u{e9}", "\u{e9}"));
    assert!(!same("a", "b"));
    assert!(!same("a", "ab"));
    assert!(begins_with("abc", "ab"));
    assert!(!begins_with("ab", "abc"));
    assert!(!begins_with("abc", "b"));
    assert!(contains("abc", "bc"));
    assert!(contains("abc", ""));
    assert!(!contains("abc", "d"));
    assert!(!contains("a", "ab"));
}

#[test]
fn texts_are_changed() {
    assert_eq!(trim_end_slashes("/a//"), "/a");
    assert_eq!(trim_end_slashes("//"), "");
    assert_eq!(ascii_lowercase("aZ\u{c9}["), "az\u{c9}[");
    assert_eq!(split("/a//b", '/'), vec!["", "a", "", "b"]);
    assert_eq!(split("", '/'), vec![""]);
}
