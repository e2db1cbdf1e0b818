use mcp_manager::text::{decimal, hex, lines, trim};
use mcp_manager::token::{generate_token, token_from_nanos};

#[test]
fn token_from_zero() {
    assert_eq!(token_from_nanos(0), "00000005deece66d7760bb20b4600a690000000000000000");
}

#[test]
fn token_from_timestamp() {
    assert_eq!(token_from_nanos(1234567890123456789), "112210f1a30567783ff64d66b6e2de18112210f47de98115");
}

#[test]
fn generated_token_is_48_hex_digits() {
    let t = generate_token();
    assert_eq!(t.len(), 48);
    assert!(t.chars().all(|c| c.is_ascii_hexdigit()));
}

#[test]
fn decimal_and_hex_digits() {
    assert_eq!(decimal(0), "0");
    assert_eq!(decimal(151), "151");
    assert_eq!(decimal(u64::MAX), "18446744073709551615");
    assert_eq!(hex(255, 4), "00ff");
}

#[test]
fn trim_matches_std() {
    for s in ["", "  a b  ", "\u{3000}x\u{a0}", "\t\r\nz\n"] {
        assert_eq!(trim(s), s.trim());
    }
}

#[test]
fn lines_match_std() {
    for s in ["", "a", "a\n", "a\r\nb", "a\n\nb\n", "x\r", "\n"] {
        let expected: Vec<String> = s.lines().map(|l| l.to_string()).collect();
        assert_eq!(lines(s), expected);
    }
}
