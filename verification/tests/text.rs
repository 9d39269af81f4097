use hello::text::same_bytes;
use hello::text::same_text;
use hello::text::starts_with;
use hello::text::to_decimal;

#[test]
fn starts_with_accepts_the_empty_prefix() {
    assert!(starts_with(b"abc", b""));
    assert!(starts_with(b"", b""));
}

#[test]
fn starts_with_compares_byte_for_byte() {
    assert!(starts_with(b"abcdef", b"abc"));
    assert!(starts_with(b"abc", b"abc"));
    assert!(!starts_with(b"abc", b"abd"));
    assert!(!starts_with(b"abc", b"bc"));
    assert!(!starts_with(b"ab", b"abc"));
    assert!(!starts_with(b"", b"a"));
    assert!(starts_with(&[0u8, 0, 0], &[0u8, 0]));
}

#[test]
fn same_bytes_needs_equal_length_and_content() {
    assert!(same_bytes(b"", b""));
    assert!(same_bytes(b"abc", b"abc"));
    assert!(!same_bytes(b"abc", b"ab"));
    assert!(!same_bytes(b"ab", b"abc"));
    assert!(!same_bytes(b"abc", b"abd"));
}

#[test]
fn same_text_is_exact() {
    assert!(same_text("GET", "GET"));
    assert!(same_text("", ""));
    assert!(!same_text("GET", "get"));
    assert!(!same_text("GET", "GET "));
    assert!(!same_text("caf\u{e9}", "cafe"));
    assert!(same_text("caf\u{e9}", "caf\u{e9}"));
}

#[test]
fn decimal_of_small_numbers() {
    assert_eq!(to_decimal(0), "0");
    assert_eq!(to_decimal(7), "7");
    assert_eq!(to_decimal(9), "9");
    assert_eq!(to_decimal(10), "10");
    assert_eq!(to_decimal(99), "99");
    assert_eq!(to_decimal(100), "100");
    assert_eq!(to_decimal(1024), "1024");
    assert_eq!(to_decimal(1234567890), "1234567890");
}

#[test]
fn decimal_agrees_with_the_standard_formatter() {
    let mut n: usize = 1;
    for _ in 0..60 {
        assert_eq!(to_decimal(n), format!("{}", n));
        assert_eq!(to_decimal(n - 1), format!("{}", n - 1));
        n = n.wrapping_mul(7).wrapping_add(3);
    }
    assert_eq!(to_decimal(usize::MAX), format!("{}", usize::MAX));
}
