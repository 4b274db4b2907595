use fix_eof_newline::text::{
    bytes_eq, contains_bytes, parse_u64_digits, parse_usize_digits, split_on_byte, split_ws,
    trim_bytes,
};

#[test]
fn bytes_eq_cases() {
    assert!(bytes_eq(b"", b""));
    assert!(bytes_eq(b"abc", b"abc"));
    assert!(!bytes_eq(b"abc", b"abd"));
    assert!(!bytes_eq(b"abc", b"ab"));
}

#[test]
fn trim_strips_both_ends() {
    assert_eq!(trim_bytes(b"  true\n"), b"true");
    assert_eq!(trim_bytes(b"\t\r\n"), b"");
    assert_eq!(trim_bytes(b"a b"), b"a b");
    assert_eq!(trim_bytes(b""), b"");
}

#[test]
fn split_keeps_empty_segments() {
    let parts = split_on_byte(b"a\0\0b", 0);
    assert_eq!(parts, vec![b"a".to_vec(), b"".to_vec(), b"b".to_vec()]);
    let parts = split_on_byte(b"", 0);
    assert_eq!(parts, vec![b"".to_vec()]);
    let parts = split_on_byte(b"x\n", b'\n');
    assert_eq!(parts, vec![b"x".to_vec(), b"".to_vec()]);
}

#[test]
fn split_ws_drops_empty_tokens() {
    let toks = split_ws(b"  head  parent \n");
    assert_eq!(toks, vec![b"head".to_vec(), b"parent".to_vec()]);
    let toks = split_ws(b"\n \t");
    assert!(toks.is_empty());
    let toks = split_ws(b"one");
    assert_eq!(toks, vec![b"one".to_vec()]);
}

#[test]
fn parse_u64_digits_cases() {
    assert_eq!(parse_u64_digits(b"0"), Some(0));
    assert_eq!(parse_u64_digits(b"10000000"), Some(10_000_000));
    assert_eq!(parse_u64_digits(b"18446744073709551615"), Some(u64::MAX));
    assert_eq!(parse_u64_digits(b"18446744073709551616"), None);
    assert_eq!(parse_u64_digits(b""), None);
    assert_eq!(parse_u64_digits(b"12a"), None);
    assert_eq!(parse_u64_digits(b"-1"), None);
    assert_eq!(parse_u64_digits(b"+5"), Some(5));
    assert_eq!(parse_u64_digits(b"+"), None);
    assert_eq!(parse_u64_digits(b"++5"), None);
}

#[test]
fn parse_usize_digits_cases() {
    assert_eq!(parse_usize_digits(b"2"), Some(2));
    assert_eq!(parse_usize_digits(b"007"), Some(7));
    assert_eq!(parse_usize_digits(b"x"), None);
}

#[test]
fn contains_bytes_cases() {
    assert!(contains_bytes(b"alice@example.com", b"alice"));
    assert!(contains_bytes(b"alice", b""));
    assert!(!contains_bytes(b"alice", b"bob"));
    assert!(!contains_bytes(b"al", b"alice"));
    assert!(contains_bytes(b"aab", b"ab"));
}
