use fix_eof_newline::{added_eof_newline, ends_with_newline, strip_one_trailing_newline};

#[test]
fn ends_with_newline_cases() {
    assert!(!ends_with_newline(b""));
    assert!(!ends_with_newline(b"a"));
    assert!(ends_with_newline(b"\n"));
    assert!(ends_with_newline(b"\r\n"));
    assert!(ends_with_newline(b"a\n"));
    assert!(ends_with_newline(b"a\r\n"));
}

#[test]
fn strip_one_trailing_newline_cases() {
    let mut v = b"".to_vec();
    assert!(!strip_one_trailing_newline(&mut v));
    assert_eq!(v, b"");

    let mut v = b"a".to_vec();
    assert!(!strip_one_trailing_newline(&mut v));
    assert_eq!(v, b"a");

    let mut v = b"a\n".to_vec();
    assert!(strip_one_trailing_newline(&mut v));
    assert_eq!(v, b"a");

    let mut v = b"a\r\n".to_vec();
    assert!(strip_one_trailing_newline(&mut v));
    assert_eq!(v, b"a");
}

#[test]
fn added_eof_newline_cases() {
    assert!(added_eof_newline(b"a", b"a\n"));
    assert!(added_eof_newline(b"a", b"a\r\n"));
    assert!(!added_eof_newline(b"a\n", b"a\n"));
    assert!(!added_eof_newline(b"a\n", b"a"));
    assert!(added_eof_newline(b"", b"\n"));
}

#[test]
fn strip_removes_one_terminator_per_call_on_double_newline() {
    let mut v = b"a\n\n".to_vec();
    assert!(strip_one_trailing_newline(&mut v));
    assert_eq!(v, b"a\n");
    assert!(strip_one_trailing_newline(&mut v));
    assert_eq!(v, b"a");
}

#[test]
fn strip_takes_crlf_as_one_terminator() {
    let mut v = b"a\r\n\r\n".to_vec();
    assert!(strip_one_trailing_newline(&mut v));
    assert_eq!(v, b"a\r\n");
}

#[test]
fn repair_skips_non_qualifying_content() {
    // old content already ended in a terminator: nothing to repair.
    let old = b"a\n".to_vec();
    let mut new = b"a\n".to_vec();
    if added_eof_newline(&old, &new) {
        strip_one_trailing_newline(&mut new);
    }
    assert_eq!(new, b"a\n");
}

#[test]
fn repair_twice_removes_only_one_terminator() {
    let old = b"hello".to_vec();
    let mut new = b"hello\n".to_vec();
    if added_eof_newline(&old, &new) {
        strip_one_trailing_newline(&mut new);
    }
    assert_eq!(new, b"hello");
    // a second repair of the repaired content changes nothing.
    if added_eof_newline(&old, &new) {
        strip_one_trailing_newline(&mut new);
    }
    assert_eq!(new, b"hello");
}
