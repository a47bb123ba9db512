use ana::comparer::{trim_end, Comparer};

fn comparer_differs(output: &[u8], answer: &[u8]) -> bool {
    !Comparer::default().compare(output, answer)
}

#[test]
fn comparer_test_diff_complete_eq() {
    assert!(!comparer_differs(b"hello world", b"hello world"));
}

#[test]
fn comparer_test_diff_with_empty_line_at_eof() {
    assert!(!comparer_differs(b"hello world\n", b"hello world"));
    assert!(!comparer_differs(b"hello world\n\n", b"hello world"));
    assert!(!comparer_differs(b"hello world\n", b"hello world\n"));
    assert!(!comparer_differs(b"hello world\n\n", b"hello world\n"));
    assert!(!comparer_differs(b"hello world\n\n", b"hello world\n\n"));
    assert!(!comparer_differs(b"hello world", b"hello world\n"));
    assert!(!comparer_differs(b"hello world", b"hello world\n\n"));
}

#[test]
fn comparer_test_diff_with_space_at_eol() {
    assert!(!comparer_differs(b"hello world ", b"hello world"));
    assert!(!comparer_differs(b"hello world  ", b"hello world"));
    assert!(!comparer_differs(b"hello world", b"hello world  "));
}

#[test]
fn comparer_test_diff_with_both_empty_line_at_eof_and_space_at_eol() {
    assert!(!comparer_differs(b"hello world \n", b"hello world"));
    assert!(!comparer_differs(b"hello world", b"hello world \n"));
    assert!(!comparer_differs(b"hello world\n", b"hello world "));
    assert!(!comparer_differs(b"hello world ", b"hello world\n"));
    assert!(!comparer_differs(b"hello world \n", b"hello world\n"));
    assert!(!comparer_differs(b"hello world\n", b"hello world \n"));
    assert!(!comparer_differs(b"hello world\n ", b"hello world\n"));
    assert!(!comparer_differs(b"hello world\n", b"hello world\n "));
    assert!(!comparer_differs(b"hello world\n \n", b"hello world\n"));
    assert!(!comparer_differs(b"hello world\n", b"hello world\n \n"));
}

#[test]
fn comparer_keeps_white_space_when_it_counts() {
    let strict = Comparer::new(false, true);
    assert!(!strict.compare(b"a\n", b"a"));
    assert!(!strict.compare(b"a \n", b"a\n"));
    assert!(strict.compare(b"a\n", b"a\n"));
    assert!(strict.compare(b"hello world\n\n", b"hello world\n"));
    assert!(!strict.compare(b"hello world\n \n", b"hello world\n"));
    let strictest = Comparer::new(false, false);
    assert!(!strictest.compare(b"hi\n", b"hi"));
    assert!(!strictest.compare(b"hello world\n\n", b"hello world\n"));
    let tabs = Comparer::new(true, false);
    assert!(tabs.compare(b"a\t\r\n", b"a"));
    assert!(!tabs.compare(b"a\n\n", b"a\n"));
    assert!(Comparer::default().buf_diff(b"a", b"b"));
}

#[test]
fn comparer_trim_end_drops_ascii_white_space() {
    assert_eq!(trim_end(b"ab \t\r\n\x0c"), b"ab");
    assert_eq!(trim_end(b"  "), b"");
    assert_eq!(trim_end(b"a b"), b"a b");
    assert_eq!(trim_end(b"a\x0b"), b"a\x0b");
}
