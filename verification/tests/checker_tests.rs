use ana::checker::Checker;

fn checker_differs(output: &[u8], answer: &[u8]) -> bool {
    !Checker::default().compare_bytes(output, answer)
}

#[test]
fn checker_test_diff_complete_eq() {
    assert!(!checker_differs(b"hello world", b"hello world"));
}

#[test]
fn checker_test_diff_with_empty_line_at_eof() {
    assert!(!checker_differs(b"hello world\n", b"hello world"));
    assert!(!checker_differs(b"hello world\n\n", b"hello world"));
    assert!(!checker_differs(b"hello world\n", b"hello world\n"));
    assert!(!checker_differs(b"hello world\n\n", b"hello world\n"));
    assert!(!checker_differs(b"hello world\n\n", b"hello world\n\n"));
    assert!(!checker_differs(b"hello world", b"hello world\n"));
    assert!(!checker_differs(b"hello world", b"hello world\n\n"));
}

#[test]
fn checker_test_diff_with_space_at_eol() {
    assert!(!checker_differs(b"hello world ", b"hello world"));
    assert!(!checker_differs(b"hello world  ", b"hello world"));
    assert!(!checker_differs(b"hello world", b"hello world  "));
}

#[test]
fn checker_test_diff_with_both_empty_line_at_eof_and_space_at_eol() {
    assert!(!checker_differs(b"hello world \n", b"hello world"));
    assert!(!checker_differs(b"hello world", b"hello world \n"));
    assert!(!checker_differs(b"hello world\n", b"hello world "));
    assert!(!checker_differs(b"hello world ", b"hello world\n"));
    assert!(!checker_differs(b"hello world \n", b"hello world\n"));
    assert!(!checker_differs(b"hello world\n", b"hello world \n"));
    assert!(!checker_differs(b"hello world\n ", b"hello world\n"));
    assert!(!checker_differs(b"hello world\n", b"hello world\n "));
    assert!(!checker_differs(b"hello world\n \n", b"hello world\n"));
    assert!(!checker_differs(b"hello world\n", b"hello world\n \n"));
}

#[test]
fn checker_options_change_the_verdict() {
    let strict = Checker::new().ignore_white_space_at_line_end(false);
    assert!(!strict.compare_bytes(b"a \n", b"a\n"));
    assert!(strict.compare_bytes(b"a\n", b"a"));
    let exact_end = Checker::new().ignore_empty_line_at_file_end(false);
    assert!(!exact_end.compare_bytes(b"a\n\n", b"a\n"));
    assert!(exact_end.compare_bytes(b"a \n", b"a\n"));
    assert!(Checker::new().compare_strings("x y \n", "x y"));
    assert!(!Checker::new().compare_strings("x y", "x z"));
}

#[test]
fn checker_extern_program_command() {
    let checker = Checker::new().extern_program("/usr/bin/spj");
    let command = checker.check_use_extern_program("in", "out", "ans");
    assert_eq!(command.program, "/usr/bin/spj");
    assert_eq!(command.args, vec!["in".to_string(), "ans".to_string(), "out".to_string()]);
}
