use ana::compare;
use ana::text_compare;

fn differs(output: &str, answer: &str) -> bool {
    let by_text = text_compare::diff(output, answer);
    let by_bytes = compare::diff(output.as_bytes(), answer.as_bytes());
    assert_eq!(by_text, by_bytes);
    by_text
}

#[test]
fn compare_test_diff_complete_eq() {
    assert!(!differs("hello world", "hello world"));
}

#[test]
fn compare_test_diff_with_empty_line_at_eof() {
    assert!(!differs("hello world\n", "hello world"));
    assert!(!differs("hello world", "hello world\n"));
}

#[test]
fn compare_test_diff_with_space_at_eol() {
    assert!(!differs("hello world ", "hello world"));
    assert!(!differs("hello world", "hello world "));
}

#[test]
fn compare_test_diff_with_both_empty_line_at_eof_and_space_at_eol() {
    assert!(!differs("hello world \n", "hello world"));
    assert!(!differs("hello world", "hello world \n"));
    assert!(!differs("hello world\n", "hello world "));
    assert!(!differs("hello world ", "hello world\n"));
    assert!(!differs("hello world \n", "hello world\n"));
    assert!(!differs("hello world\n", "hello world \n"));
    assert!(!differs("hello world\n ", "hello world\n"));
    assert!(!differs("hello world\n", "hello world\n "));
}

#[test]
fn compare_detects_a_changed_line() {
    assert!(differs("hello world", "helloworld"));
    assert!(differs("a\nb\n", "a\nc\n"));
    assert!(compare::check(b"1 2\n", b"1 2"));
    assert!(!compare::check(b"1 2\n", b"1 3"));
}

#[test]
fn compare_only_reaches_the_shorter_text() {
    // Lines are compared pairwise as far as both texts reach.
    assert!(!differs("a\nb\nc", "a\nb"));
    assert!(!differs("", "anything"));
}

#[test]
fn compare_bytes_that_are_not_utf8_never_differ() {
    assert!(!compare::diff(&[0xff, 0x61], b"b"));
    assert!(!compare::diff(b"a", &[0xc3]));
    assert!(compare::diff(b"a", b"b"));
}

#[test]
fn compare_is_symmetric_and_reflexive() {
    let texts = ["", "a", "a\n", "a \nb", "a\n\nb\n", "x y\n z"];
    for a in texts.iter() {
        assert!(!differs(a, a));
        for b in texts.iter() {
            assert_eq!(differs(a, b), differs(b, a));
        }
    }
}

#[test]
fn compare_spj_command_orders_input_answer_output() {
    let c = text_compare::Comparer::spj_command("/w/spj", "/w/input", "/w/output", "/w/answer");
    assert_eq!(c.program, "/w/spj");
    assert_eq!(c.args, vec!["/w/input".to_string(), "/w/answer".to_string(), "/w/output".to_string()]);
    assert!(text_compare::Comparer::check_text("hello world\n", "hello world"));
}
