use ana::diff::{buf_diff, check};

#[test]
fn diff_test_diff_complete_eq() {
    assert!(!buf_diff(b"hello world", b"hello world"));
}

#[test]
fn diff_test_diff_with_empty_line_at_eof() {
    assert!(!buf_diff(b"hello world\n", b"hello world"));
    assert!(!buf_diff(b"hello world\n\n", b"hello world"));
    assert!(!buf_diff(b"hello world\n", b"hello world\n"));
    assert!(!buf_diff(b"hello world\n\n", b"hello world\n"));
    assert!(!buf_diff(b"hello world\n\n", b"hello world\n\n"));
    assert!(!buf_diff(b"hello world", b"hello world\n"));
    assert!(!buf_diff(b"hello world", b"hello world\n\n"));
}

#[test]
fn diff_test_diff_with_space_at_eol() {
    assert!(!buf_diff(b"hello world ", b"hello world"));
    assert!(!buf_diff(b"hello world  ", b"hello world"));
    assert!(!buf_diff(b"hello world", b"hello world  "));
}

#[test]
fn diff_test_diff_with_both_empty_line_at_eof_and_space_at_eol() {
    assert!(!buf_diff(b"hello world \n", b"hello world"));
    assert!(!buf_diff(b"hello world", b"hello world \n"));
    assert!(!buf_diff(b"hello world\n", b"hello world "));
    assert!(!buf_diff(b"hello world ", b"hello world\n"));
    assert!(!buf_diff(b"hello world \n", b"hello world\n"));
    assert!(!buf_diff(b"hello world\n", b"hello world \n"));
    assert!(!buf_diff(b"hello world\n ", b"hello world\n"));
    assert!(!buf_diff(b"hello world\n", b"hello world\n "));
    assert!(!buf_diff(b"hello world\n \n", b"hello world\n"));
    assert!(!buf_diff(b"hello world\n", b"hello world\n \n"));
}

#[test]
fn diff_detects_differences() {
    assert!(buf_diff(b"hello world", b"hello_world"));
    assert!(buf_diff(b"1\n2\n", b"1\n"));
    assert!(buf_diff(b"1\n", b"1\n2\n"));
    assert!(check(b"hello world", b"hello world"));
    assert!(!check(b"hello world", b"hello_world"));
}

#[test]
fn diff_one_more_newline_never_matters() {
    let texts: [&[u8]; 5] = [b"", b"a", b"a\n", b"a \n\nb", b"x\ny \n"];
    for a in texts.iter() {
        for b in texts.iter() {
            let mut longer = a.to_vec();
            longer.push(b'\n');
            assert_eq!(buf_diff(&longer, b), buf_diff(a, b));
        }
    }
}

#[test]
fn diff_spaces_at_line_end_never_matter() {
    let texts: [&[u8]; 5] = [b"a", b"a\n", b"a \nb", b"", b"x\ny"];
    for a in texts.iter() {
        for b in texts.iter() {
            let mut longer = a.to_vec();
            longer.push(b' ');
            assert_eq!(buf_diff(&longer, b), buf_diff(a, b));
        }
    }
    let strict = ana::checker::Checker::new().ignore_empty_line_at_file_end(false);
    assert_eq!(strict.compare_bytes(b"a ", b"a"), strict.compare_bytes(b"a", b"a"));
}

#[test]
fn diff_is_reflexive_and_symmetric() {
    let texts: [&[u8]; 6] = [b"", b"a", b"a\n\n", b"a \nb", b"b\na", b" \n"];
    let checker = ana::checker::Checker::new().ignore_white_space_at_line_end(false);
    let comparer = ana::comparer::Comparer::new(false, false);
    for a in texts.iter() {
        assert!(!buf_diff(a, a));
        assert!(checker.compare_bytes(a, a));
        assert!(comparer.compare(a, a));
        for b in texts.iter() {
            assert_eq!(buf_diff(a, b), buf_diff(b, a));
            assert_eq!(checker.compare_bytes(a, b), checker.compare_bytes(b, a));
            assert_eq!(comparer.compare(a, b), comparer.compare(b, a));
        }
    }
}

#[test]
fn diff_space_before_any_newline_never_matters() {
    let texts: [&[u8]; 4] = [b"a\nb\n", b"\n\nx", b"a b\n\n", b"q"];
    let answers: [&[u8]; 3] = [b"a\nb", b"x", b"a b"];
    let checker = ana::checker::Checker::new().ignore_empty_line_at_file_end(false);
    let comparer = ana::comparer::Comparer::new(true, false);
    for t in texts.iter() {
        for (m, byte) in t.iter().enumerate() {
            if *byte != b'\n' {
                continue;
            }
            let mut spaced = t[..m].to_vec();
            spaced.push(b' ');
            spaced.extend_from_slice(&t[m..]);
            for a in answers.iter() {
                assert_eq!(buf_diff(&spaced, a), buf_diff(t, a));
                assert_eq!(checker.compare_bytes(&spaced, a), checker.compare_bytes(t, a));
                assert_eq!(comparer.compare(&spaced, a), comparer.compare(t, a));
            }
        }
    }
}
