use runix::cat::{cat_line, is_blank_line, number_line};
use runix::comm::comm_merge;
use runix::echo::echo_line;
use runix::head::{head_bytes, head_lines};

fn lines(xs: &[&str]) -> Vec<String> {
    xs.iter().map(|s| s.to_string()).collect()
}

#[test]
fn cat_numbering() {
    assert_eq!(number_line(1, "hi\n"), "     1\thi\n");
    assert_eq!(number_line(1234567, "x\n"), "1234567\tx\n");
    assert!(is_blank_line("\n"));
    assert!(is_blank_line("\r\n"));
    assert!(!is_blank_line(" \n"));

    // number every line
    assert_eq!(cat_line(true, false, 0, "a\n"), ("     1\ta\n".to_string(), 1));
    assert_eq!(cat_line(true, false, 1, "\n"), ("     2\t\n".to_string(), 2));
    // number only non-blank lines
    assert_eq!(cat_line(false, true, 0, "a\n"), ("     1\ta\n".to_string(), 1));
    assert_eq!(cat_line(false, true, 1, "\n"), ("\n".to_string(), 1));
    // plain
    assert_eq!(cat_line(false, false, 0, "a\n"), ("a\n".to_string(), 0));
}

#[test]
fn head_takes_first_lines() {
    let input = lines(&["one\n", "two\n", "three\n"]);
    assert_eq!(head_lines(&input, 2), "one\ntwo\n");
    assert_eq!(head_lines(&input, 10), "one\ntwo\nthree\n");
    assert_eq!(head_lines(&input, 0), "");
}

#[test]
fn head_takes_first_bytes() {
    assert_eq!(head_bytes(b"abcdef", 3).unwrap(), "abc");
    assert_eq!(head_bytes(b"abcdef", 6).unwrap(), "abcdef");
    assert_eq!(head_bytes(b"abc", 4), None);
    // a cut through a multi-byte encoding is repaired lossily
    assert_eq!(head_bytes("é!".as_bytes(), 1).unwrap(), "�");
}

#[test]
fn echo_joins_arguments() {
    assert_eq!(echo_line(&lines(&["hello", "world"]), false), "hello world\n");
    assert_eq!(echo_line(&lines(&["hello", "world"]), true), "hello world");
    assert_eq!(echo_line(&lines(&["hello"]), false), "hello\n");
    assert_eq!(echo_line(&lines(&[]), false), "\n");
    assert_eq!(echo_line(&lines(&[]), true), "");
}

#[test]
fn comm_three_columns() {
    let a = lines(&["apple", "cherry"]);
    let b = lines(&["banana", "cherry"]);
    assert_eq!(
        comm_merge(&a, &b, false, true, true, true, "\t"),
        "apple\n\tbanana\n\t\tcherry\n"
    );
    // suppressing columns
    assert_eq!(comm_merge(&a, &b, false, false, false, true, "\t"), "\t\tcherry\n");
    assert_eq!(comm_merge(&a, &b, false, true, false, false, "\t"), "apple\n");
    // another delimiter
    assert_eq!(
        comm_merge(&a, &b, false, false, true, false, "|"),
        "|banana\n"
    );
}

#[test]
fn comm_ignore_case_folds_output() {
    let a = lines(&["APPLE"]);
    let b = lines(&["apple"]);
    assert_eq!(comm_merge(&a, &b, true, true, true, true, "\t"), "\t\tapple\n");
    assert_eq!(
        comm_merge(&a, &b, false, true, true, true, "\t"),
        "APPLE\n\tapple\n"
    );
}

#[test]
fn comm_uneven_streams() {
    let a = lines(&["a", "b", "c"]);
    let b = lines(&[]);
    assert_eq!(comm_merge(&a, &b, false, true, true, true, "\t"), "a\nb\nc\n");
    assert_eq!(comm_merge(&b, &a, false, true, true, true, "\t"), "\ta\n\tb\n\tc\n");
}
