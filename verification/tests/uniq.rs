use runix::textfmt::lines_match;
use runix::uniq::{print_count, print_default, print_repeated, print_unique};

#[test]
fn count_mode_prefixes_width_seven() {
    assert_eq!(print_count(3, "abc\n"), "      3 abc\n");
    assert_eq!(print_count(1234567, "x\n"), "1234567 x\n");
    assert_eq!(print_count(0, "abc\n"), "");
}

#[test]
fn repeated_mode() {
    assert_eq!(print_repeated(2, "abc\n"), "abc\n");
    assert_eq!(print_repeated(1, "abc\n"), "");
    assert_eq!(print_repeated(0, "abc\n"), "");
}

#[test]
fn unique_mode() {
    assert_eq!(print_unique(1, "abc\n"), "abc\n");
    assert_eq!(print_unique(2, "abc\n"), "");
    assert_eq!(print_unique(0, "abc\n"), "");
}

#[test]
fn default_mode() {
    assert_eq!(print_default(1, "abc\n"), "abc\n");
    assert_eq!(print_default(5, "abc\n"), "abc\n");
    assert_eq!(print_default(0, ""), "");
}

#[test]
fn adjacent_lines_compared_without_trailing_whitespace() {
    assert!(lines_match("abc\n", "abc"));
    assert!(lines_match("abc \t\n", "abc"));
    assert!(!lines_match("abc\n", "abd\n"));
    assert!(lines_match("", "   "));
    assert!(!lines_match("a b", "a b c"));
}
