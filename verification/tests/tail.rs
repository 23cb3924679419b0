use runix::tail::{get_lines_bytes, get_start_index, print_bytes, print_lines, TakeSize};

#[test]
fn test_get_start_index() {
    assert_eq!(get_start_index(&TakeSize::PlusZero, 0), None);
    assert_eq!(get_start_index(&TakeSize::PlusZero, 10), Some(0));
    assert_eq!(get_start_index(&TakeSize::Num(0), 0), None);
    assert_eq!(get_start_index(&TakeSize::Num(-10), 100), Some(90));
    assert_eq!(get_start_index(&TakeSize::Num(10), 100), Some(9));
}

#[test]
fn get_start_index_edges() {
    assert_eq!(get_start_index(&TakeSize::Num(5), 4), None);
    assert_eq!(get_start_index(&TakeSize::Num(-10), 4), Some(0));
    assert_eq!(get_start_index(&TakeSize::Num(1), 1), Some(0));
    assert_eq!(get_start_index(&TakeSize::Num(0), 10), None);
}

#[test]
fn take_size_from_str() {
    assert_eq!(TakeSize::from_str("+0"), Some(TakeSize::PlusZero));
    assert_eq!(TakeSize::from_str("10"), Some(TakeSize::Num(-10)));
    assert_eq!(TakeSize::from_str("+10"), Some(TakeSize::Num(10)));
    assert_eq!(TakeSize::from_str("-3"), Some(TakeSize::Num(-3)));
    assert_eq!(TakeSize::from_str("0"), Some(TakeSize::Num(0)));
    assert_eq!(TakeSize::from_str(""), None);
    assert_eq!(TakeSize::from_str("+"), None);
    assert_eq!(TakeSize::from_str("abc"), None);
    assert_eq!(TakeSize::from_str("12x"), None);
    assert_eq!(TakeSize::from_str("99999999999999999999"), None);
}

#[test]
fn lines_and_bytes_counted() {
    assert_eq!(get_lines_bytes(b""), (0, 0));
    assert_eq!(get_lines_bytes(b"abc"), (1, 3));
    assert_eq!(get_lines_bytes(b"hello\nworld\n"), (2, 12));
    assert_eq!(get_lines_bytes(b"a\nb"), (2, 3));
    assert_eq!(get_lines_bytes(b"\n\n"), (2, 2));
}

#[test]
fn tail_of_lines() {
    let lines: Vec<Vec<u8>> = vec![b"one\n".to_vec(), b"two\n".to_vec(), b"three\n".to_vec()];
    assert_eq!(print_lines(&lines, &TakeSize::Num(-2), 3), "two\nthree\n");
    assert_eq!(print_lines(&lines, &TakeSize::Num(2), 3), "two\nthree\n");
    assert_eq!(print_lines(&lines, &TakeSize::PlusZero, 3), "one\ntwo\nthree\n");
    assert_eq!(print_lines(&lines, &TakeSize::Num(0), 3), "");
    assert_eq!(print_lines(&lines, &TakeSize::Num(4), 3), "");
}

#[test]
fn tail_of_bytes() {
    assert_eq!(print_bytes(b"abcdef", &TakeSize::Num(-3), 6), "def");
    assert_eq!(print_bytes(b"abcdef", &TakeSize::Num(2), 6), "bcdef");
    assert_eq!(print_bytes(b"abcdef", &TakeSize::PlusZero, 6), "abcdef");
    assert_eq!(print_bytes(b"abcdef", &TakeSize::Num(0), 6), "");
    // a cut through a multi-byte encoding is repaired lossily
    let moon = "1🌕".as_bytes();
    assert_eq!(print_bytes(moon, &TakeSize::Num(-2), 5), "��");
}
