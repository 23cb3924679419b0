use runix::wc::{count, format_info, wc_format, FileInfo};

#[test]
fn test_count() {
    let text = "Join the dark side 🌕.\r\n";
    let info = count(text);

    let expected = FileInfo {
        lines: 1,
        words: 5,
        chars: 23,
        bytes: 26,
    };

    assert_eq!(info, expected);
}

#[test]
fn count_edges() {
    assert_eq!(
        count(""),
        FileInfo { bytes: 0, chars: 0, lines: 0, words: 0 }
    );
    assert_eq!(
        count("one\ntwo words\n"),
        FileInfo { bytes: 14, chars: 14, lines: 2, words: 3 }
    );
    // a trailing unterminated line still counts
    assert_eq!(
        count("no newline"),
        FileInfo { bytes: 10, chars: 10, lines: 1, words: 2 }
    );
    // runs of whitespace separate, never count
    assert_eq!(
        count("  a\t\tb  "),
        FileInfo { bytes: 8, chars: 8, lines: 1, words: 2 }
    );
}

#[test]
fn format_info_pads_to_five() {
    assert_eq!(format_info(true, 23), "   23");
    assert_eq!(format_info(true, 0), "    0");
    assert_eq!(format_info(true, 123456), "123456");
    assert_eq!(format_info(false, 23), "");
}

#[test]
fn wc_format_orders_counts() {
    let info = FileInfo { bytes: 26, chars: 23, lines: 1, words: 5 };
    assert_eq!(wc_format(&info, true, true, true, false), "    1    5   26");
    assert_eq!(wc_format(&info, false, false, false, true), "   23");
    assert_eq!(wc_format(&info, false, false, false, false), "");
}
