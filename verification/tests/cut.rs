use runix::cut::{cut_source, parse_delimiter, Selection};
use runix::fields::cut_fields;
use runix::ranges::{parse_ranges, Interval};
use runix::select::{extract_bytes, extract_chars, extract_fields};

fn iv(start: usize, end: usize) -> Interval {
    Interval { start, end }
}

#[test]
fn test_parse_ranges() {
    assert!(parse_ranges("").is_err());

    let r = parse_ranges("+1");
    assert!(r.is_err());
    assert_eq!(r.unwrap_err().message(), "invalid list value: \"+1\"");

    let r = parse_ranges("1-a");
    assert!(r.is_err());
    assert_eq!(r.unwrap_err().message(), "invalid list value: \"1-a\"");

    let r = parse_ranges("1-1");
    assert!(r.is_err());
    assert_eq!(
        r.unwrap_err().message(),
        "first number in range must be lower than second"
    );

    assert_eq!(parse_ranges("0").unwrap(), vec![iv(0, 1)]);
    assert_eq!(parse_ranges("0,2").unwrap(), vec![iv(0, 1), iv(2, 3)]);
    assert_eq!(parse_ranges("1-3").unwrap(), vec![iv(1, 3)]);
    assert_eq!(
        parse_ranges("0,6,2-5").unwrap(),
        vec![iv(0, 1), iv(6, 7), iv(2, 5)]
    );
}

#[test]
fn parse_ranges_more_errors() {
    let r = parse_ranges("2-1");
    assert_eq!(
        r.unwrap_err().message(),
        "first number in range must be lower than second"
    );

    let r = parse_ranges("1-");
    assert_eq!(r.unwrap_err().message(), "invalid list value: \"1-\"");

    let r = parse_ranges("-1");
    assert_eq!(r.unwrap_err().message(), "invalid list value: \"-1\"");

    let r = parse_ranges("1-2-3");
    assert_eq!(r.unwrap_err().message(), "invalid list value: \"1-2-3\"");

    // the first bad token wins
    let r = parse_ranges("1,x,2-1");
    assert_eq!(r.unwrap_err().message(), "invalid list value: \"x\"");

    // a numeral too large for the machine word
    let r = parse_ranges("99999999999999999999999999");
    assert_eq!(
        r.unwrap_err().message(),
        "invalid value: \"99999999999999999999999999\""
    );
    let r = parse_ranges("1-99999999999999999999999999");
    assert_eq!(
        r.unwrap_err().message(),
        "invalid value: \"-99999999999999999999999999\""
    );
}

#[test]
fn test_extract_chars() {
    assert_eq!(extract_chars("", &[iv(0, 1)]), "".to_string());
    assert_eq!(extract_chars("á", &[iv(0, 1)]), "á".to_string());
    assert_eq!(
        extract_chars("ábc", &[iv(0, 1), iv(1, 2)]),
        "áb".to_string()
    );
    assert_eq!(extract_chars("ábc", &[iv(0, 3)]), "ábc".to_string());
    assert_eq!(
        extract_chars("ábc", &[iv(2, 3), iv(1, 2)]),
        "bc".to_string()
    );
    assert_eq!(
        extract_chars("ábc", &[iv(0, 1), iv(1, 2), iv(4, 5)]),
        "áb".to_string()
    );
}

#[test]
fn test_extract_bytes() {
    assert_eq!(extract_bytes("á", &[iv(0, 1)]), "�".to_string());
    assert_eq!(extract_bytes("ábc", &[iv(0, 2)]), "á".to_string());
    assert_eq!(extract_bytes("ábc", &[iv(0, 3)]), "áb".to_string());
    assert_eq!(extract_bytes("ábc", &[iv(0, 4)]), "ábc".to_string());
    assert_eq!(extract_bytes("ábc", &[iv(3, 4), iv(2, 3)]), "bc".to_string());
}

#[test]
fn test_extract_fields() {
    let rec: Vec<String> = vec![
        "Name".to_string(),
        "Description".to_string(),
        "Number".to_string(),
    ];
    assert_eq!(extract_fields(&rec, &[iv(0, 1)]), vec!["Name".to_string()]);
    assert_eq!(
        extract_fields(&rec, &[iv(1, 2)]),
        vec!["Description".to_string()]
    );
    assert_eq!(
        extract_fields(&rec, &[iv(1, 2), iv(0, 1)]),
        vec!["Name".to_string(), "Description".to_string()]
    );
    assert_eq!(
        extract_fields(&rec, &[iv(2, 3), iv(0, 1)]),
        vec!["Name".to_string(), "Number".to_string()]
    );
}

#[test]
fn test_parse_delimiter() {
    assert_eq!(parse_delimiter(",").unwrap(), b',');
    assert_eq!(parse_delimiter("\t").unwrap(), b'\t');
    assert_eq!(
        parse_delimiter("ab").unwrap_err(),
        "--delim must be a single byte".to_string()
    );
    assert_eq!(
        parse_delimiter("").unwrap_err(),
        "--delim must be a single byte".to_string()
    );
    // one character, but more than one byte
    assert!(parse_delimiter("á").is_err());
}

#[test]
fn cut_source_bytes_mode() {
    let sel = Selection::Bytes(vec![iv(0, 2)]);
    let (out, err) = cut_source(b"hello\nworld\n", &sel, b'\t');
    assert!(err.is_none());
    assert_eq!(out, b"he\nwo\n".to_vec());
}

#[test]
fn cut_source_chars_mode() {
    let sel = Selection::Chars(vec![iv(0, 1)]);
    let (out, err) = cut_source("ábc\néf\n".as_bytes(), &sel, b'\t');
    assert!(err.is_none());
    assert_eq!(out, "á\né\n".as_bytes().to_vec());
}

#[test]
fn cut_source_last_line_unterminated() {
    let sel = Selection::Bytes(vec![iv(0, 1)]);
    let (out, err) = cut_source(b"ab\ncd", &sel, b'\t');
    assert!(err.is_none());
    assert_eq!(out, b"a\nc\n".to_vec());
}

#[test]
fn cut_source_invalid_text() {
    let sel = Selection::Chars(vec![iv(0, 1)]);
    let (out, err) = cut_source(&[b'o', b'k', b'\n', 0xff, b'\n'], &sel, b'\t');
    assert_eq!(out, b"o\n".to_vec());
    let e = err.expect("a malformed line must end the source");
    assert_eq!(e.message(), "stream did not contain valid UTF-8");
}

#[test]
fn cut_source_fields_mode() {
    let sel = Selection::Fields(vec![iv(0, 1), iv(2, 3)]);
    let (out, err) = cut_source(b"a,b,c\nx,y,z\n", &sel, b',');
    assert!(err.is_none());
    assert_eq!(out, b"a,c\nx,z\n".to_vec());
}

#[test]
fn cut_fields_quoting_round_trip() {
    // the second field holds the delimiter, so it comes back quoted
    let (out, err) = cut_fields(b"a,\"b,b\",c\n", &[iv(1, 2), iv(2, 3)], b',');
    assert!(err.is_none());
    assert_eq!(out, b"\"b,b\",c\n".to_vec());
}

#[test]
fn cut_fields_embedded_quote() {
    // a doubled quote inside a quoted field is one quote character
    let (out, err) = cut_fields(b"\"say \"\"hi\"\"\",x\n", &[iv(0, 1)], b',');
    assert!(err.is_none());
    assert_eq!(out, b"\"say \"\"hi\"\"\"\n".to_vec());
}

#[test]
fn cut_fields_malformed_record() {
    // a record that is not decodable text is a fault that ends the source;
    // the record before it stays emitted
    let (out, err) = cut_fields(b"good,line\n\xff\xfe,x\n", &[iv(0, 1)], b',');
    assert_eq!(out, b"good\n".to_vec());
    assert!(err.is_some());
}

#[test]
fn cut_fields_declaration_order_does_not_reorder() {
    let (out, err) = cut_fields(b"f0,f1,f2\n", &[iv(1, 2), iv(0, 1)], b',');
    assert!(err.is_none());
    assert_eq!(out, b"f0,f1\n".to_vec());
}
