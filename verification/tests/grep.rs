use runix::grep::{find_lines, pattern_is_valid};

fn lines(xs: &[&str]) -> Vec<String> {
    xs.iter().map(|s| s.to_string()).collect()
}

#[test]
fn keeps_matching_lines_in_order() {
    let input = lines(&["Lorem\n", "Ipsum\n", "DOLOR SIT AMET\n"]);
    let hits = find_lines(&input, "or", false, false).unwrap();
    assert_eq!(hits, lines(&["Lorem\n"]));
}

#[test]
fn inverted_match_keeps_the_rest() {
    let input = lines(&["Lorem\n", "Ipsum\n", "DOLOR SIT AMET\n"]);
    let hits = find_lines(&input, "or", false, true).unwrap();
    assert_eq!(hits, lines(&["Ipsum\n", "DOLOR SIT AMET\n"]));
}

#[test]
fn case_insensitive_match() {
    let input = lines(&["Lorem\n", "Ipsum\n", "DOLOR SIT AMET\n"]);
    let hits = find_lines(&input, "or", true, false).unwrap();
    assert_eq!(hits, lines(&["Lorem\n", "DOLOR SIT AMET\n"]));
    let misses = find_lines(&input, "or", true, true).unwrap();
    assert_eq!(misses, lines(&["Ipsum\n"]));
}

#[test]
fn bad_pattern_is_refused() {
    assert!(find_lines(&lines(&["x\n"]), "*", false, false).is_err());
    assert!(!pattern_is_valid("*", false));
    assert!(pattern_is_valid("or", false));
}
