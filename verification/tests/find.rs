use runix::find::{classify_path, directory_error, entry_matches, EntryType, PathAction, PathKind};

#[test]
fn entry_type_letters() {
    assert_eq!(EntryType::from_str("f").unwrap(), EntryType::File);
    assert_eq!(EntryType::from_str("d").unwrap(), EntryType::Directory);
    assert_eq!(EntryType::from_str("l").unwrap(), EntryType::Symlink);
    assert_eq!(
        EntryType::from_str("x").unwrap_err(),
        "Invalid entry type: x".to_string()
    );
    assert!(EntryType::from_str("").is_err());
}

#[test]
fn entry_filter() {
    // no types asked for: only the name decides
    assert!(entry_matches(&vec![], true, false, false, true));
    assert!(!entry_matches(&vec![], true, false, false, false));
    // a directory passes the directory filter
    let dirs = vec![EntryType::Directory];
    assert!(entry_matches(&dirs, false, true, false, true));
    assert!(!entry_matches(&dirs, true, false, false, true));
    // any of several types may accept
    let both = vec![EntryType::File, EntryType::Symlink];
    assert!(entry_matches(&both, false, false, true, true));
    assert!(!entry_matches(&both, false, true, false, true));
}

#[test]
fn path_classification() {
    assert_eq!(classify_path("-", None, false), PathAction::Use);
    assert_eq!(
        classify_path("a.txt", Some(PathKind::File), false),
        PathAction::Use
    );
    assert_eq!(
        classify_path("dir", Some(PathKind::Directory), true),
        PathAction::Walk
    );
    assert_eq!(
        classify_path("dir", Some(PathKind::Directory), false),
        PathAction::DirError
    );
    assert_eq!(classify_path("gone", None, true), PathAction::MetaError);
    assert_eq!(
        classify_path("dev", Some(PathKind::Other), true),
        PathAction::Skip
    );
    assert_eq!(
        directory_error("./tests/inputs"),
        "./tests/inputs is a directory".to_string()
    );
}
