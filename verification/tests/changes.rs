use gsync::changeset::ChangeSet;
use gsync::commit::{
    find_changes, first_malformed, parse_changes, parse_record, ChangeStatus, QueryOutcome,
};
use gsync::error::{ErrorKind, GsyncError};

fn paths(listing: &str) -> Vec<String> {
    parse_changes(listing).unwrap().paths()
}

fn is_malformed(listing: &str) -> bool {
    matches!(
        parse_changes(listing),
        Err(GsyncError::Custom(ErrorKind::MalformedDiffOutput))
    )
}

#[test]
fn a_modified_path_is_kept() {
    let record = parse_record("M\tsrc/app/a.go").unwrap();
    assert_eq!(record.status, ChangeStatus::Modified);
    assert_eq!(record.path, "src/app/a.go");
    assert_eq!(record.old_path, None);
    assert_eq!(record.synced_path(), Some(&"src/app/a.go".to_string()));
}

#[test]
fn an_added_path_is_kept() {
    let record = parse_record("A\tnew.txt").unwrap();
    assert_eq!(record.status, ChangeStatus::Added);
    assert_eq!(record.synced_path(), Some(&"new.txt".to_string()));
}

#[test]
fn any_other_status_keeps_the_second_token() {
    let record = parse_record("C075\tsrc/a.rs\tsrc/b.rs").unwrap();
    assert_eq!(record.status, ChangeStatus::Other);
    assert_eq!(record.path, "src/a.rs");
    assert_eq!(record.old_path, None);
    let record = parse_record("??  scratch.txt").unwrap();
    assert_eq!(record.status, ChangeStatus::Other);
    assert_eq!(record.synced_path(), Some(&"scratch.txt".to_string()));
}

#[test]
fn a_deleted_path_is_dropped() {
    let record = parse_record("D\tsrc/app/b.go").unwrap();
    assert_eq!(record.status, ChangeStatus::Deleted);
    assert_eq!(record.path, "src/app/b.go");
    assert_eq!(record.synced_path(), None);
}

#[test]
fn a_rename_without_change_is_dropped() {
    let record = parse_record("R100\told/d.go\tsrc/app/d.go").unwrap();
    assert_eq!(record.status, ChangeStatus::RenamedNoContentChange);
    assert_eq!(record.old_path, Some("old/d.go".to_string()));
    assert_eq!(record.path, "src/app/d.go");
    assert_eq!(record.synced_path(), None);
}

#[test]
fn a_rename_with_change_keeps_the_new_path() {
    let record = parse_record("R087\told/c.go\tsrc/app/c.go").unwrap();
    assert_eq!(record.status, ChangeStatus::RenamedWithContentChange);
    assert_eq!(record.old_path, Some("old/c.go".to_string()));
    assert_eq!(record.synced_path(), Some(&"src/app/c.go".to_string()));
    let record = parse_record("R\ta\tb").unwrap();
    assert_eq!(record.status, ChangeStatus::RenamedWithContentChange);
    assert_eq!(record.synced_path(), Some(&"b".to_string()));
    let record = parse_record("R1000\ta\tb").unwrap();
    assert_eq!(record.status, ChangeStatus::RenamedWithContentChange);
}

#[test]
fn tokens_are_delimited_by_any_whitespace() {
    let record = parse_record("  M \t  a.txt  ").unwrap();
    assert_eq!(record.status, ChangeStatus::Modified);
    assert_eq!(record.path, "a.txt");
    let record = parse_record("M\u{a0}a.txt\u{3000}b.txt").unwrap();
    assert_eq!(record.path, "a.txt");
}

#[test]
fn a_line_without_its_path_is_malformed() {
    assert!(parse_record("M").is_err());
    assert!(parse_record("D").is_err());
    assert!(parse_record("").is_err());
    assert!(parse_record(" \t ").is_err());
}

#[test]
fn a_rename_without_its_new_path_is_malformed() {
    assert!(matches!(
        parse_record("R087\told/c.go"),
        Err(GsyncError::Custom(ErrorKind::MalformedDiffOutput))
    ));
    assert!(parse_record("R100\told/c.go").is_err());
    assert!(parse_record("R100").is_err());
}

#[test]
fn the_listing_yields_the_paths_to_transfer() {
    let listing =
        "M\tsrc/app/a.go\nD\tsrc/app/b.go\nR087\told/c.go\tsrc/app/c.go\nR100\told/d.go\tsrc/app/d.go";
    assert_eq!(paths(listing), vec!["src/app/a.go", "src/app/c.go"]);
}

#[test]
fn deleted_paths_are_not_among_the_changes() {
    let changes = parse_changes("D\tgone.txt\nM\tkept.txt\n").unwrap();
    assert!(!changes.contains("gone.txt"));
    assert!(changes.contains("kept.txt"));
    assert_eq!(changes.len(), 1);
}

#[test]
fn a_path_deleted_and_changed_is_among_the_changes() {
    let changes = parse_changes("D\tboth.txt\nA\tboth.txt\n").unwrap();
    assert!(changes.contains("both.txt"));
}

#[test]
fn renamed_paths_without_change_are_not_among_the_changes() {
    let changes = parse_changes("R100\told.txt\tnew.txt\n").unwrap();
    assert!(!changes.contains("old.txt"));
    assert!(!changes.contains("new.txt"));
    assert_eq!(changes.len(), 0);
}

#[test]
fn renamed_paths_with_change_come_under_their_new_name() {
    let changes = parse_changes("R050\told.txt\tnew.txt\n").unwrap();
    assert!(!changes.contains("old.txt"));
    assert!(changes.contains("new.txt"));
    assert_eq!(changes.len(), 1);
}

#[test]
fn the_empty_listing_has_no_changes() {
    assert_eq!(paths(""), Vec::<String>::new());
}

#[test]
fn repeated_paths_collapse() {
    assert_eq!(paths("M\ta\nA\ta\nM\ta"), vec!["a"]);
}

#[test]
fn the_paths_come_in_ascending_order() {
    assert_eq!(paths("M\tb/c\nM\ta\nM\tb\nM\tab\nM\tB"), vec!["B", "a", "ab", "b", "b/c"]);
}

#[test]
fn a_line_feed_at_the_end_opens_no_line() {
    assert_eq!(paths("M\ta\n"), vec!["a"]);
}

#[test]
fn carriage_returns_count_as_whitespace() {
    assert_eq!(paths("M\ta\r\nM\tb\r\n"), vec!["a", "b"]);
}

#[test]
fn a_blank_line_fails_the_listing() {
    assert!(is_malformed("M\ta\n\nM\tb"));
    assert!(is_malformed("\n"));
    assert!(is_malformed("M\ta\n\n"));
}

#[test]
fn one_malformed_line_fails_the_listing() {
    assert!(is_malformed("M\ta\nM\nM\tb"));
    assert!(is_malformed("M\ta\nR090\tb"));
}

#[test]
fn the_first_malformed_line_is_found() {
    assert_eq!(first_malformed("M\ta\nM\nM\tb\n\n"), Some(1));
    assert_eq!(first_malformed("M\ta\nM\tb\n"), None);
    assert_eq!(first_malformed(""), None);
    assert_eq!(first_malformed("\n"), Some(0));
}

#[test]
fn a_backend_that_did_not_run_yields_an_error() {
    assert!(matches!(
        find_changes(&QueryOutcome::Unavailable),
        Err(GsyncError::Custom(ErrorKind::BackendUnavailable))
    ));
}

#[test]
fn a_backend_that_failed_yields_an_error() {
    assert!(matches!(
        find_changes(&QueryOutcome::Failed),
        Err(GsyncError::Custom(ErrorKind::BackendQueryFailed))
    ));
}

#[test]
fn output_that_is_no_utf8_yields_an_error() {
    let outcome = QueryOutcome::Succeeded(vec![b'M', b'\t', 0xff, 0xfe]);
    assert!(matches!(
        find_changes(&outcome),
        Err(GsyncError::Custom(ErrorKind::MalformedDiffOutput))
    ));
}

#[test]
fn output_with_a_malformed_line_yields_an_error() {
    let outcome = QueryOutcome::Succeeded(b"M\ta\nM\n".to_vec());
    assert!(matches!(
        find_changes(&outcome),
        Err(GsyncError::Custom(ErrorKind::MalformedDiffOutput))
    ));
}

#[test]
fn output_of_a_query_is_read_as_a_listing() {
    let outcome = QueryOutcome::Succeeded("M\tsrc/\u{e9}t\u{e9}.txt\nD\tgone\n".as_bytes().to_vec());
    let changes = find_changes(&outcome).unwrap();
    assert_eq!(changes.paths(), vec!["src/\u{e9}t\u{e9}.txt"]);
}

#[test]
fn a_change_set_holds_each_path_once() {
    let mut set = ChangeSet::new();
    assert_eq!(set.len(), 0);
    assert!(set.insert("b"));
    assert!(set.insert("a"));
    assert!(!set.insert("b"));
    assert!(set.insert("c"));
    assert_eq!(set.len(), 3);
    assert!(set.contains("a"));
    assert!(!set.contains("d"));
    assert!(!set.contains(""));
    assert_eq!(set.paths(), vec!["a", "b", "c"]);
    assert_eq!(set.get(1), "b");
}

#[test]
fn a_prefix_comes_before_its_extensions() {
    let mut set = ChangeSet::new();
    set.insert("ab");
    set.insert("a");
    set.insert("");
    set.insert("a/b");
    set.insert("a-b");
    assert_eq!(set.paths(), vec!["", "a", "a-b", "a/b", "ab"]);
}

#[test]
fn extending_a_change_set_gives_the_union() {
    let mut left = ChangeSet::new();
    left.insert("a");
    left.insert("c");
    let mut right = ChangeSet::new();
    right.insert("b");
    right.insert("c");
    right.insert("d");
    let mut forth = ChangeSet::new();
    forth.extend(&left);
    forth.extend(&right);
    let mut back = ChangeSet::new();
    back.extend(&right);
    back.extend(&left);
    assert_eq!(forth.paths(), vec!["a", "b", "c", "d"]);
    assert_eq!(forth.paths(), back.paths());
    forth.extend(&right);
    assert_eq!(forth.paths(), back.paths());
}
