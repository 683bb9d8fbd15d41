use gsync::commit::{parse_commit, sort_commits, Ancestry, CommitSpecifier};
use gsync::error::{ErrorKind, GsyncError};

fn single(raw: &str) -> String {
    match parse_commit(raw) {
        Ok(Some(CommitSpecifier::Single(c))) => c,
        other => panic!("{:?} is no single reference: {:?}", raw, other),
    }
}

fn range(raw: &str) -> (String, String) {
    match parse_commit(raw) {
        Ok(Some(CommitSpecifier::Range(a, b))) => (a, b),
        other => panic!("{:?} is no range: {:?}", raw, other),
    }
}

fn is_invalid(raw: &str) -> bool {
    matches!(
        parse_commit(raw),
        Err(GsyncError::Custom(ErrorKind::InvalidSpecifierFormat))
    )
}

#[test]
fn a_reference_is_a_single_specifier() {
    assert_eq!(single("abc123"), "abc123");
    assert_eq!(single("HEAD~2"), "HEAD~2");
    assert_eq!(single("v1.0"), "v1.0");
}

#[test]
fn the_empty_specifier_is_single() {
    assert_eq!(single(""), "");
}

#[test]
fn two_references_make_a_range() {
    assert_eq!(range("abc..def"), ("abc".to_string(), "def".to_string()));
    assert_eq!(range("v1.0..v2.0"), ("v1.0".to_string(), "v2.0".to_string()));
}

#[test]
fn the_separator_is_read_from_the_left() {
    assert_eq!(range("a...b"), ("a".to_string(), ".b".to_string()));
}

#[test]
fn the_bare_separator_names_nothing() {
    assert!(matches!(parse_commit(".."), Ok(None)));
}

#[test]
fn more_than_two_parts_are_invalid() {
    assert!(is_invalid("a..b..c"));
    assert!(is_invalid("a....b"));
    assert!(is_invalid("...."));
}

#[test]
fn a_range_with_one_empty_end_is_invalid() {
    assert!(is_invalid("abc.."));
    assert!(is_invalid("..abc"));
    assert!(is_invalid("..."));
}

#[test]
fn an_ancestor_stays_in_front() {
    assert_eq!(sort_commits("old", "new", Ancestry::Ancestor), ("old", "new"));
}

#[test]
fn a_descendant_is_moved_behind() {
    assert_eq!(sort_commits("new", "old", Ancestry::NotAncestor), ("old", "new"));
}

#[test]
fn an_unknown_order_is_left_as_given() {
    assert_eq!(sort_commits("a", "b", Ancestry::Unknown), ("a", "b"));
}

#[test]
fn both_labelings_give_the_same_order() {
    let forth = sort_commits("old", "new", Ancestry::Ancestor);
    let back = sort_commits("new", "old", Ancestry::NotAncestor);
    assert_eq!(forth, back);
    assert_eq!(forth, ("old", "new"));
}

#[test]
fn a_single_commit_is_compared_with_its_parent() {
    let specifier = parse_commit("abc123").unwrap().unwrap();
    assert!(!specifier.is_range());
    let query = specifier.diff_query(Ancestry::Unknown);
    assert_eq!(query.from, "abc123~");
    assert_eq!(query.to, "abc123");
}

#[test]
fn a_range_is_compared_from_its_older_end() {
    let specifier = parse_commit("new..old").unwrap().unwrap();
    assert!(specifier.is_range());
    let query = specifier.diff_query(Ancestry::NotAncestor);
    assert_eq!(query.from, "old");
    assert_eq!(query.to, "new");
    let query = specifier.diff_query(Ancestry::Ancestor);
    assert_eq!(query.from, "new");
    assert_eq!(query.to, "old");
    let query = specifier.diff_query(Ancestry::Unknown);
    assert_eq!(query.from, "new");
    assert_eq!(query.to, "old");
}
