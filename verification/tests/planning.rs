use gsync::changeset::ChangeSet;
use gsync::commit::parse_changes;
use gsync::config::{first_invalid, to_dirmap, to_ignored, Config, RawConfig};
use gsync::error::{ErrorKind, GsyncError};
use gsync::pattern::Pattern;
use gsync::plan::{classify, make_plan, map_path, Classification};

fn config(rules: &[(&str, &str)], ignored: &[&str]) -> Config {
    let raw = RawConfig {
        dir_map: rules.iter().map(|(p, d)| (p.to_string(), d.to_string())).collect(),
        ignored: ignored.iter().map(|p| p.to_string()).collect(),
    };
    Config::parse_config(Some(raw)).unwrap()
}

fn changes(paths: &[&str]) -> ChangeSet {
    let mut set = ChangeSet::new();
    for path in paths {
        set.insert(path);
    }
    set
}

fn mapped(path: &str, pattern: &str, root: &str) -> String {
    map_path(path, pattern, root).unwrap()
}

fn mismatches(path: &str, pattern: &str, root: &str) -> bool {
    matches!(
        map_path(path, pattern, root),
        Err(GsyncError::Custom(ErrorKind::PathStripMismatch))
    )
}

#[test]
fn ignore_is_checked_before_the_rules() {
    let config = config(&[("a/b", "/dst1"), ("a/.*", "/dst2")], &["a/.*"]);
    assert_eq!(classify(&config, "a/b/c.txt"), Classification::Ignored);
}

#[test]
fn earlier_rule_wins_over_later_rule() {
    let config = config(&[("a/b", "/dst1"), ("a/.*", "/dst2")], &[]);
    assert_eq!(classify(&config, "a/b/c.txt"), Classification::Mapped(0));
    assert_eq!(classify(&config, "a/x/c.txt"), Classification::Mapped(1));
    assert_eq!(classify(&config, "b/x/c.txt"), Classification::Unmapped);
}

#[test]
fn a_more_specific_later_rule_does_not_override() {
    let config = config(&[("src", "/general"), ("src/app", "/specific")], &[]);
    assert_eq!(classify(&config, "src/app/a.go"), Classification::Mapped(0));
}

#[test]
fn without_patterns_every_path_is_unmapped() {
    let config = config(&[], &[]);
    assert_eq!(classify(&config, "a"), Classification::Unmapped);
}

#[test]
fn a_pattern_matches_anywhere_in_the_path() {
    let pattern = Pattern::new("app").unwrap();
    assert!(pattern.is_match("src/app/a.go"));
    assert!(!pattern.is_match("src/lib/a.go"));
    assert_eq!(pattern.as_str(), "app");
    let anchored = Pattern::new("^app").unwrap();
    assert!(!anchored.is_match("src/app/a.go"));
    assert!(anchored.is_match("app/a.go"));
}

#[test]
fn a_text_that_is_no_regular_expression_is_refused() {
    assert!(matches!(
        Pattern::new("src/(app"),
        Err(GsyncError::Custom(ErrorKind::ConfigInvalid))
    ));
    assert!(Pattern::new("src/(app)").is_ok());
}

#[test]
fn one_bad_pattern_fails_the_configuration() {
    let raw = RawConfig {
        dir_map: vec![("src".to_string(), "/dst".to_string())],
        ignored: vec!["ok".to_string(), "[".to_string()],
    };
    assert!(matches!(
        Config::parse_config(Some(raw)),
        Err(GsyncError::Custom(ErrorKind::ConfigInvalid))
    ));
    let raw = RawConfig {
        dir_map: vec![("src".to_string(), "/dst".to_string()), ("*".to_string(), "/x".to_string())],
        ignored: vec![],
    };
    assert!(matches!(
        Config::parse_config(Some(raw)),
        Err(GsyncError::Custom(ErrorKind::ConfigInvalid))
    ));
}

#[test]
fn a_missing_configuration_is_reported() {
    assert!(matches!(
        Config::parse_config(None),
        Err(GsyncError::Custom(ErrorKind::ConfigNotExist))
    ));
}

#[test]
fn the_first_bad_pattern_is_found() {
    let patterns = vec!["a".to_string(), "(".to_string(), "[".to_string()];
    assert_eq!(first_invalid(&patterns), Some(1));
    assert_eq!(first_invalid(&vec!["a".to_string(), "b+".to_string()]), None);
    assert_eq!(first_invalid(&vec![]), None);
}

#[test]
fn the_lists_keep_their_order() {
    let ignored = to_ignored(vec!["b".to_string(), "a".to_string(), "b".to_string()]).unwrap();
    let sources: Vec<&str> = ignored.iter().map(|p| p.as_str()).collect();
    assert_eq!(sources, vec!["b", "a", "b"]);
    let rules = to_dirmap(vec![
        ("z".to_string(), "/1".to_string()),
        ("a".to_string(), "/2".to_string()),
    ])
    .unwrap();
    assert_eq!(rules[0].0.as_str(), "z");
    assert_eq!(rules[0].1, "/1");
    assert_eq!(rules[1].0.as_str(), "a");
    assert_eq!(rules[1].1, "/2");
}

#[test]
fn path_is_rewritten_under_the_destination_root() {
    assert_eq!(
        mapped("src/app/config.yaml", "src/app", "/remote/app"),
        "/remote/app/config.yaml"
    );
}

#[test]
fn deeper_paths_keep_their_segments() {
    assert_eq!(mapped("src/app/a/b/c.go", "src/app", "/remote"), "/remote/a/b/c.go");
    assert_eq!(mapped("src/app/a/b/c.go", "src", "/remote"), "/remote/app/a/b/c.go");
}

#[test]
fn separators_at_the_end_do_not_count() {
    assert_eq!(mapped("src/app/a.go", "src/app/", "/remote/app"), "/remote/app/a.go");
    assert_eq!(mapped("src/app/a.go", "src/app", "/remote/app/"), "/remote/app/a.go");
    assert_eq!(mapped("src//app///a.go", "src/app", "/remote"), "/remote/a.go");
}

#[test]
fn a_path_that_is_its_pattern_goes_to_the_root() {
    assert_eq!(mapped("README.md", "README.md", "/remote/README.md"), "/remote/README.md");
}

#[test]
fn the_empty_pattern_strips_nothing() {
    assert_eq!(mapped("a/b", "", "/remote"), "/remote/a/b");
    assert_eq!(mapped("a/b", "", ""), "a/b");
}

#[test]
fn a_pattern_is_stripped_by_whole_segments() {
    assert!(mismatches("src/application/a.go", "src/app", "/remote"));
    assert!(mismatches("src/a.go", "src/app", "/remote"));
    assert!(mismatches("src", "src/app", "/remote"));
    assert!(mismatches("lib/src/app/a.go", "src/app", "/remote"));
}

#[test]
fn a_pattern_with_operators_is_no_prefix() {
    assert!(mismatches("src/app/a.go", "^src/app", "/remote"));
    assert!(mismatches("src/app/a.go", "src/(app|lib)", "/remote"));
    assert!(mismatches("src/app/a.go", "src/.*", "/remote"));
}

#[test]
fn rooted_and_unrooted_paths_do_not_mix() {
    assert!(mismatches("/src/app/a.go", "src/app", "/remote"));
    assert!(mismatches("src/app/a.go", "/src/app", "/remote"));
    assert_eq!(mapped("/src/app/a.go", "/src/app", "/remote"), "/remote/a.go");
}

#[test]
fn end_to_end_plan() {
    let listing = "M\tsrc/app/a.go\nD\tsrc/app/b.go\nR087\told/c.go\tsrc/app/c.go\nR100\told/d.go\tsrc/app/d.go";
    let changes: ChangeSet = parse_changes(listing).unwrap();
    let config = config(&[("src/app", "/remote/app")], &[]);
    let plan = make_plan(&config, &changes);
    assert_eq!(
        plan.mapped,
        vec![
            ("src/app/a.go".to_string(), "/remote/app/a.go".to_string()),
            ("src/app/c.go".to_string(), "/remote/app/c.go".to_string()),
        ]
    );
    assert!(plan.ignored.is_empty());
    assert!(plan.unmapped.is_empty());
    assert!(plan.mismatched.is_empty());
}

#[test]
fn the_plan_sorts_every_path_into_one_list() {
    let config = config(
        &[("src/app", "/remote/app"), ("^docs", "/remote/docs"), ("src", "/remote/src")],
        &["\\.tmp$", "^build/"],
    );
    let plan = make_plan(
        &config,
        &changes(&[
            "src/lib/x.rs",
            "src/app/main.rs",
            "build/out.o",
            "docs/index.md",
            "src/app/cache.tmp",
            "README.md",
            "src/app/a.rs",
        ]),
    );
    assert_eq!(plan.ignored, vec!["build/out.o", "src/app/cache.tmp"]);
    assert_eq!(
        plan.mapped,
        vec![
            ("src/app/a.rs".to_string(), "/remote/app/a.rs".to_string()),
            ("src/app/main.rs".to_string(), "/remote/app/main.rs".to_string()),
            ("src/lib/x.rs".to_string(), "/remote/src/lib/x.rs".to_string()),
        ]
    );
    assert_eq!(plan.unmapped, vec!["README.md"]);
    assert_eq!(plan.mismatched, vec!["docs/index.md"]);
}

#[test]
fn the_plan_of_no_changes_is_empty() {
    let plan = make_plan(&config(&[("a", "/b")], &["c"]), &ChangeSet::new());
    assert!(plan.ignored.is_empty());
    assert!(plan.mapped.is_empty());
    assert!(plan.unmapped.is_empty());
    assert!(plan.mismatched.is_empty());
}

#[test]
fn one_mismatch_does_not_stop_the_plan() {
    let config = config(&[("app", "/remote")], &[]);
    let plan = make_plan(&config, &changes(&["src/app/a.go", "app/b.go"]));
    assert_eq!(plan.mapped, vec![("app/b.go".to_string(), "/remote/b.go".to_string())]);
    assert_eq!(plan.mismatched, vec!["src/app/a.go"]);
}
