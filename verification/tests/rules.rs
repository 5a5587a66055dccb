use dir_index::rules::strip_bom;
use dir_index::{RuleSet, Verdict};
use ignore::gitignore::GitignoreBuilder;

fn lines(patterns: &[&str]) -> Option<Vec<String>> {
    Some(patterns.iter().map(|line| line.to_string()).collect())
}

#[test]
fn a_directory_without_an_ignore_file_excludes_nothing() {
    let rules = RuleSet::load("proj", &None);
    assert!(!rules.matches("proj/debug.log", false));
    assert!(!rules.matches("proj", true));
}

#[test]
fn the_empty_rule_set_excludes_nothing() {
    let rules = RuleSet::empty();
    assert!(!rules.matches("proj/debug.log", false));
    assert!(!rules.matches("", true));
}

#[test]
fn a_wildcard_pattern_excludes_matching_files() {
    let rules = RuleSet::load("proj", &lines(&["*.log"]));
    assert!(rules.matches("proj/debug.log", false));
    assert!(rules.matches("proj/deep/er/trace.log", false));
    assert!(!rules.matches("proj/main.rs", false));
}

#[test]
fn a_directory_only_pattern_spares_files() {
    let rules = RuleSet::load("proj", &lines(&["*.log", "build/"]));
    assert!(rules.matches("proj/build", true));
    assert!(!rules.matches("proj/build", false));
}

#[test]
fn a_negated_pattern_brings_a_path_back() {
    let rules = RuleSet::load("proj", &lines(&["*.log", "!keep.log"]));
    assert!(rules.matches("proj/debug.log", false));
    assert!(!rules.matches("proj/keep.log", false));
}

#[test]
fn later_patterns_take_precedence() {
    let rules = RuleSet::load("proj", &lines(&["!keep.log", "*.log"]));
    assert!(rules.matches("proj/keep.log", false));
}

#[test]
fn comments_and_blank_lines_are_no_patterns() {
    let rules = RuleSet::load("proj", &lines(&["# build output", "", "   "]));
    assert!(!rules.matches("proj/# build output", false));
    assert!(!rules.matches("proj/a", false));
}

#[test]
fn a_byte_order_mark_is_dropped_from_the_first_line_only() {
    assert!(RuleSet::load("proj", &lines(&["\u{feff}*.log"])).matches("proj/a.log", false));
    assert!(RuleSet::load("proj", &lines(&["\u{feff}\u{feff}*.log"])).matches("proj/a.log", false));
    assert!(!RuleSet::load("proj", &lines(&["x", "\u{feff}*.log"])).matches("proj/a.log", false));
}

#[test]
fn the_rules_are_scoped_to_their_directory() {
    let rules = RuleSet::load("proj", &lines(&["/target"]));
    assert!(rules.matches("proj/target", true));
    assert!(!rules.matches("proj/sub/target", true));
    let other = RuleSet::load("proj/sub", &lines(&["/target"]));
    assert!(other.matches("proj/sub/target", true));
}

#[test]
fn a_directory_can_exclude_itself() {
    assert!(RuleSet::load("build", &lines(&["build/"])).matches("build", true));
    assert!(RuleSet::load("proj/build", &lines(&["*"])).matches("proj/build", true));
    assert!(!RuleSet::load("proj/build", &lines(&["build/"])).matches("proj/build", true));
}

#[test]
fn strip_bom_drops_leading_marks() {
    assert_eq!(strip_bom("\u{feff}*.log"), "*.log");
    assert_eq!(strip_bom("\u{feff}\u{feff}a"), "a");
    assert_eq!(strip_bom("*.log"), "*.log");
    assert_eq!(strip_bom("a\u{feff}b"), "a\u{feff}b");
    assert_eq!(strip_bom("\u{feff}"), "");
    assert_eq!(strip_bom(""), "");
}

#[test]
fn only_the_ignore_verdict_excludes() {
    assert!(Verdict::Ignored.is_ignore());
    assert!(!Verdict::Unmatched.is_ignore());
    assert!(!Verdict::Whitelisted.is_ignore());
}

#[test]
fn a_failed_build_leaves_the_empty_rule_set() {
    let rules = RuleSet::from_build(None);
    assert!(!rules.matches("proj/debug.log", false));
}

#[test]
fn a_built_matcher_becomes_the_rule_set() {
    let mut builder = GitignoreBuilder::new("proj");
    builder.add_line(None, "*.log").unwrap();
    let rules = RuleSet::from_build(builder.build().ok());
    assert!(rules.matches("proj/debug.log", false));
    assert!(!rules.matches("proj/main.rs", false));
}
