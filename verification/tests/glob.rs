use gshell::glob::{glob_entries, glob_step, sorted_matches, GlobStep};
use gshell::glob::{
    component_has_glob, component_literal_text, component_matches_hidden_rule,
    glob_component_matches, join_display_path, parse_glob_tokens, split_glob_components,
    GlobComponent,
};

fn components(pattern: &str) -> Vec<GlobComponent> {
    let (tokens, _) = parse_glob_tokens(pattern);
    split_glob_components(tokens)
}

fn matches(pattern: &str, name: &str) -> bool {
    let cs = components(pattern);
    assert_eq!(cs.len(), 1);
    glob_component_matches(&cs[0], name)
}

#[test]
fn star_question_and_classes_match_names() {
    assert!(matches("*.txt", "notes.txt"));
    assert!(!matches("*.txt", "notes.md"));
    assert!(matches("file?.rs", "file1.rs"));
    assert!(!matches("file?.rs", "file10.rs"));
    assert!(matches("[ab]c", "bc"));
    assert!(!matches("[!ab]c", "ac"));
    assert!(matches("[a-c]x", "bx"));
    assert!(matches("*", ""));
    assert!(matches("abc", "abc"));
}

#[test]
fn wildcards_are_detected_and_patterns_split_on_slashes() {
    let (_, meta) = parse_glob_tokens("src/*.rs");
    assert!(meta);
    let (_, meta) = parse_glob_tokens("plain/name");
    assert!(!meta);
    let cs = components("src/*.rs");
    assert_eq!(cs.len(), 2);
    assert!(!component_has_glob(&cs[0]));
    assert_eq!(component_literal_text(&cs[0]), "src");
    assert!(component_has_glob(&cs[1]));
}

#[test]
fn hidden_names_need_a_leading_dot_in_the_pattern() {
    let star = &components("*")[0];
    assert!(!component_matches_hidden_rule(star, ".hidden"));
    assert!(component_matches_hidden_rule(star, "shown"));
    let dot = &components(".*")[0];
    assert!(component_matches_hidden_rule(dot, ".hidden"));
}

#[test]
fn display_paths_join_with_one_slash() {
    assert_eq!(join_display_path("", "a"), "a");
    assert_eq!(join_display_path("/", "a"), "/a");
    assert_eq!(join_display_path("src", "a.rs"), "src/a.rs");
}

fn components_of(pattern: &str) -> Vec<GlobComponent> {
    split_glob_components(parse_glob_tokens(pattern).0)
}

#[test]
fn walk_steps_follow_the_components() {
    let comps = components_of("src/*.rs");
    assert!(matches!(
        glob_step(&comps, 0, ""),
        GlobStep::Enter { name: Some(ref n), ref display } if n == "src" && display == "src"
    ));
    assert!(matches!(glob_step(&comps, 1, "src"), GlobStep::List));
    assert!(matches!(glob_step(&comps, 2, "src/a.rs"), GlobStep::Found(ref p) if p == "src/a.rs"));
    assert!(matches!(glob_step(&comps, 2, ""), GlobStep::Found(ref p) if p == "."));
}

#[test]
fn listed_entries_are_kept_by_pattern_hidden_rule_and_kind() {
    let comps = components_of("*/x");
    let listed = vec![
        ("a".to_string(), true),
        ("b".to_string(), false),
        (".hid".to_string(), true),
        ("c".to_string(), true),
    ];
    assert_eq!(
        glob_entries(&comps, 0, "/", &listed),
        vec![("a".to_string(), "/a".to_string()), ("c".to_string(), "/c".to_string())]
    );
    let last = components_of("*.rs");
    let files = vec![("m.rs".to_string(), false), ("n.txt".to_string(), false)];
    assert_eq!(glob_entries(&last, 0, "", &files), vec![("m.rs".to_string(), "m.rs".to_string())]);
}

#[test]
fn matches_are_sorted_with_repeats_kept() {
    let found = vec!["b".to_string(), "a".to_string(), "b".to_string(), "B".to_string()];
    assert_eq!(
        sorted_matches(found),
        vec!["B".to_string(), "a".to_string(), "b".to_string(), "b".to_string()]
    );
}
