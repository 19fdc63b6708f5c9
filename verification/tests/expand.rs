use gshell::expand::{QuoteKind, Word, WordSegment};

#[test]
fn assignment_split_supports_quoted_suffix() {
    let word = Word::new(vec![
        WordSegment::Literal { text: "NAME=".into(), quote: QuoteKind::Unquoted },
        WordSegment::Literal { text: "hello world".into(), quote: QuoteKind::DoubleQuoted },
    ]);

    assert_eq!(
        word.split_assignment(),
        Some((
            "NAME".into(),
            Word::new(vec![WordSegment::Literal {
                text: "hello world".into(),
                quote: QuoteKind::DoubleQuoted,
            }])
        ))
    );
}

#[test]
fn words_without_an_assignment_do_not_split() {
    assert_eq!(Word::literal("echo").split_assignment(), None);
    assert_eq!(Word::literal("=value").split_assignment(), None);
    let quoted_name = Word::new(vec![WordSegment::Literal {
        text: "A=b".into(),
        quote: QuoteKind::SingleQuoted,
    }]);
    assert_eq!(quoted_name.split_assignment(), None);
}

fn state() -> gshell::shell::ShellState {
    gshell::shell::ShellState::new(
        vec![("PAT".to_string(), "*.rs".to_string()), ("HOME".to_string(), "/home/u".to_string())],
        std::path::PathBuf::from("/"),
        std::path::PathBuf::from("/tmp/h"),
    )
}

#[test]
fn quoted_wildcards_remain_literal() {
    let st = state();
    let quoted = Word::new(vec![WordSegment::Literal { text: "*.txt".into(), quote: QuoteKind::DoubleQuoted }]);
    let pattern = quoted.glob_pattern(&st, &[]);
    assert!(!pattern.has_glob_meta);
    assert_eq!(pattern.text, "*.txt");
    let results = gshell::expand::pathname_results(pattern, vec!["a.txt".to_string()]);
    assert_eq!(results, vec!["*.txt".to_string()]);
}

#[test]
fn variable_expansion_happens_before_globbing() {
    let st = state();
    let word = Word::new(vec![WordSegment::Variable { name: "PAT".into(), quote: QuoteKind::Unquoted }]);
    let pattern = word.glob_pattern(&st, &[]);
    assert!(pattern.has_glob_meta);
    assert_eq!(pattern.text, "*.rs");
    let results = gshell::expand::pathname_results(pattern, vec!["a.rs".to_string(), "b.rs".to_string()]);
    assert_eq!(results, vec!["a.rs".to_string(), "b.rs".to_string()]);
}

#[test]
fn command_substitution_output_is_trimmed_into_the_word() {
    let st = state();
    let word = Word::new(vec![
        WordSegment::Literal { text: "x".into(), quote: QuoteKind::Unquoted },
        WordSegment::CommandSubstitution { source: "pwd".into(), quote: QuoteKind::Unquoted },
    ]);
    assert_eq!(word.substitution_sources(), vec!["pwd".to_string()]);
    assert_eq!(word.expand_with(&st, &["/tmp\r\n\n".to_string()]), "x/tmp");
    let single = Word::new(vec![WordSegment::Variable { name: "HOME".into(), quote: QuoteKind::SingleQuoted }]);
    assert_eq!(single.expand(&st), "$HOME");
    let double = Word::new(vec![WordSegment::Variable { name: "HOME".into(), quote: QuoteKind::DoubleQuoted }]);
    assert_eq!(double.expand(&st), "/home/u");
}
