use gshell::ui::highlighter::{read_operator_token, read_word_end, OpKind};
use std::path::PathBuf;

use gshell::config::Color;
use gshell::parser::ParseErrorKind;
use gshell::shell::{CommandOutput, ExitCode, ShellAction, ShellError, ShellState};
use gshell::ui::highlighter::{
    dequote_and_unescape, highlight_line, highlight_tokens, HighlighterPalette, ShellHighlighter,
    SpanStyle, Emphasis, TokenKind,
};
use gshell::ui::validator::{ParserValidator, Validation};
use gshell::ui::{set_block_cursor, LineStep, ReplCore, ReplFlow};

#[test]
fn block_cursor_escape_sequence_matches_decsusr_block_shape() {
    let mut output = Vec::new();

    set_block_cursor(&mut output).expect("cursor sequence should be written");

    assert_eq!(output, b"\x1b[2 q");
}

fn assert_validation(result: Validation, expected: Validation) {
    assert!(
        matches!(
            (result, expected),
            (Validation::Incomplete, Validation::Incomplete)
                | (Validation::Complete, Validation::Complete)
        ),
        "validator returned a different completion state"
    );
}

#[test]
fn trailing_pipe_is_incomplete() {
    let validator = ParserValidator::default();
    assert_validation(validator.validate("echo hello |"), Validation::Incomplete);
}

#[test]
fn unclosed_quote_is_incomplete() {
    let validator = ParserValidator::default();
    assert_validation(validator.validate("echo \"hello"), Validation::Incomplete);
}

#[test]
fn unclosed_subshell_is_incomplete() {
    let validator = ParserValidator::default();
    assert_validation(validator.validate("(echo hello"), Validation::Incomplete);
}

#[test]
fn complete_command_is_complete() {
    let validator = ParserValidator::default();
    assert_validation(validator.validate("echo hello"), Validation::Complete);
}

#[test]
fn invalid_but_complete_input_does_not_force_multiline() {
    let validator = ParserValidator::default();
    assert_validation(validator.validate("&&"), Validation::Complete);
}

fn palette() -> HighlighterPalette {
    HighlighterPalette::new(
        Color::Cyan,
        Color::LightCyan,
        Color::Green,
        Color::Blue,
        Color::Purple,
        Color::Yellow,
    )
}

fn style(color: Option<Color>, emphasis: Emphasis) -> SpanStyle {
    SpanStyle { color, emphasis }
}

fn plain() -> SpanStyle {
    style(None, Emphasis::Normal)
}

#[test]
fn styles_commands_builtins_args_flags_and_operators() {
    let highlighted = highlight_line("ls -la file | cd", palette());

    assert_eq!(
        highlighted,
        vec![
            (style(Some(Color::Cyan), Emphasis::Italic), "ls".to_string()),
            (plain(), " ".to_string()),
            (style(Some(Color::Blue), Emphasis::Bold), "-la".to_string()),
            (plain(), " ".to_string()),
            (style(Some(Color::Green), Emphasis::Normal), "file".to_string()),
            (plain(), " ".to_string()),
            (style(Some(Color::Purple), Emphasis::Dimmed), "|".to_string()),
            (plain(), " ".to_string()),
            (style(Some(Color::LightCyan), Emphasis::Bold), "cd".to_string()),
        ]
    );
}

#[test]
fn styles_redirections_separately_from_arguments() {
    let highlighted = highlight_line("echo hello 2>> output.txt", palette());

    assert_eq!(
        highlighted,
        vec![
            (style(Some(Color::LightCyan), Emphasis::Bold), "echo".to_string()),
            (plain(), " ".to_string()),
            (style(Some(Color::Green), Emphasis::Normal), "hello".to_string()),
            (plain(), " ".to_string()),
            (style(Some(Color::Yellow), Emphasis::Dimmed), "2>>".to_string()),
            (plain(), " ".to_string()),
            (style(Some(Color::Green), Emphasis::Normal), "output.txt".to_string()),
        ]
    );
}

#[test]
fn keeps_quoted_and_escaped_arguments_as_single_tokens() {
    let highlighted = highlight_line("printf \"hello world\" some\\ file", palette());

    assert_eq!(
        highlighted,
        vec![
            (style(Some(Color::Cyan), Emphasis::Italic), "printf".to_string()),
            (plain(), " ".to_string()),
            (style(Some(Color::Green), Emphasis::Normal), "\"hello world\"".to_string()),
            (plain(), " ".to_string()),
            (style(Some(Color::Green), Emphasis::Normal), "some\\ file".to_string()),
        ]
    );
}

#[test]
fn highlighting_keeps_every_character_of_the_line() {
    for line in ["a|b&&c ; (d) 2>&1 >> f", "  'x y' \"q\\\"r\" z\\", "", "->x - -y 12 3<in"] {
        let joined: String = highlight_tokens(line).into_iter().map(|(_, t)| t).collect();
        assert_eq!(joined, line);
    }
}

#[test]
fn quoted_builtin_name_is_still_a_builtin_and_close_paren_ends_command_position() {
    let tokens = highlight_tokens("'cd' x; (pwd) y & e");
    let kinds: Vec<TokenKind> = tokens.iter().map(|(k, _)| *k).collect();
    assert_eq!(
        kinds,
        vec![
            TokenKind::Builtin,
            TokenKind::Plain,
            TokenKind::Argument,
            TokenKind::Control,
            TokenKind::Plain,
            TokenKind::Control,
            TokenKind::Builtin,
            TokenKind::Control,
            TokenKind::Plain,
            TokenKind::Argument,
            TokenKind::Plain,
            TokenKind::Control,
            TokenKind::Plain,
            TokenKind::Argument,
        ]
    );
}

#[test]
fn flags_exclude_lone_dash_and_arrows() {
    let kinds: Vec<TokenKind> =
        highlight_tokens("x - -> -a").iter().map(|(k, _)| *k).collect();
    assert_eq!(
        kinds,
        vec![
            TokenKind::Command,
            TokenKind::Plain,
            TokenKind::Argument,
            TokenKind::Plain,
            TokenKind::Argument,
            TokenKind::Redirect,
            TokenKind::Plain,
            TokenKind::Flag,
        ]
    );
}

#[test]
fn dequoting_removes_quotes_and_resolves_escapes() {
    assert_eq!(dequote_and_unescape("'a b'\"c\\\"d\"e\\ f"), "a bc\"de f");
    assert_eq!(dequote_and_unescape("x\\"), "x");
    assert_eq!(dequote_and_unescape("'unclosed"), "unclosed");
}

#[test]
fn default_palette_and_highlighter() {
    let h = ShellHighlighter::new(HighlighterPalette::default());
    let runs = h.highlight("echo", 0);
    assert_eq!(runs, vec![(style(Some(Color::Cyan), Emphasis::Bold), "echo".to_string())]);
}

fn state() -> ShellState {
    ShellState::new(Vec::new(), PathBuf::from("/"), PathBuf::from("/tmp/gshell-ui-history"))
}

#[test]
fn accepted_line_is_recorded_trimmed_and_handed_on() {
    let core = ReplCore::new(());
    let mut st = state();
    match core.accept_line(&mut st, "  echo hi  ") {
        LineStep::Execute(_) => {}
        other => panic!("expected a command, got {:?}", other),
    }
    assert_eq!(st.history().entries(), &["echo hi".to_string()]);
    assert_eq!(st.last_exit_status(), ExitCode::new(0));
}

#[test]
fn rejected_line_fails_the_status_and_empty_line_is_skipped() {
    let core = ReplCore::new(());
    let mut st = state();
    match core.accept_line(&mut st, "echo 'open") {
        LineStep::Rejected(e) => assert_eq!(e.kind, ParseErrorKind::Incomplete),
        other => panic!("expected an error, got {:?}", other),
    }
    assert_eq!(st.last_exit_status(), ExitCode::new(1));
    assert!(matches!(core.accept_line(&mut st, "   "), LineStep::Skip));
    assert!(st.history().entries().is_empty());
}

#[test]
fn finishing_a_command_sets_the_status_and_exit_breaks() {
    let core = ReplCore::new(());
    let mut st = state();
    let mut out = CommandOutput::success();
    out.exit_code = ExitCode::new(3);
    assert_eq!(core.finish(&mut st, &Ok(ShellAction::Continue(out))), ReplFlow::Continue);
    assert_eq!(st.last_exit_status(), ExitCode::new(3));
    assert_eq!(core.finish(&mut st, &Ok(ShellAction::Exit(ExitCode::new(7)))), ReplFlow::Break);
    assert_eq!(st.last_exit_status(), ExitCode::new(7));
    let err: Result<ShellAction, ShellError> = Err(ShellError::message("boom".to_string()));
    assert_eq!(core.finish(&mut st, &err), ReplFlow::Continue);
    assert_eq!(st.last_exit_status(), ExitCode::new(1));
    st.set_last_exit_status(ExitCode::new(0));
    assert_eq!(core.interrupted(&mut st), ReplFlow::Continue);
    assert_eq!(st.last_exit_status(), ExitCode::new(1));
    assert_eq!(core.end_of_input(), ReplFlow::Break);
}

#[test]
fn word_and_operator_readers_answer_past_the_end() {
    let line: Vec<char> = "echo 'a b'|x".chars().collect();
    assert_eq!(read_word_end(&line, 5), 10);
    assert_eq!(read_word_end(&line, line.len()), line.len());
    assert_eq!(read_word_end(&line, line.len() + 3), line.len() + 3);
    assert!(matches!(read_operator_token(&line, 10), Some((11, OpKind::Control))));
    assert!(read_operator_token(&line, line.len()).is_none());
    assert!(read_operator_token(&line, line.len() + 2).is_none());
}
