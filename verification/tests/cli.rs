use gshell::assignments::{apply_assignments, restore_assignments};
use gshell::cli::{
    help_text, missing_command_message, parse_cli, request_exit_code, unsupported_message,
    version_line, CliRequest,
};
use gshell::shell::ShellState;
use std::path::PathBuf;

fn args(v: &[&str]) -> Vec<String> {
    v.iter().map(|s| s.to_string()).collect()
}

#[test]
fn command_line_requests() {
    assert_eq!(parse_cli(&[]), CliRequest::Interactive);
    assert_eq!(parse_cli(&args(&["--help"])), CliRequest::Help);
    assert_eq!(parse_cli(&args(&["-h"])), CliRequest::Help);
    assert_eq!(parse_cli(&args(&["-V"])), CliRequest::Version);
    assert_eq!(parse_cli(&args(&["-c"])), CliRequest::MissingCommand);
    assert_eq!(parse_cli(&args(&["-c", "echo", "hi"])), CliRequest::Run("echo hi".to_string()));
    assert_eq!(parse_cli(&args(&["--bogus", "x"])), CliRequest::Unsupported("--bogus x".to_string()));
    assert_eq!(request_exit_code(&CliRequest::Help), Some(0));
    assert_eq!(request_exit_code(&CliRequest::MissingCommand), Some(2));
    assert_eq!(request_exit_code(&CliRequest::Run(String::new())), None);
}

#[test]
fn cli_texts() {
    assert_eq!(version_line("0.1.0"), "gshell 0.1.0");
    assert!(help_text("0.1.0").starts_with("gshell 0.1.0\n\nUsage:\n  gshell\n"));
    assert!(help_text("0.1.0").contains("Reads ~/.gshrc when present."));
    assert_eq!(missing_command_message(), "gshell: missing command for -c\n\nRun `gshell --help` for usage.");
    assert_eq!(unsupported_message("-x"), "gshell: unsupported arguments: -x\n\nRun `gshell --help` for usage.");
}

#[test]
fn assignment_prefix_is_undone_after_the_command() {
    let env = vec![("NAME".to_string(), "old".to_string()), ("PATH".to_string(), "/bin".to_string())];
    let mut state = ShellState::new(env, PathBuf::from("/"), PathBuf::from("/tmp/h"));
    let saved = apply_assignments(
        &mut state,
        &[("NAME".to_string(), "gencho".to_string()), ("NEW".to_string(), "1".to_string()), ("NAME".to_string(), "x".to_string())],
    );
    assert_eq!(state.env_var("NAME"), Some("x"));
    assert_eq!(state.env_var("NEW"), Some("1"));
    restore_assignments(&mut state, saved);
    assert_eq!(state.env_var("NAME"), Some("old"));
    assert_eq!(state.env_var("NEW"), None);
    assert_eq!(state.env().len(), 2);
}
