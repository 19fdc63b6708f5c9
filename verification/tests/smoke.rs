use std::path::PathBuf;

use gshell::ast::{CommandNode, ShellExpr, SimpleCommand};
use gshell::shell::{ExitCode, ShellState};

fn new_state() -> ShellState {
    ShellState::new(Vec::new(), PathBuf::from("/"), PathBuf::from("/tmp/gshell-smoke-history"))
}

#[test]
fn shell_state_initialization_defaults() {
    let state = new_state();

    assert_eq!(state.last_exit_status(), ExitCode::success());
    assert!(state.cwd().is_absolute());
    assert!(state.history().entries().is_empty());
    assert!(state.aliases().get("missing").is_none());
    assert!(state.functions().get("missing").is_none());
    assert!(state.jobs().is_empty());
}

#[test]
fn shell_state_environment_read_and_write() {
    let mut state = new_state();

    state.set_env_var("GSHELL_TEST_KEY", "value-1");
    assert_eq!(state.env_var("GSHELL_TEST_KEY"), Some("value-1"));

    state.set_env_var("GSHELL_TEST_KEY", "value-2");
    assert_eq!(state.env_var("GSHELL_TEST_KEY"), Some("value-2"));

    let removed = state.remove_env_var("GSHELL_TEST_KEY");
    assert_eq!(removed.as_deref(), Some("value-2"));
    assert_eq!(state.env_var("GSHELL_TEST_KEY"), None);
}

#[test]
fn alias_store_supports_set_get_remove_and_sorted_entries() {
    let mut state = new_state();

    state.aliases_mut().set("z", "echo z");
    state.aliases_mut().set("a", "echo a");

    assert_eq!(state.aliases().get("a"), Some("echo a"));
    assert_eq!(state.aliases().entries(), vec![("a", "echo a"), ("z", "echo z")]);

    assert_eq!(state.aliases_mut().remove("a"), Some("echo a".to_string()));
    assert!(state.aliases().get("a").is_none());
}

#[test]
fn function_store_supports_set_get_remove_and_sorted_names() {
    let mut state = new_state();
    let body = || ShellExpr::Command(CommandNode::Simple(SimpleCommand::new(Vec::new())));

    state.functions_mut().set("z", body());
    state.functions_mut().set("a", body());

    assert!(state.functions().get("a").is_some());
    assert_eq!(state.functions().names(), vec!["a".to_string(), "z".to_string()]);

    assert!(state.functions_mut().remove("a").is_some());
    assert!(state.functions().get("a").is_none());
}

#[test]
fn shell_state_last_exit_status_updates() {
    let mut state = new_state();

    assert_eq!(state.last_exit_status(), ExitCode::success());

    state.set_last_exit_status(ExitCode::new(42));
    assert_eq!(state.last_exit_status(), ExitCode::new(42));
}

#[test]
fn initial_environment_keeps_the_last_value_of_a_name_in_order() {
    let env = vec![
        ("B".to_string(), "1".to_string()),
        ("A".to_string(), "2".to_string()),
        ("B".to_string(), "3".to_string()),
    ];
    let state = ShellState::new(env, PathBuf::from("/"), PathBuf::from("/tmp/h"));
    assert_eq!(
        state.env(),
        &[("A".to_string(), "2".to_string()), ("B".to_string(), "3".to_string())]
    );
}

#[test]
fn function_depth_is_bounded() {
    let mut state = new_state();
    assert!(state.can_enter_function("f0"));
    state.enter_function("f0");
    assert!(!state.can_enter_function("f0"));
    for i in 1..64 {
        let name = format!("f{i}");
        assert!(state.can_enter_function(&name));
        state.enter_function(&name);
    }
    assert!(!state.can_enter_function("g"));
    state.exit_function();
    assert!(state.can_enter_function("g"));
}

#[test]
fn removing_a_new_alias_undoes_setting_it() {
    let mut state = new_state();
    state.aliases_mut().set("b", "two");
    state.aliases_mut().set("d", "four");
    let before: Vec<(String, String)> =
        state.aliases().entries().iter().map(|(n, v)| (n.to_string(), v.to_string())).collect();
    state.aliases_mut().set("c", "three");
    assert_eq!(state.aliases().get("c"), Some("three"));
    assert_eq!(state.aliases().get("b"), Some("two"));
    state.aliases_mut().remove("c");
    let after: Vec<(String, String)> =
        state.aliases().entries().iter().map(|(n, v)| (n.to_string(), v.to_string())).collect();
    assert_eq!(before, after);
}

#[test]
fn io_errors_are_described_with_their_prefix() {
    let err = gshell::shell::ShellError::Io(std::io::Error::new(std::io::ErrorKind::Other, "disk gone"));
    let text = err.describe();
    assert!(text.starts_with("io error: "));
    assert!(text.ends_with("disk gone"));
}
