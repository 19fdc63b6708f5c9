use std::path::PathBuf;

use gshell::history::{history_file_location, should_record_history_entry, HistoryConfig};
use gshell::shell::{HistoryState, ShellError};

#[test]
fn history_path_resolution_produces_history_txt() {
    let path = history_file_location(Some("/home/u/.data"), Some("/home/u"))
        .expect("history path should resolve");
    assert!(path.ends_with("gshell/history.txt"));
    assert_eq!(path, "/home/u/.data/gshell/history.txt");
}

#[test]
fn history_path_falls_back_to_home_and_fails_without_it() {
    assert_eq!(
        history_file_location(None, Some("/home/u/")).unwrap(),
        "/home/u/.local/share/gshell/history.txt"
    );
    assert_eq!(history_file_location(Some(""), None).unwrap(), "gshell/history.txt");
    match history_file_location(None, None) {
        Err(ShellError::Message(m)) => {
            assert_eq!(m, "HOME is not set and XDG_DATA_HOME is unavailable")
        }
        other => panic!("unexpected {:?}", other),
    }
}

#[test]
fn blank_command_filtering_skips_empty_entries() {
    assert!(!should_record_history_entry(""));
    assert!(!should_record_history_entry("   "));
    assert!(should_record_history_entry("ls"));
    assert!(should_record_history_entry(" history "));
}

#[test]
fn history_state_stores_entries() {
    let mut history = HistoryState::new(PathBuf::from("/tmp/gshell-history-test"));
    history.push("echo hello");
    history.push("history");

    assert_eq!(history.entries(), &["echo hello".to_string(), "history".to_string()]);
}

#[test]
fn history_config_keeps_its_path() {
    let config = HistoryConfig::new(PathBuf::from("/tmp/h.txt"));
    assert_eq!(config.path(), &PathBuf::from("/tmp/h.txt"));
}
