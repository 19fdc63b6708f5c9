use gshell::completion::absolutize_path;
use gshell::completion::{
    command_candidates, completion_context, env_candidates, expand_tilde, path_candidates,
    replace_base_of, CompletionKind, ShellHinter,
};

#[test]
fn context_finds_the_word_at_the_cursor_and_its_kind() {
    let c = completion_context("ls | gre", 8);
    assert_eq!((c.kind, c.token.as_str(), c.start, c.end), (CompletionKind::Command, "gre", 5, 8));
    let c = completion_context("echo $HO", 100);
    assert_eq!((c.kind, c.token.as_str(), c.start, c.end), (CompletionKind::EnvVar, "$HO", 5, 8));
    let c = completion_context("cat ./sr", 8);
    assert_eq!(c.kind, CompletionKind::Path);
    let c = completion_context("echo hi > ou", 12);
    assert_eq!((c.kind, c.token.as_str()), (CompletionKind::Path, "ou"));
    let c = completion_context("true && ec", 10);
    assert_eq!(c.kind, CompletionKind::Command);
    let c = completion_context("echo fil", 8);
    assert_eq!(c.kind, CompletionKind::Path);
    let c = completion_context("", 0);
    assert_eq!((c.kind, c.token.as_str(), c.start, c.end), (CompletionKind::Command, "", 0, 0));
}

#[test]
fn command_candidates_are_sorted_and_unique() {
    let found = vec!["echo".to_string(), "ed".to_string(), "eject".to_string(), "ls".to_string()];
    assert_eq!(
        command_candidates("e", &found),
        vec!["echo".to_string(), "ed".to_string(), "eject".to_string(), "exit".to_string()]
    );
    let all = command_candidates("", &[]);
    assert_eq!(
        all,
        vec![
            "alias", "bg", "cd", "clear", "echo", "exit", "fg", "history", "jobs", "kill", "pwd",
            "type", "unalias"
        ]
    );
}

#[test]
fn env_candidates_prefix_dollar_names() {
    let env = vec![
        ("HOME".to_string(), "/h".to_string()),
        ("HOSTNAME".to_string(), "x".to_string()),
        ("PATH".to_string(), "/bin".to_string()),
    ];
    assert_eq!(env_candidates("$HO", &env), vec!["$HOME".to_string(), "$HOSTNAME".to_string()]);
    assert_eq!(env_candidates("P", &env), vec!["$PATH".to_string()]);
    assert!(env_candidates("$Z", &env).is_empty());
}

#[test]
fn path_candidates_keep_the_typed_base_and_mark_directories() {
    let entries = vec![
        ("src".to_string(), true),
        ("setup.py".to_string(), false),
        ("README".to_string(), false),
    ];
    assert_eq!(
        path_candidates("s", "./", &entries),
        vec!["./setup.py".to_string(), "./src/".to_string()]
    );
    assert_eq!(replace_base_of("a/b/c"), "a/b/");
    assert_eq!(replace_base_of("abc"), "");
    assert_eq!(replace_base_of("/x"), "/");
}

#[test]
fn tilde_is_expanded_only_at_the_start_of_a_path() {
    assert_eq!(expand_tilde("~", Some("/home/u")), "/home/u");
    assert_eq!(expand_tilde("~/docs", Some("/home/u")), "/home/u/docs");
    assert_eq!(expand_tilde("~user", Some("/home/u")), "~user");
    assert_eq!(expand_tilde("~/docs", None), "~/docs");
}

#[test]
fn hinter_returns_the_rest_of_a_history_entry() {
    let mut h = ShellHinter::new();
    assert_eq!(h.handle("git st", true, Some("git status --short")), "atus --short");
    assert_eq!(h.complete_hint(), "atus --short");
    assert_eq!(h.next_hint_token(), "atus");
    assert_eq!(h.handle("git st", false, Some("git status")), "");
    assert_eq!(h.complete_hint(), "");
    assert_eq!(h.handle("   ", true, Some("   x")), "");
    assert_eq!(h.handle("ls", true, Some("ls")), "");
    assert_eq!(h.handle("ls", true, None), "");
}

#[test]
fn typed_paths_are_read_from_the_working_directory() {
    assert_eq!(absolutize_path("/home/u", "src"), "/home/u/src");
    assert_eq!(absolutize_path("/home/u/", "src/lib"), "/home/u/src/lib");
    assert_eq!(absolutize_path("/home/u", "/etc"), "/etc");
    assert_eq!(absolutize_path("", "src"), "src");
    assert_eq!(absolutize_path("/home/u", ""), "/home/u/");
}
