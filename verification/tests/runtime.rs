use gshell::ast::{BoolOp, RedirectionKind};
use gshell::expand::{QuoteKind, Word, WordSegment};
use gshell::jobs::ProcessState;
use gshell::parser::{ParsedCommand, Parser};
use gshell::ast::{CommandNode, ShellExpr, SimpleCommand};
use gshell::runtime::{
    build_redirection_plan, classify_command, command_not_found, merge_outputs,
    process_state_from_exit, process_state_from_wait_status, recursion_detected,
    redirection_fd, resolve_aliases, should_run_next, summarize_command, summarize_pipeline,
    BootstrapExecutor, CommandKind, ExpandedRedirection, InputRedirection, OutputRedirection,
    WaitStatus,
};
use gshell::shell::{AliasStore, CommandOutput, ExitCode, FunctionStore, ShellAction, ShellError};

fn simple_of(line: &str) -> SimpleCommand {
    match Parser::default().parse(line).expect("parse") {
        ParsedCommand::Expr(ShellExpr::Command(CommandNode::Simple(s))) => s,
        other => panic!("not a simple command: {:?}", other),
    }
}

fn argv_text(s: &SimpleCommand) -> Vec<String> {
    s.argv.iter().map(|w| w.quote_removed_text()).collect()
}

#[test]
fn alias_expands_in_command_position() {
    let mut aliases = AliasStore::new();
    aliases.set("ll", "echo hello");
    let resolved = resolve_aliases(&aliases, &simple_of("ll world")).expect("resolves");
    assert_eq!(argv_text(&resolved), vec!["echo", "hello", "world"]);
}

#[test]
fn alias_recursion_stops_without_looping_forever() {
    let mut aliases = AliasStore::new();
    aliases.set("a", "b");
    aliases.set("b", "a");
    let resolved = resolve_aliases(&aliases, &simple_of("a")).expect("resolves");
    assert_eq!(argv_text(&resolved), vec!["a"]);
    assert_eq!(command_not_found("a").stderr, "command not found: a\n");
}

#[test]
fn quoted_command_name_does_not_trigger_alias_expansion() {
    let mut aliases = AliasStore::new();
    aliases.set("ll", "echo hello");
    let resolved = resolve_aliases(&aliases, &simple_of("'ll' world")).expect("resolves");
    assert_eq!(argv_text(&resolved), vec!["ll", "world"]);
    assert_eq!(resolved.argv[0].segments[0], WordSegment::Literal { text: "ll".into(), quote: QuoteKind::SingleQuoted });
}

#[test]
fn quoted_arguments_inside_alias_are_preserved() {
    let mut aliases = AliasStore::new();
    aliases.set("say", "echo \"hello world\"");
    let resolved = resolve_aliases(&aliases, &simple_of("say")).expect("resolves");
    assert_eq!(argv_text(&resolved), vec!["echo", "hello world"]);
}

#[test]
fn wait_statuses_become_process_states_and_codes() {
    assert_eq!(process_state_from_wait_status(WaitStatus::Exited(3)), (ProcessState::Completed(3), ExitCode::new(3)));
    assert_eq!(process_state_from_wait_status(WaitStatus::Exited(300)), (ProcessState::Completed(255), ExitCode::new(255)));
    assert_eq!(process_state_from_wait_status(WaitStatus::Signaled(9)), (ProcessState::Completed(137), ExitCode::new(137)));
    assert_eq!(process_state_from_wait_status(WaitStatus::Stopped(19)), (ProcessState::Stopped, ExitCode::new(147)));
    assert_eq!(process_state_from_exit(Some(-1), None), ProcessState::Completed(0));
    assert_eq!(process_state_from_exit(None, Some(15)), ProcessState::Completed(143));
    assert_eq!(process_state_from_exit(None, None), ProcessState::Completed(129));
}

#[test]
fn boolean_chains_run_on_status() {
    assert!(should_run_next(BoolOp::And, ExitCode::new(0)));
    assert!(!should_run_next(BoolOp::And, ExitCode::new(1)));
    assert!(should_run_next(BoolOp::Or, ExitCode::new(2)));
    assert!(!should_run_next(BoolOp::Or, ExitCode::new(0)));
}

#[test]
fn outputs_merge_and_summaries_read_like_the_command() {
    let a = CommandOutput { exit_code: ExitCode::new(0), stdout: "a\n".into(), stderr: "x".into() };
    let b = CommandOutput { exit_code: ExitCode::new(4), stdout: "b\n".into(), stderr: "y".into() };
    let m = merge_outputs(a, b);
    assert_eq!((m.stdout.as_str(), m.stderr.as_str(), m.exit_code), ("a\nb\n", "xy", ExitCode::new(4)));
    assert_eq!(summarize_command("sleep", &["1".to_string()]), "sleep 1");
    let pipeline = match Parser::default().parse("printf hi | cat").unwrap() {
        ParsedCommand::Expr(ShellExpr::Pipeline(cmds)) => cmds,
        other => panic!("{:?}", other),
    };
    assert_eq!(summarize_pipeline(&pipeline), "printf hi | cat");
}

#[test]
fn commands_are_classified_function_then_builtin_then_program() {
    let mut functions = FunctionStore::new();
    functions.set("echo", ShellExpr::Command(CommandNode::Simple(SimpleCommand::new(Vec::new()))));
    assert_eq!(classify_command("echo", &functions), CommandKind::Function);
    assert_eq!(classify_command("pwd", &functions), CommandKind::Builtin);
    assert_eq!(classify_command("ls", &functions), CommandKind::External);
    assert_eq!(recursion_detected("f").stderr, "function recursion detected: f\n");
}

#[test]
fn redirections_plan_where_streams_go() {
    let plan = build_redirection_plan(&[
        ExpandedRedirection { fd: None, kind: RedirectionKind::OutputTruncate, target: Some("out".into()) },
        ExpandedRedirection { fd: Some(2), kind: RedirectionKind::OutputAppend, target: Some("err".into()) },
        ExpandedRedirection { fd: None, kind: RedirectionKind::Input, target: Some("in".into()) },
    ])
    .expect("plan");
    assert_eq!(plan.stdin, Some(InputRedirection::File("in".into())));
    assert_eq!(plan.stdout, Some(OutputRedirection { path: "out".into(), append: false }));
    assert_eq!(plan.stderr, Some(OutputRedirection { path: "err".into(), append: true }));
    assert!(matches!(redirection_fd(Some(300)), Err(ShellError::Message(m)) if m == "unsupported redirection fd: 300"));
    assert_eq!(redirection_fd(Some(2)).ok(), Some(Some(2)));
}

#[test]
fn empty_command_succeeds_silently() {
    match BootstrapExecutor::new().execute_empty() {
        ShellAction::Continue(o) => assert_eq!(o, CommandOutput::success()),
        other => panic!("{:?}", other),
    }
    let _ = Word::literal("x");
}
