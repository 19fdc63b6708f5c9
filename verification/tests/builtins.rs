use std::path::PathBuf;

use gshell::ast::{CommandNode, ShellExpr, SimpleCommand};
use gshell::builtins::jobs::{format_job, format_job_state, resolve_job_id, KillStep};
use gshell::builtins::{
    is_default_builtin, AliasBuiltin, BgBuiltin, CdBuiltin, ClearBuiltin, EchoBuiltin,
    ExitBuiltin, ExportBuiltin, FgBuiltin, HistoryBuiltin, JobsBuiltin, KillBuiltin, PwdBuiltin,
    SourceBuiltin, TypeBuiltin, UnaliasBuiltin,
};
use gshell::builtins::jobs::parse_kill_args;
use gshell::jobs::{JobDisposition, JobState, Jobs, ProcessRecord, ProcessState};
use gshell::shell::{AliasStore, CommandOutput, ExitCode, FunctionStore, ShellAction, ShellError, ShellState};

fn args(v: &[&str]) -> Vec<String> {
    v.iter().map(|s| s.to_string()).collect()
}

fn new_state() -> ShellState {
    ShellState::new(Vec::new(), PathBuf::from("/"), PathBuf::from("/tmp/gshell-builtins-history"))
}

#[test]
fn builtin_registry_lookup_works() {
    for name in [
        "cd", "exit", "clear", "alias", "type", "unalias", "echo", "pwd", "history", "jobs", "fg",
        "bg", "kill",
    ] {
        assert!(is_default_builtin(name), "{name}");
    }
    assert!(!is_default_builtin("missing"));
}

#[test]
fn jobs_builtin_lists_jobs() {
    let mut jobs = Jobs::new();
    let first = jobs.insert(4100, "sleep 10", JobDisposition::Background, vec![ProcessRecord::new(4100, "sleep 10")]);
    let second = jobs.insert(
        4200,
        "printf hi | cat",
        JobDisposition::Background,
        vec![ProcessRecord::new(4201, "printf hi"), ProcessRecord::new(4202, "cat")],
    );
    let _ = jobs.update_process_state(second, 4201, ProcessState::Stopped);
    let _ = jobs.update_process_state(first, 4100, ProcessState::Completed(0));
    let _third = jobs.insert(4300, "sleep 30", JobDisposition::Foreground, vec![ProcessRecord::new(4300, "sleep 30")]);

    let output = JobsBuiltin.run(&jobs, &[]);
    assert_eq!(output.exit_code, ExitCode::success());
    assert_eq!(output.stdout, "[2] Stopped printf hi | cat\n");
    let output = JobsBuiltin.run(&jobs, &args(&["-l"]));
    assert_eq!(output.stderr, "jobs: expected no arguments\n");
}

#[test]
fn fg_builtin_rejects_invalid_job_ids() {
    match resolve_job_id(&args(&["%abc"]), "fg", None) {
        Err(output) => {
            assert_eq!(output.exit_code, ExitCode::failure());
            assert_eq!(output.stderr, "fg: invalid job id: %abc\n");
        }
        Ok(id) => panic!("unexpected job {id}"),
    }
    let id = resolve_job_id(&args(&["%1"]), "fg", None).expect("a well-formed id");
    let output = FgBuiltin.report(id, None);
    assert_eq!(output.exit_code, ExitCode::failure());
    assert_eq!(output.stderr, "fg: no such job: %1\n");
}

#[test]
fn bg_builtin_rejects_missing_current_job() {
    match resolve_job_id(&[], "bg", None) {
        Err(output) => {
            assert_eq!(output.exit_code, ExitCode::failure());
            assert_eq!(output.stderr, "bg: no current job\n");
        }
        Ok(id) => panic!("unexpected job {id}"),
    }
    assert_eq!(resolve_job_id(&[], "bg", Some(4)).ok(), Some(4));
    match resolve_job_id(&args(&["1", "2"]), "bg", None) {
        Err(output) => assert_eq!(output.stderr, "bg: expected at most one job id\n"),
        Ok(id) => panic!("unexpected job {id}"),
    }
}

#[test]
fn bg_report_shows_the_job_or_passes_a_failure_on() {
    let mut jobs = Jobs::new();
    let id = jobs.insert(50, "sleep 1", JobDisposition::Background, vec![ProcessRecord::new(50, "sleep 1")]);
    let summary = BgBuiltin.summary_of(&jobs, id);
    assert_eq!(summary, "sleep 1");
    assert_eq!(BgBuiltin.summary_of(&jobs, 99), "");
    let ok = BgBuiltin.report(id, &summary, Some(CommandOutput::success()));
    assert_eq!(ok.stdout, format!("[{id}] sleep 1\n"));
    let failed = CommandOutput::failure(ExitCode::new(1), "bg: boom\n".to_string());
    assert_eq!(BgBuiltin.report(id, &summary, Some(failed.clone())), failed);
    assert_eq!(BgBuiltin.report(7, "", None).stderr, "bg: no such job: %7\n");
    let fg_out = CommandOutput { exit_code: ExitCode::new(0), stdout: "sleep 1\n".to_string(), stderr: String::new() };
    assert_eq!(FgBuiltin.report(id, Some(fg_out.clone())), fg_out);
}

#[test]
fn kill_builtin_requires_at_least_one_target() {
    match parse_kill_args(&[]) {
        Err(message) => assert_eq!(format!("kill: {message}\n"), "kill: usage: kill [-SIGNAL] <pid|%job>...\n"),
        Ok(_) => panic!("kill needs a target"),
    }
    assert!(parse_kill_args(&args(&["-KILL"])).is_err());
    assert_eq!(parse_kill_args(&args(&["-NOPE", "1"])), Err("unsupported signal: NOPE".to_string()));
}

#[test]
fn kill_builtin_rejects_invalid_job_ids() {
    let jobs = Jobs::new();
    match KillBuiltin.plan(&jobs, "%abc") {
        KillStep::Report(line) => assert_eq!(line, "kill: invalid job id: %abc\n"),
        other => panic!("unexpected {:?}", other),
    }
    match KillBuiltin.plan(&jobs, "%1") {
        KillStep::Report(line) => assert_eq!(line, "kill: no such job: %1\n"),
        other => panic!("unexpected {:?}", other),
    }
    let output = KillBuiltin.finish("kill: no such job: %1\n".to_string());
    assert_eq!(output.exit_code, ExitCode::failure());
}

#[test]
fn kill_plans_signals_for_jobs_and_pids() {
    let mut jobs = Jobs::new();
    let id = jobs.insert(900, "sleep 9", JobDisposition::Background, vec![ProcessRecord::new(900, "sleep 9")]);
    assert!(matches!(KillBuiltin.plan(&jobs, "%1"), KillStep::SignalGroup { job_id, pgid: 900 } if job_id == id));
    assert!(matches!(KillBuiltin.plan(&jobs, "123"), KillStep::SignalProcess { pid: 123 }));
    match KillBuiltin.plan(&jobs, "12x") {
        KillStep::Report(line) => assert_eq!(line, "kill: invalid pid: 12x\n"),
        other => panic!("unexpected {:?}", other),
    }
    assert_eq!(KillBuiltin.finish(String::new()), CommandOutput::success());
}

#[test]
fn job_lines_and_states_are_formatted() {
    assert_eq!(format_job_state(JobState::Running), "Running");
    assert_eq!(format_job_state(JobState::Stopped), "Stopped");
    assert_eq!(format_job_state(JobState::Completed), "Done");
    assert_eq!(format_job(3, JobState::Running, "sleep 5"), "[3] Running sleep 5\n");
}

#[test]
fn alias_builtin_sets_and_lists_aliases() {
    let mut aliases = AliasStore::new();
    let output = AliasBuiltin.run(&mut aliases, &args(&["ll=echo hello"]));
    assert_eq!(output.exit_code, ExitCode::success());
    assert!(output.stdout.is_empty());
    assert_eq!(aliases.get("ll"), Some("echo hello"));

    let output = AliasBuiltin.run(&mut aliases, &[]);
    assert_eq!(output.exit_code, ExitCode::success());
    assert_eq!(output.stdout, "alias ll='echo hello'\n");
}

#[test]
fn alias_builtin_reports_bad_names_and_unknown_aliases() {
    let mut aliases = AliasStore::new();
    let output = AliasBuiltin.run(&mut aliases, &args(&["q=it's", "bad name=x", "missing", "q"]));
    assert_eq!(output.exit_code, ExitCode::failure());
    assert_eq!(output.stdout, "alias q='it'\\''s'\n");
    assert_eq!(output.stderr, "alias: invalid alias name: bad name\nalias: missing: not found\n");
}

#[test]
fn unalias_builtin_removes_existing_alias() {
    let mut aliases = AliasStore::new();
    aliases.set("ll", "echo hello");
    let output = UnaliasBuiltin.run(&mut aliases, &args(&["ll"]));
    assert_eq!(output.exit_code, ExitCode::success());
    assert!(aliases.get("ll").is_none());
    let output = UnaliasBuiltin.run(&mut aliases, &args(&["ll"]));
    assert_eq!(output.exit_code, ExitCode::failure());
    assert_eq!(output.stderr, "unalias: ll: not found\n");
}

#[test]
fn echo_builtin_outputs_joined_args() {
    let output = EchoBuiltin.run(&args(&["hello", "world"]));
    assert_eq!(output.exit_code, ExitCode::success());
    assert_eq!(output.stdout, "hello world\n");
    assert_eq!(EchoBuiltin.run(&[]).stdout, "\n");
}

#[test]
fn pwd_builtin_outputs_current_directory() {
    let output = PwdBuiltin.run("/tmp/work");
    assert_eq!(output.exit_code, ExitCode::success());
    assert_eq!(output.stdout, "/tmp/work\n");
}

#[test]
fn clear_builtin_emits_escape_sequence() {
    let output = ClearBuiltin.run();
    assert_eq!(output.exit_code, ExitCode::success());
    assert_eq!(output.stdout, "\x1B[2J\x1B[H");
}

#[test]
fn cd_builtin_rejects_too_many_arguments() {
    match CdBuiltin.target(&args(&["a", "b"]), Some("/home/u")) {
        Ok(Err(output)) => {
            assert_eq!(output.exit_code, ExitCode::failure());
            assert!(output.stderr.contains("too many arguments"));
        }
        _ => panic!("cd should refuse two arguments"),
    }
}

#[test]
fn cd_builtin_targets_home_or_its_argument() {
    assert!(matches!(CdBuiltin.target(&[], Some("/home/u")), Ok(Ok(t)) if t == "/home/u"));
    assert!(matches!(CdBuiltin.target(&args(&["/tmp"]), None), Ok(Ok(t)) if t == "/tmp"));
    assert!(matches!(CdBuiltin.target(&[], None), Err(ShellError::Message(m)) if m == "cd: HOME not set"));
}

#[test]
fn type_builtin_reports_builtin() {
    let output = TypeBuiltin.run(&AliasStore::new(), &FunctionStore::new(), &args(&["echo"]));
    assert_eq!(output.exit_code, ExitCode::success());
    assert!(output.stdout.contains("echo is a shell builtin"));
}

#[test]
fn type_builtin_reports_alias() {
    let mut aliases = AliasStore::new();
    aliases.set("ll", "echo hello");
    let output = TypeBuiltin.run(&aliases, &FunctionStore::new(), &args(&["ll"]));
    assert_eq!(output.exit_code, ExitCode::success());
    assert!(output.stdout.contains("ll is aliased to `echo hello`"));
}

#[test]
fn type_builtin_reports_function() {
    let mut functions = FunctionStore::new();
    functions.set("greet", ShellExpr::Command(CommandNode::Simple(SimpleCommand::new(Vec::new()))));
    let output = TypeBuiltin.run(&AliasStore::new(), &functions, &args(&["greet"]));
    assert_eq!(output.exit_code, ExitCode::success());
    assert!(output.stdout.contains("greet is a shell function"));
}

#[test]
fn type_builtin_fails_for_unknown_command() {
    let output = TypeBuiltin.run(&AliasStore::new(), &FunctionStore::new(), &args(&["nope"]));
    assert_eq!(output.exit_code, ExitCode::failure());
    assert!(output.stderr.contains("not found"));
    let output = TypeBuiltin.run(&AliasStore::new(), &FunctionStore::new(), &[]);
    assert_eq!(output.stderr, "type: expected exactly one argument\n");
}

#[test]
fn exit_builtin_requests_shell_exit() {
    assert_eq!(ExitBuiltin.run(&args(&["42"])), ShellAction::Exit(ExitCode::new(42)));
    assert_eq!(ExitBuiltin.run(&[]), ShellAction::Exit(ExitCode::new(0)));
    match ExitBuiltin.run(&args(&["256"])) {
        ShellAction::Continue(o) => assert_eq!(o.stderr, "exit: numeric argument required: 256\n"),
        other => panic!("unexpected {:?}", other),
    }
    match ExitBuiltin.run(&args(&["1", "2"])) {
        ShellAction::Continue(o) => assert_eq!(o.stderr, "exit: too many arguments\n"),
        other => panic!("unexpected {:?}", other),
    }
}

#[test]
fn builtins_history_builtin_outputs_entries() {
    let mut state = new_state();
    state.history_mut().push("echo hello");
    state.history_mut().push("history");
    let output = HistoryBuiltin.run(state.history());
    assert_eq!(output.exit_code, ExitCode::success());
    assert!(output.stdout.contains("echo hello"));
    assert!(output.stdout.contains("history"));
    assert_eq!(output.stdout, "    1 echo hello\n    2 history\n");
}

#[test]
fn export_builtin_sets_lists_and_rejects_bad_names() {
    let mut state = new_state();
    let output = ExportBuiltin.run(&mut state, &args(&["NAME=va\"l", "EMPTY", "1BAD=x"]));
    assert_eq!(output.exit_code, ExitCode::failure());
    assert_eq!(output.stderr, "export: invalid variable name: 1BAD\n");
    assert_eq!(state.env_var("NAME"), Some("va\"l"));
    assert_eq!(state.env_var("EMPTY"), Some(""));
    let listing = ExportBuiltin.run(&mut state, &[]);
    assert_eq!(listing.stdout, "export EMPTY=\"\"\nexport NAME=\"va\\\"l\"\n");
}

#[test]
fn source_builtin_needs_exactly_one_path() {
    let one = args(&["rc.sh"]);
    assert_eq!(SourceBuiltin.path(&one).ok(), Some(&one[0]));
    assert_eq!(SourceBuiltin.path(&[]).unwrap_err().stderr, "source: usage: source <path>\n");
    assert_eq!(SourceBuiltin.path(&args(&["a", "b"])).unwrap_err().stderr, "source: too many arguments\n");
}
