//! The executor's decisions: what a wait status means for a job, how
//! outputs combine, where redirections send the streams, which commands
//! of a chain run, what a command name refers to, how aliases rewrite a
//! command, and what the job table records as processes start, stop and
//! end. Spawning, waiting and signalling are left to the binary.
use vstd::prelude::*;
use vstd::string::StringExecFns;

use crate::ast::{
    copy_simple, redirections_view, words_view, BoolOp, CommandNode, ExprV, KindV, NodeV,
    RedirectionKind, RedirV, ShellExpr, SimpleCommand, SimpleV,
};
use crate::builtins::type_builtin::{default_builtin_names, is_default_builtin};
use crate::expand::{
    decimal, decimal_chars, spec_quote_removed, spec_var_start, unquoted_literal, QuoteKind, SegV,
    Word, WordSegment,
};
use crate::lexer::{
    flush_literal, flushed, lex_message, name_end, read_command_substitution, scan_name_end,
    segs_view, subst_source, LexError,
};
use crate::parser::invalid;
use crate::jobs::{
    job_has_pid, job_state_of, next_job_id, procs_view, spec_add_process, spec_insert,
    spec_set_disposition, spec_set_unfinished, spec_update_process_state, JobDisposition, JobId,
    JobState, JobsV, Jobs, ProcV, ProcessRecord, ProcessState,
};
use crate::parser::{spec_parse, ParsedCommand, ParsedV, Parser};
use crate::shell::state::{strings_view, AliasStore, FunctionStore};
use crate::shell::{CommandOutput, ExitCode, ShellAction, ShellError, ShellResult};
use crate::table::{find_name, lemma_find_name, lemma_lex_irreflexive, lex_lt, sorted_names, table_get};
use crate::text::{chars_of, string_from_chars};

verus! {

/// How a foreground process ended or paused.
#[derive(Debug, Clone, Copy, PartialEq, Eq, Structural)]
pub enum WaitStatus {
    Exited(i32),
    Signaled(i32),
    Stopped(i32),
}

/// A change in a background process, as a non-blocking wait reports it.
#[derive(Debug, Clone, Copy, PartialEq, Eq, Structural)]
pub enum PolledStatus {
    Exited { pid: u32, code: i32 },
    Signaled { pid: u32, signal: i32 },
    Stopped { pid: u32, signal: i32 },
    Continued { pid: u32 },
}

/// The status of a process killed or stopped by `signal`: 128 plus the
/// signal, kept within 1 to 255.
pub open spec fn signal_code(signal: i32) -> u8 {
    let v = 128 + signal;
    if v < 1 {
        1
    } else if v > 255 {
        255
    } else {
        v as u8
    }
}

pub fn signal_exit_code(signal: i32) -> (r: ExitCode)
    ensures
        r.0 == signal_code(signal),
{
    let v: i32 = if signal > i32::MAX - 128 {
        i32::MAX
    } else {
        128 + signal
    };
    if v < 1 {
        ExitCode(1)
    } else if v > 255 {
        ExitCode(255)
    } else {
        ExitCode(v as u8)
    }
}

/// An exit code kept within 0 to 255.
pub open spec fn clamp_code(code: i32) -> u8 {
    if code < 0 {
        0
    } else if code > 255 {
        255
    } else {
        code as u8
    }
}

/// What a wait status means: the process's new state and the status the
/// shell records.
pub open spec fn wait_outcome(status: WaitStatus) -> (ProcessState, u8) {
    match status {
        WaitStatus::Exited(code) => (ProcessState::Completed(clamp_code(code) as i32), clamp_code(code)),
        WaitStatus::Signaled(signal) => (
            ProcessState::Completed(signal_code(signal) as i32),
            signal_code(signal),
        ),
        WaitStatus::Stopped(signal) => (ProcessState::Stopped, signal_code(signal)),
    }
}

pub fn process_state_from_wait_status(status: WaitStatus) -> (r: (ProcessState, ExitCode))
    ensures
        (r.0, r.1.0) == wait_outcome(status),
{
    match status {
        WaitStatus::Exited(code) => {
            let c: u8 = if code < 0 {
                0
            } else if code > 255 {
                255
            } else {
                code as u8
            };
            (ProcessState::Completed(c as i32), ExitCode(c))
        },
        WaitStatus::Signaled(signal) => {
            let code = signal_exit_code(signal);
            (ProcessState::Completed(code.0 as i32), code)
        },
        WaitStatus::Stopped(signal) => (ProcessState::Stopped, signal_exit_code(signal)),
    }
}

/// The state of a process that has ended: its exit code kept within 0 to
/// 255, or, when a signal ended it, the status for that signal (signal 1
/// when none is known).
pub fn process_state_from_exit(code: Option<i32>, signal: Option<i32>) -> (r: ProcessState)
    ensures
        r == match code {
            Some(c) => ProcessState::Completed(clamp_code(c) as i32),
            None => ProcessState::Completed(
                signal_code(
                    match signal {
                        Some(s) => s,
                        None => 1,
                    },
                ) as i32,
            ),
        },
{
    match code {
        Some(c) => {
            let v: u8 = if c < 0 {
                0
            } else if c > 255 {
                255
            } else {
                c as u8
            };
            ProcessState::Completed(v as i32)
        },
        None => {
            let s = match signal {
                Some(s) => s,
                None => 1,
            };
            ProcessState::Completed(signal_exit_code(s).0 as i32)
        },
    }
}

/// Two outputs one after the other: the texts joined, the second status.
pub fn merge_outputs(left: CommandOutput, right: CommandOutput) -> (r: CommandOutput)
    ensures
        r.exit_code == right.exit_code,
        r.stdout@ == left.stdout@ + right.stdout@,
        r.stderr@ == left.stderr@ + right.stderr@,
{
    let mut left = left;
    left.stdout.append(right.stdout.as_str());
    left.stderr.append(right.stderr.as_str());
    left.exit_code = right.exit_code;
    left
}

/// Whether the command after `op` runs, given the status so far: `&&` on
/// success, `||` on failure.
pub open spec fn runs_after(op: BoolOp, status: ExitCode) -> bool {
    match op {
        BoolOp::And => status.0 == 0,
        BoolOp::Or => status.0 != 0,
    }
}

pub fn should_run_next(op: BoolOp, status: ExitCode) -> (b: bool)
    ensures
        b == runs_after(op, status),
{
    match op {
        BoolOp::And => status.is_success(),
        BoolOp::Or => status.is_failure(),
    }
}

/// The words joined with single spaces.
pub open spec fn join_spaced(ws: Seq<Seq<char>>) -> Seq<char> {
    crate::builtins::echo::join_spaced(ws)
}

/// A command as the job table shows it: the program and its arguments.
pub fn summarize_command(program: &str, args: &[String]) -> (r: String)
    ensures
        r@ == join_spaced(seq![program@] + strings_view(args@)),
{
    let ghost ws = seq![program@] + strings_view(args@);
    let mut out = program.to_string();
    let mut i: usize = 0;
    assert(ws.subrange(0, 1) =~= seq![program@]);
    while i < args.len()
        invariant
            0 <= i <= args@.len(),
            ws == seq![program@] + strings_view(args@),
            out@ == join_spaced(ws.subrange(0, i + 1)),
        decreases args@.len() - i,
    {
        out.append(" ");
        out.append(args[i].as_str());
        assert(ws.subrange(0, i + 2).drop_last() =~= ws.subrange(0, i + 1));
        assert(ws[i + 1] == args@[i as int]@);
        i += 1;
    }
    assert(ws.subrange(0, args@.len() as int + 1) =~= ws);
    out
}

/// How one command of a pipeline is shown.
pub open spec fn node_summary(n: NodeV) -> Seq<char> {
    match n {
        NodeV::Simple(s) => join_spaced(s.argv.map_values(|w: Seq<SegV>| spec_quote_removed(w))),
        NodeV::FunctionDef { name, .. } => name + "()"@,
        NodeV::Subshell(_) => "(subshell)"@,
    }
}

/// The texts joined with ` | `.
pub open spec fn join_piped(ts: Seq<Seq<char>>) -> Seq<char>
    decreases ts.len(),
{
    if ts.len() == 0 {
        Seq::empty()
    } else if ts.len() == 1 {
        ts[0]
    } else {
        join_piped(ts.drop_last()) + " | "@ + ts.last()
    }
}

fn simple_summary(simple: &SimpleCommand) -> (r: String)
    ensures
        r@ == join_spaced(simple.view().argv.map_values(|w: Seq<SegV>| spec_quote_removed(w))),
{
    let ghost ws = simple.view().argv.map_values(|w: Seq<SegV>| spec_quote_removed(w));
    let mut out = String::new();
    let mut i: usize = 0;
    while i < simple.argv.len()
        invariant
            0 <= i <= simple.argv@.len(),
            ws.len() == simple.argv@.len(),
            ws == simple.view().argv.map_values(|w: Seq<SegV>| spec_quote_removed(w)),
            out@ == join_spaced(ws.subrange(0, i as int)),
        decreases simple.argv@.len() - i,
    {
        if i > 0 {
            out.append(" ");
        }
        let t = simple.argv[i].quote_removed_text();
        out.append(t.as_str());
        assert(ws.subrange(0, i + 1).drop_last() =~= ws.subrange(0, i as int));
        assert(ws[i as int] == t@);
        i += 1;
    }
    assert(ws.subrange(0, ws.len() as int) =~= ws);
    out
}

/// A pipeline as the job table shows it: its commands joined with ` | `.
pub fn summarize_pipeline(commands: &[CommandNode]) -> (r: String)
    ensures
        r@ == join_piped(commands@.map_values(|n: CommandNode| node_summary(n.view()))),
{
    let ghost ts = commands@.map_values(|n: CommandNode| node_summary(n.view()));
    let mut out = String::new();
    let mut i: usize = 0;
    while i < commands.len()
        invariant
            0 <= i <= commands@.len(),
            ts == commands@.map_values(|n: CommandNode| node_summary(n.view())),
            out@ == join_piped(ts.subrange(0, i as int)),
        decreases commands@.len() - i,
    {
        if i > 0 {
            out.append(" | ");
        }
        let piece = match &commands[i] {
            CommandNode::Simple(simple) => simple_summary(simple),
            CommandNode::FunctionDef { name, .. } => {
                let mut p = name.clone();
                p.append("()");
                p
            },
            CommandNode::Subshell(_) => "(subshell)".to_string(),
        };
        assert(piece@ == ts[i as int]);
        assert(ts.subrange(0, i + 1).drop_last() =~= ts.subrange(0, i as int));
        out.append(piece.as_str());
        i += 1;
    }
    assert(ts.subrange(0, ts.len() as int) =~= ts);
    out
}

/// A redirection after expansion: the descriptor, the kind, and the
/// expanded target (none for a heredoc).
#[derive(Debug)]
pub struct ExpandedRedirection {
    pub fd: Option<u8>,
    pub kind: RedirectionKind,
    pub target: Option<String>,
}

impl ExpandedRedirection {
    /// The descriptor acted on: the one written, else 0 for input and
    /// heredocs and 1 for output.
    pub fn effective_fd(&self) -> (r: u8)
        ensures
            r == match self.fd {
                Some(fd) => fd,
                None => if self.kind is Input || self.kind is HereDoc {
                    0u8
                } else {
                    1u8
                },
            },
    {
        match (&self.fd, &self.kind) {
            (Some(fd), _) => *fd,
            (None, RedirectionKind::Input) => 0,
            (None, RedirectionKind::HereDoc { .. }) => 0,
            (None, _) => 1,
        }
    }
}

/// The descriptor a redirection names, as a byte; one above 255 is
/// refused.
pub fn redirection_fd(fd: Option<u32>) -> (r: ShellResult<Option<u8>>)
    ensures
        match fd {
            None => r matches Ok(None),
            Some(n) => if n <= 255 {
                r matches Ok(Some(b)) && b == n
            } else {
                r matches Err(ShellError::Message(m)) && m@ == "unsupported redirection fd: "@
                    + decimal(n as nat)
            },
        },
{
    match fd {
        None => Ok(None),
        Some(n) => {
            if n <= 255 {
                Ok(Some(n as u8))
            } else {
                let mut m = "unsupported redirection fd: ".to_string();
                let d = string_from_chars(decimal_chars(n as u64).as_slice());
                m.append(d.as_str());
                Err(ShellError::Message(m))
            }
        },
    }
}

/// Where standard input comes from.
#[derive(Debug, PartialEq, Eq)]
pub enum InputRedirection {
    File(String),
    /// A heredoc's text.
    Inline(String),
}

/// A file that an output stream goes to.
#[derive(Debug, PartialEq, Eq)]
pub struct OutputRedirection {
    pub path: String,
    pub append: bool,
}

/// Where the three standard streams go; `None` leaves a stream as it is.
#[derive(Debug, PartialEq, Eq)]
pub struct RedirectionPlan {
    pub stdin: Option<InputRedirection>,
    pub stdout: Option<OutputRedirection>,
    pub stderr: Option<OutputRedirection>,
}

/// The value of where a stream goes.
pub enum StreamV {
    Keep,
    File(Seq<char>),
    Inline(Seq<char>),
    Output { path: Seq<char>, append: bool },
}

pub open spec fn input_view(i: Option<InputRedirection>) -> StreamV {
    match i {
        None => StreamV::Keep,
        Some(InputRedirection::File(p)) => StreamV::File(p@),
        Some(InputRedirection::Inline(b)) => StreamV::Inline(b@),
    }
}

pub open spec fn output_view(o: Option<OutputRedirection>) -> StreamV {
    match o {
        None => StreamV::Keep,
        Some(r) => StreamV::Output { path: r.path@, append: r.append },
    }
}

/// The value of an expanded redirection: descriptor, kind, target text.
pub open spec fn expanded_view(r: ExpandedRedirection) -> (u8, KindV, Seq<char>) {
    (
        match r.fd {
            Some(fd) => fd,
            None => if r.kind is Input || r.kind is HereDoc {
                0u8
            } else {
                1u8
            },
        },
        r.kind.view(),
        match r.target {
            Some(t) => t@,
            None => Seq::empty(),
        },
    )
}

/// The plan after the redirections `rs`, in order, a later one for a
/// stream replacing an earlier one; or the message for the first one that
/// names a descriptor other than the one its kind may use.
pub open spec fn plan_spec(rs: Seq<(u8, KindV, Seq<char>)>) -> Result<(StreamV, StreamV, StreamV), Seq<char>>
    decreases rs.len(),
{
    if rs.len() == 0 {
        Ok((StreamV::Keep, StreamV::Keep, StreamV::Keep))
    } else {
        match plan_spec(rs.drop_last()) {
            Err(m) => Err(m),
            Ok((i, o, e)) => {
                let (fd, kind, target) = rs.last();
                match kind {
                    KindV::Input => if fd == 0 {
                        Ok((StreamV::File(target), o, e))
                    } else {
                        Err("unsupported input redirection fd: "@ + decimal(fd as nat))
                    },
                    KindV::HereDoc { body, .. } => if fd == 0 {
                        Ok((StreamV::Inline(body), o, e))
                    } else {
                        Err("unsupported redirection fd: "@ + decimal(fd as nat))
                    },
                    KindV::OutputTruncate => if fd == 1 {
                        Ok((i, StreamV::Output { path: target, append: false }, e))
                    } else if fd == 2 {
                        Ok((i, o, StreamV::Output { path: target, append: false }))
                    } else {
                        Err("unsupported redirection fd: "@ + decimal(fd as nat))
                    },
                    KindV::OutputAppend => if fd == 1 {
                        Ok((i, StreamV::Output { path: target, append: true }, e))
                    } else if fd == 2 {
                        Ok((i, o, StreamV::Output { path: target, append: true }))
                    } else {
                        Err("unsupported redirection fd: "@ + decimal(fd as nat))
                    },
                }
            },
        }
    }
}

/// Whether a redirection kind writes a stream.
pub open spec fn writes_output(k: KindV) -> bool {
    k is OutputTruncate || k is OutputAppend
}

/// The planned target of output descriptor `fd` (1 or 2).
pub open spec fn planned_output(p: (StreamV, StreamV, StreamV), fd: u8) -> StreamV {
    if fd == 1 {
        p.1
    } else {
        p.2
    }
}

/// Where an output descriptor goes is decided by the last redirection
/// that writes it: its file, appended to exactly when that redirection
/// is `>>`; with none, the stream is kept.
pub proof fn law_output_goes_to_last_writer(rs: Seq<(u8, KindV, Seq<char>)>, fd: u8)
    requires
        plan_spec(rs) is Ok,
        fd == 1 || fd == 2,
    ensures
        (forall|m: int| 0 <= m < rs.len() ==> !(rs[m].0 == fd && writes_output(#[trigger] rs[m].1)))
            ==> planned_output(plan_spec(rs)->Ok_0, fd) == StreamV::Keep,
        forall|k: int|
            0 <= k < rs.len() && rs[k].0 == fd && writes_output(rs[k].1) && (forall|m: int|
                k < m < rs.len() ==> !(rs[m].0 == fd && writes_output(#[trigger] rs[m].1)))
                ==> planned_output(plan_spec(rs)->Ok_0, fd) == (StreamV::Output {
                path: #[trigger] rs[k].2,
                append: rs[k].1 is OutputAppend,
            }),
    decreases rs.len(),
{
    if rs.len() > 0 {
        let init = rs.drop_last();
        assert(plan_spec(init) is Ok);
        law_output_goes_to_last_writer(init, fd);
        let n = rs.len() - 1;
        let last = rs[n];
        assert(rs.last() == last);
        assert forall|m: int| 0 <= m < init.len() implies init[m] == rs[m] by {}
        if !(last.0 == fd && writes_output(last.1)) {
            // The last one leaves this descriptor as it was.
            assert(planned_output(plan_spec(rs)->Ok_0, fd) == planned_output(
                plan_spec(init)->Ok_0,
                fd,
            ));
            assert forall|k: int|
                0 <= k < rs.len() && rs[k].0 == fd && writes_output(rs[k].1) && (forall|m: int|
                    k < m < rs.len() ==> !(rs[m].0 == fd && writes_output(#[trigger] rs[m].1)))
                    implies planned_output(plan_spec(rs)->Ok_0, fd) == (StreamV::Output {
                    path: #[trigger] rs[k].2,
                    append: rs[k].1 is OutputAppend,
                }) by {
                assert(k < n);
                assert(init[k] == rs[k]);
                assert forall|m: int| k < m < init.len() implies !(init[m].0 == fd && writes_output(
                    #[trigger] init[m].1,
                )) by {
                    assert(init[m] == rs[m]);
                }
            }
            if forall|m: int| 0 <= m < rs.len() ==> !(rs[m].0 == fd && writes_output(#[trigger] rs[m].1)) {
                assert forall|m: int| 0 <= m < init.len() implies !(init[m].0 == fd && writes_output(
                    #[trigger] init[m].1,
                )) by {
                    assert(init[m] == rs[m]);
                }
            }
        } else {
            assert forall|k: int|
                0 <= k < rs.len() && rs[k].0 == fd && writes_output(rs[k].1) && (forall|m: int|
                    k < m < rs.len() ==> !(rs[m].0 == fd && writes_output(#[trigger] rs[m].1)))
                    implies planned_output(plan_spec(rs)->Ok_0, fd) == (StreamV::Output {
                    path: #[trigger] rs[k].2,
                    append: rs[k].1 is OutputAppend,
                }) by {
                if k < n {
                    assert(!(rs[n].0 == fd && writes_output(rs[n].1)));
                }
            }
            assert(rs[n].0 == fd && writes_output(rs[n].1));
        }
    }
}

/// Whether a redirection kind feeds standard input.
pub open spec fn reads_input(k: KindV) -> bool {
    k is Input || k is HereDoc
}

/// What standard input reads from a redirection that feeds it: the named
/// file for `<`, the body for a heredoc.
pub open spec fn input_source(k: KindV, target: Seq<char>) -> StreamV {
    match k {
        KindV::HereDoc { body, .. } => StreamV::Inline(body),
        _ => StreamV::File(target),
    }
}

/// What standard input reads is decided by the last redirection that feeds
/// it; with none, the stream is kept.
pub proof fn law_input_comes_from_last_reader(rs: Seq<(u8, KindV, Seq<char>)>)
    requires
        plan_spec(rs) is Ok,
    ensures
        (forall|m: int| 0 <= m < rs.len() ==> !reads_input(#[trigger] rs[m].1))
            ==> plan_spec(rs)->Ok_0.0 == StreamV::Keep,
        forall|k: int|
            #![trigger rs[k]]
            0 <= k < rs.len() && reads_input(rs[k].1) && (forall|m: int|
                k < m < rs.len() ==> !reads_input(#[trigger] rs[m].1)) ==> plan_spec(rs)->Ok_0.0
                == input_source(rs[k].1, rs[k].2),
    decreases rs.len(),
{
    if rs.len() > 0 {
        let init = rs.drop_last();
        assert(plan_spec(init) is Ok);
        law_input_comes_from_last_reader(init);
        let n = rs.len() - 1;
        assert(rs.last() == rs[n]);
        assert forall|m: int| 0 <= m < init.len() implies init[m] == rs[m] by {}
        if !reads_input(rs[n].1) {
            assert(plan_spec(rs)->Ok_0.0 == plan_spec(init)->Ok_0.0);
            assert forall|k: int|
                #![trigger rs[k]]
                0 <= k < rs.len() && reads_input(rs[k].1) && (forall|m: int|
                    k < m < rs.len() ==> !reads_input(#[trigger] rs[m].1)) implies plan_spec(rs)->Ok_0.0
                    == input_source(rs[k].1, rs[k].2) by {
                assert(k < n);
                assert(init[k] == rs[k]);
                assert forall|m: int| k < m < init.len() implies !reads_input(#[trigger] init[m].1) by {
                    assert(init[m] == rs[m]);
                }
            }
            if forall|m: int| 0 <= m < rs.len() ==> !reads_input(#[trigger] rs[m].1) {
                assert forall|m: int| 0 <= m < init.len() implies !reads_input(#[trigger] init[m].1) by {
                    assert(init[m] == rs[m]);
                }
            }
        } else {
            assert forall|k: int|
                #![trigger rs[k]]
                0 <= k < rs.len() && reads_input(rs[k].1) && (forall|m: int|
                    k < m < rs.len() ==> !reads_input(#[trigger] rs[m].1)) implies plan_spec(rs)->Ok_0.0
                    == input_source(rs[k].1, rs[k].2) by {
                if k < n {
                    assert(!reads_input(rs[n].1));
                }
            }
        }
    }
}

fn fd_message(prefix: &str, fd: u8) -> (r: String)
    ensures
        r@ == prefix@ + decimal(fd as nat),
{
    let mut m = prefix.to_string();
    let d = string_from_chars(decimal_chars(fd as u64).as_slice());
    m.append(d.as_str());
    m
}

/// Where the streams go after the redirections, in order.
pub fn build_redirection_plan(redirections: &[ExpandedRedirection]) -> (r: ShellResult<
    RedirectionPlan,
>)
    ensures
        match plan_spec(redirections@.map_values(|x: ExpandedRedirection| expanded_view(x))) {
            Ok((i, o, e)) => r matches Ok(p) && input_view(p.stdin) == i && output_view(p.stdout)
                == o && output_view(p.stderr) == e,
            Err(m) => r matches Err(ShellError::Message(x)) && x@ == m,
        },
{
    let ghost rv = redirections@.map_values(|x: ExpandedRedirection| expanded_view(x));
    let mut plan = RedirectionPlan { stdin: None, stdout: None, stderr: None };
    let mut k: usize = 0;
    while k < redirections.len()
        invariant
            0 <= k <= redirections@.len(),
            rv == redirections@.map_values(|x: ExpandedRedirection| expanded_view(x)),
            plan_spec(rv.subrange(0, k as int)) == Ok::<(StreamV, StreamV, StreamV), Seq<char>>(
                (input_view(plan.stdin), output_view(plan.stdout), output_view(plan.stderr)),
            ),
        decreases redirections@.len() - k,
    {
        let r = &redirections[k];
        let fd = r.effective_fd();
        assert(rv.subrange(0, k + 1).drop_last() =~= rv.subrange(0, k as int));
        assert(rv.subrange(0, k + 1).last() == expanded_view(*r));
        let target = match &r.target {
            Some(t) => t.clone(),
            None => String::new(),
        };
        match &r.kind {
            RedirectionKind::Input => {
                if fd == 0 {
                    plan.stdin = Some(InputRedirection::File(target));
                } else {
                    let m = fd_message("unsupported input redirection fd: ", fd);
                    proof {
                        lemma_plan_error_sticks(rv, k as int + 1);
                    }
                    return Err(ShellError::Message(m));
                }
            },
            RedirectionKind::HereDoc { body, .. } => {
                if fd == 0 {
                    plan.stdin = Some(InputRedirection::Inline(body.clone()));
                } else {
                    let m = fd_message("unsupported redirection fd: ", fd);
                    proof {
                        lemma_plan_error_sticks(rv, k as int + 1);
                    }
                    return Err(ShellError::Message(m));
                }
            },
            RedirectionKind::OutputTruncate => {
                if fd == 1 {
                    plan.stdout = Some(OutputRedirection { path: target, append: false });
                } else if fd == 2 {
                    plan.stderr = Some(OutputRedirection { path: target, append: false });
                } else {
                    let m = fd_message("unsupported redirection fd: ", fd);
                    proof {
                        lemma_plan_error_sticks(rv, k as int + 1);
                    }
                    return Err(ShellError::Message(m));
                }
            },
            RedirectionKind::OutputAppend => {
                if fd == 1 {
                    plan.stdout = Some(OutputRedirection { path: target, append: true });
                } else if fd == 2 {
                    plan.stderr = Some(OutputRedirection { path: target, append: true });
                } else {
                    let m = fd_message("unsupported redirection fd: ", fd);
                    proof {
                        lemma_plan_error_sticks(rv, k as int + 1);
                    }
                    return Err(ShellError::Message(m));
                }
            },
        }
        k += 1;
    }
    assert(rv.subrange(0, redirections@.len() as int) =~= rv);
    Ok(plan)
}

/// Once a redirection is refused, the plan of any longer list is refused
/// with the same message.
pub proof fn lemma_plan_error_sticks(rs: Seq<(u8, KindV, Seq<char>)>, n: int)
    requires
        0 <= n <= rs.len(),
        plan_spec(rs.subrange(0, n)) is Err,
    ensures
        plan_spec(rs) == plan_spec(rs.subrange(0, n)),
    decreases rs.len(),
{
    if n < rs.len() {
        assert(rs.drop_last().subrange(0, n) =~= rs.subrange(0, n));
        lemma_plan_error_sticks(rs.drop_last(), n);
    } else {
        assert(rs.subrange(0, n) =~= rs);
    }
}

/// A builtin's output once the plan's files took the streams they
/// redirect: what went to a file is no longer printed.
pub fn redirected_output(output: CommandOutput, plan: &RedirectionPlan) -> (r: CommandOutput)
    ensures
        r.exit_code == output.exit_code,
        r.stdout@ == if plan.stdout is Some {
            Seq::<char>::empty()
        } else {
            output.stdout@
        },
        r.stderr@ == if plan.stderr is Some {
            Seq::<char>::empty()
        } else {
            output.stderr@
        },
{
    CommandOutput {
        exit_code: output.exit_code,
        stdout: if plan.stdout.is_some() {
            String::new()
        } else {
            output.stdout
        },
        stderr: if plan.stderr.is_some() {
            String::new()
        } else {
            output.stderr
        },
    }
}

/// What a command name refers to.
#[derive(Debug, Clone, Copy, PartialEq, Eq, Structural)]
pub enum CommandKind {
    Function,
    Builtin,
    External,
}

/// A shell function first, then a builtin, then a program.
pub fn classify_command(name: &str, functions: &FunctionStore) -> (r: CommandKind)
    ensures
        r == if table_get(functions.view(), name@) is Some {
            CommandKind::Function
        } else if default_builtin_names().contains(name@) {
            CommandKind::Builtin
        } else {
            CommandKind::External
        },
{
    if functions.get(name).is_some() {
        CommandKind::Function
    } else if is_default_builtin(name) {
        CommandKind::Builtin
    } else {
        CommandKind::External
    }
}

/// The report for a program that was not found.
pub fn command_not_found(program: &str) -> (r: CommandOutput)
    ensures
        r.exit_code == ExitCode(1),
        r.stdout@.len() == 0,
        r.stderr@ == "command not found: "@ + program@ + "\n"@,
{
    let mut e = "command not found: ".to_string();
    e.append(program);
    e.append("\n");
    CommandOutput::failure(ExitCode(1), e)
}

/// The report for a function that is already running.
pub fn recursion_detected(name: &str) -> (r: CommandOutput)
    ensures
        r.exit_code == ExitCode(1),
        r.stdout@.len() == 0,
        r.stderr@ == "function recursion detected: "@ + name@ + "\n"@,
{
    let mut e = "function recursion detected: ".to_string();
    e.append(name);
    e.append("\n");
    CommandOutput::failure(ExitCode(1), e)
}

/// The process a polled status is about, and its new state.
pub open spec fn polled_change(status: PolledStatus) -> (u32, ProcessState) {
    match status {
        PolledStatus::Exited { pid, code } => (pid, ProcessState::Completed(code)),
        PolledStatus::Signaled { pid, signal } => (
            pid,
            ProcessState::Completed(signal_code(signal) as i32),
        ),
        PolledStatus::Stopped { pid, .. } => (pid, ProcessState::Stopped),
        PolledStatus::Continued { pid } => (pid, ProcessState::Running),
    }
}

pub fn polled_status_change(status: PolledStatus) -> (r: (u32, ProcessState))
    ensures
        r == polled_change(status),
{
    match status {
        PolledStatus::Exited { pid, code } => (pid, ProcessState::Completed(code)),
        PolledStatus::Signaled { pid, signal } => (
            pid,
            ProcessState::Completed(signal_exit_code(signal).0 as i32),
        ),
        PolledStatus::Stopped { pid, .. } => (pid, ProcessState::Stopped),
        PolledStatus::Continued { pid } => (pid, ProcessState::Running),
    }
}

/// Whether `id` is the lowest job with a process `pid`.
pub open spec fn first_job_with_pid(t: JobsV, id: JobId, pid: u32) -> bool {
    job_has_pid(t, id, pid) && forall|k: JobId| k < id ==> !#[trigger] job_has_pid(t, k, pid)
}

/// Records that process `pid` is now in `state`, in the lowest job that
/// has it; the table is unchanged when no job has it.
pub fn record_process_state(jobs: &mut Jobs, pid: u32, state: ProcessState)
    requires
        old(jobs).wf(),
    ensures
        final(jobs).wf(),
        (forall|k: JobId| !#[trigger] job_has_pid(old(jobs).view(), k, pid)) ==> final(jobs).view()
            == old(jobs).view(),
        forall|id: JobId|
            #[trigger] first_job_with_pid(old(jobs).view(), id, pid) ==> final(jobs).view()
                == spec_update_process_state(old(jobs).view(), id, pid, state).0,
{
    match jobs.job_id_for_pid(pid) {
        Some(job_id) => {
            let ghost t = jobs.view();
            proof {
                assert forall|id: JobId| #[trigger] first_job_with_pid(t, id, pid) implies id == job_id by {
                    if id < job_id {
                    } else if id > job_id {
                        assert(!job_has_pid(t, job_id, pid));
                    }
                }
            }
            let _ = jobs.update_process_state(job_id, pid, state);
        },
        None => {},
    }
}

/// Applies a status that a non-blocking wait reported.
pub fn apply_polled_status(jobs: &mut Jobs, status: PolledStatus)
    requires
        old(jobs).wf(),
    ensures
        final(jobs).wf(),
        ({
            let (pid, state) = polled_change(status);
            &&& (forall|k: JobId| !#[trigger] job_has_pid(old(jobs).view(), k, pid))
                ==> final(jobs).view() == old(jobs).view()
            &&& forall|id: JobId|
                #[trigger] first_job_with_pid(old(jobs).view(), id, pid) ==> final(jobs).view()
                    == spec_update_process_state(old(jobs).view(), id, pid, state).0
        }),
{
    let (pid, state) = polled_status_change(status);
    record_process_state(jobs, pid, state);
}

/// What continuing job `job_id` needs: nothing when there is no such job,
/// a report when it has completed, else its process group.
pub fn continuation_target(jobs: &Jobs, job_id: JobId) -> (r: Option<Result<u32, CommandOutput>>)
    ensures
        !jobs.view().jobs.contains_key(job_id) ==> r is None,
        jobs.view().jobs.contains_key(job_id) && jobs.view().jobs[job_id].state
            == JobState::Completed ==> (r matches Some(Err(o)) && o.exit_code == ExitCode(1)
            && o.stdout@.len() == 0 && o.stderr@ == "job has already completed: %"@ + decimal(
            job_id as nat,
        ) + "\n"@),
        jobs.view().jobs.contains_key(job_id) && jobs.view().jobs[job_id].state
            != JobState::Completed ==> r == Some(
            Ok::<u32, CommandOutput>(jobs.view().jobs[job_id].pgid),
        ),
{
    match jobs.get(job_id) {
        None => None,
        Some(job) => {
            if job.state() == JobState::Completed {
                let mut e = "job has already completed: %".to_string();
                let d = string_from_chars(decimal_chars(job_id as u64).as_slice());
                e.append(d.as_str());
                e.append("\n");
                Some(Err(CommandOutput::failure(ExitCode(1), e)))
            } else {
                Some(Ok(job.pgid()))
            }
        },
    }
}

/// Records that job `job_id` was continued in the background: it gives up
/// the terminal and its unfinished processes run.
pub fn mark_job_background(jobs: &mut Jobs, job_id: JobId)
    requires
        old(jobs).wf(),
    ensures
        final(jobs).wf(),
        final(jobs).view() == spec_set_unfinished(
            spec_set_disposition(old(jobs).view(), job_id, JobDisposition::Background).0,
            job_id,
            ProcessState::Running,
        ).0,
{
    let _ = jobs.set_disposition(job_id, JobDisposition::Background);
    let _ = jobs.set_all_processes_running(job_id);
}

/// Records that job `job_id` was brought to the foreground: it takes the
/// terminal and its unfinished processes run.
pub fn mark_job_foreground(jobs: &mut Jobs, job_id: JobId)
    requires
        old(jobs).wf(),
    ensures
        final(jobs).wf(),
        final(jobs).view() == spec_set_unfinished(
            spec_set_disposition(old(jobs).view(), job_id, JobDisposition::Foreground).0,
            job_id,
            ProcessState::Running,
        ).0,
{
    let _ = jobs.set_disposition(job_id, JobDisposition::Foreground);
    let _ = jobs.set_all_processes_running(job_id);
}

/// The ids of the processes that have not completed, in order.
pub open spec fn unfinished_pids(ps: Seq<ProcV>) -> Seq<u32>
    decreases ps.len(),
{
    if ps.len() == 0 {
        Seq::empty()
    } else {
        unfinished_pids(ps.drop_last()) + if ps.last().state is Completed {
            Seq::<u32>::empty()
        } else {
            seq![ps.last().pid]
        }
    }
}

/// The processes of job `job_id` to wait for when it comes to the
/// foreground, and its summary.
pub fn foreground_targets(jobs: &Jobs, job_id: JobId) -> (r: Option<(Vec<u32>, String)>)
    ensures
        !jobs.view().jobs.contains_key(job_id) ==> r is None,
        jobs.view().jobs.contains_key(job_id) ==> (r matches Some((pids, summary)) && pids@
            == unfinished_pids(jobs.view().jobs[job_id].processes) && summary@
            == jobs.view().jobs[job_id].summary),
{
    match jobs.get(job_id) {
        None => None,
        Some(job) => {
            let procs = job.processes();
            let ghost ps = job.view().processes;
            let mut pids: Vec<u32> = Vec::new();
            let mut i: usize = 0;
            while i < procs.len()
                invariant
                    0 <= i <= procs@.len(),
                    procs_view(procs@) == ps,
                    pids@ == unfinished_pids(ps.subrange(0, i as int)),
                decreases procs@.len() - i,
            {
                assert(ps.subrange(0, i + 1).drop_last() =~= ps.subrange(0, i as int));
                match procs[i].state() {
                    ProcessState::Completed(_) => {
                        assert(pids@ =~= pids@ + Seq::<u32>::empty());
                    },
                    _ => {
                        pids.push(procs[i].pid());
                    },
                }
                i += 1;
            }
            assert(ps.subrange(0, ps.len() as int) =~= ps);
            Some((pids, job.summary().to_string()))
        },
    }
}

/// Records what waiting for process `pid` of foreground job `job_id`
/// gave: the status to report, and whether the job stopped (then all its
/// unfinished processes are stopped and the waiting ends).
pub fn record_foreground_wait(jobs: &mut Jobs, job_id: JobId, pid: u32, status: WaitStatus) -> (r: (
    ExitCode,
    bool,
))
    requires
        old(jobs).wf(),
    ensures
        final(jobs).wf(),
        r.0.0 == wait_outcome(status).1,
        r.1 == (status is Stopped),
        ({
            let t1 = spec_update_process_state(old(jobs).view(), job_id, pid, wait_outcome(status).0).0;
            &&& status is Stopped ==> final(jobs).view() == spec_set_unfinished(
                t1,
                job_id,
                ProcessState::Stopped,
            ).0
            &&& !(status is Stopped) ==> final(jobs).view() == t1
        }),
{
    let (state, code) = process_state_from_wait_status(status);
    let _ = jobs.update_process_state(job_id, pid, state);
    match status {
        WaitStatus::Stopped(_) => {
            let _ = jobs.set_all_processes_stopped(job_id);
            (code, true)
        },
        _ => (code, false),
    }
}

/// What `fg` reports once the job's processes were waited for: the job's
/// summary, with the last status.
pub fn foreground_report(summary: &str, last: ExitCode) -> (r: CommandOutput)
    ensures
        r.exit_code == last,
        r.stdout@ == summary@ + "\n"@,
        r.stderr@.len() == 0,
{
    let mut out = summary.to_string();
    out.append("\n");
    CommandOutput { exit_code: last, stdout: out, stderr: String::new() }
}

/// Files a program started in the foreground as a job of its own (a
/// process id of 0 means none was started).
pub fn register_foreground_job(jobs: &mut Jobs, pid: u32, summary: &str) -> (r: Option<JobId>)
    requires
        old(jobs).wf(),
    ensures
        final(jobs).wf(),
        pid == 0 ==> r is None && final(jobs).view() == old(jobs).view(),
        pid != 0 ==> r == Some(next_job_id(old(jobs).view().next_id)) && final(jobs).view()
            == spec_insert(
            old(jobs).view(),
            pid,
            summary@,
            JobDisposition::Foreground,
            seq![ProcV { pid, state: ProcessState::Running, summary: summary@ }],
        ),
{
    if pid == 0 {
        return None;
    }
    let mut procs: Vec<ProcessRecord> = Vec::new();
    procs.push(ProcessRecord::new(pid, summary));
    assert(procs_view(procs@) =~= seq![ProcV { pid, state: ProcessState::Running, summary: summary@ }]);
    Some(jobs.insert(pid, summary, JobDisposition::Foreground, procs))
}

/// The job that the processes of one pipeline join, as they start.
#[derive(Debug)]
pub struct PipelineJobContext {
    pub job_id: Option<JobId>,
    pub pgid: Option<u32>,
    pub summary: String,
    pub foreground_claimed: bool,
}

impl PipelineJobContext {
    /// The context of a pipeline shown as `summary`, before any process
    /// starts.
    pub fn new(summary: String) -> (r: Self)
        ensures
            r.job_id is None,
            r.pgid is None,
            r.summary == summary,
            !r.foreground_claimed,
    {
        PipelineJobContext { job_id: None, pgid: None, summary, foreground_claimed: false }
    }
}

/// Files process `pid` of a pipeline: the first one starts the job, in
/// the process group it leads; the others join that job.
pub fn register_pipeline_process(
    jobs: &mut Jobs,
    context: &mut PipelineJobContext,
    pid: u32,
    summary: &str,
)
    requires
        old(jobs).wf(),
    ensures
        final(jobs).wf(),
        pid == 0 ==> final(jobs).view() == old(jobs).view() && *final(context) == *old(context),
        pid != 0 ==> {
            let pgid = match old(context).pgid {
                Some(g) => g,
                None => pid,
            };
            let p = ProcV { pid, state: ProcessState::Running, summary: summary@ };
            &&& final(context).pgid == Some(pgid)
            &&& final(context).summary == old(context).summary
            &&& final(context).foreground_claimed == old(context).foreground_claimed
            &&& match old(context).job_id {
                Some(id) => final(context).job_id == Some(id) && final(jobs).view()
                    == spec_add_process(old(jobs).view(), id, p).0,
                None => final(context).job_id == Some(next_job_id(old(jobs).view().next_id))
                    && final(jobs).view() == spec_insert(
                    old(jobs).view(),
                    pgid,
                    old(context).summary@,
                    JobDisposition::Foreground,
                    seq![p],
                ),
            }
        },
{
    if pid == 0 {
        return;
    }
    let pgid = match context.pgid {
        Some(g) => g,
        None => pid,
    };
    context.pgid = Some(pgid);
    match context.job_id {
        Some(id) => {
            let _ = jobs.add_process(id, ProcessRecord::new(pid, summary));
        },
        None => {
            let mut procs: Vec<ProcessRecord> = Vec::new();
            procs.push(ProcessRecord::new(pid, summary));
            assert(procs_view(procs@) =~= seq![ProcV { pid, state: ProcessState::Running, summary: summary@ }]);
            let id = jobs.insert(pgid, context.summary.as_str(), JobDisposition::Foreground, procs);
            context.job_id = Some(id);
        },
    }
}

/// After waiting for process `pid` of a pipeline: a process that ended
/// and led the group leaves no group for the next one to join.
pub fn release_finished_group(context: &mut PipelineJobContext, pid: u32, status: WaitStatus)
    ensures
        final(context).job_id == old(context).job_id,
        final(context).summary == old(context).summary,
        final(context).foreground_claimed == old(context).foreground_claimed,
        final(context).pgid == if !(status is Stopped) && old(context).pgid == Some(pid) {
            None
        } else {
            old(context).pgid
        },
{
    let ended = match status {
        WaitStatus::Stopped(_) => false,
        _ => true,
    };
    if ended && context.pgid == Some(pid) {
        context.pgid = None;
    }
}

/// The command that aliases make of `cmd`: while its first word is an
/// unquoted alias name not yet used, that word is replaced by the words
/// and redirections of the alias's simple command. At most `fuel` steps.
pub open spec fn alias_rewrite(
    t: Seq<(Seq<char>, Seq<char>)>,
    cmd: SimpleV,
    seen: Seq<Seq<char>>,
    fuel: nat,
) -> Result<SimpleV, Seq<char>>
    decreases fuel,
{
    if fuel == 0 || cmd.argv.len() == 0 {
        Ok(cmd)
    } else {
        match unquoted_literal(cmd.argv[0]) {
            None => Ok(cmd),
            Some(name) => match table_get(t, name) {
                None => Ok(cmd),
                Some(value) => if seen.contains(name) {
                    Ok(cmd)
                } else {
                    match spec_parse(value) {
                        Err(e) => Err("invalid alias expansion: "@ + e.msg),
                        Ok(ParsedV::Expr(ExprV::Command(NodeV::Simple(a)))) => alias_rewrite(
                            t,
                            SimpleV {
                                assignments: cmd.assignments,
                                argv: a.argv + cmd.argv.drop_first(),
                                redirections: a.redirections + cmd.redirections,
                            },
                            seen.push(name),
                            (fuel - 1) as nat,
                        ),
                        Ok(_) => Ok(cmd),
                    }
                },
            },
        }
    }
}

/// How many names of the table `t` among its first `n` entries have not
/// been used yet.
pub open spec fn unseen_count(t: Seq<(Seq<char>, Seq<char>)>, seen: Seq<Seq<char>>, n: int) -> nat
    decreases n,
{
    if n <= 0 {
        0
    } else if seen.contains(t[n - 1].0) {
        unseen_count(t, seen, n - 1)
    } else {
        unseen_count(t, seen, n - 1) + 1
    }
}

proof fn lemma_unseen_after_use(
    t: Seq<(Seq<char>, Seq<char>)>,
    seen: Seq<Seq<char>>,
    name: Seq<char>,
    j: int,
    n: int,
)
    requires
        sorted_names(t),
        0 <= j < t.len(),
        t[j].0 == name,
        !seen.contains(name),
        0 <= n <= t.len(),
    ensures
        unseen_count(t, seen.push(name), n) + (if j < n {
            1nat
        } else {
            0nat
        }) == unseen_count(t, seen, n),
    decreases n,
{
    if n > 0 {
        lemma_unseen_after_use(t, seen, name, j, n - 1);
        let k = n - 1;
        assert(seen.push(name).contains(t[k].0) <==> (seen.contains(t[k].0) || t[k].0 == name)) by {
            if seen.push(name).contains(t[k].0) {
                let m = choose|m: int| 0 <= m < seen.push(name).len() && seen.push(name)[m] == t[k].0;
                if m < seen.len() {
                    assert(seen[m] == t[k].0);
                }
            }
            if seen.contains(t[k].0) {
                let m = choose|m: int| 0 <= m < seen.len() && seen[m] == t[k].0;
                assert(seen.push(name)[m] == t[k].0);
            }
            if t[k].0 == name {
                assert(seen.push(name)[seen.len() as int] == name);
            }
        }
        if k != j {
            if k < j {
                assert(lex_lt(t[k].0, t[j].0));
            } else {
                assert(lex_lt(t[j].0, t[k].0));
            }
            lemma_lex_irreflexive(name);
        }
    }
}

proof fn lemma_unseen_bound(t: Seq<(Seq<char>, Seq<char>)>, seen: Seq<Seq<char>>, n: int)
    requires
        0 <= n,
    ensures
        unseen_count(t, seen, n) <= n,
    decreases n,
{
    if n > 0 {
        lemma_unseen_bound(t, seen, n - 1);
    }
}

proof fn lemma_alias_fuel(
    t: Seq<(Seq<char>, Seq<char>)>,
    cmd: SimpleV,
    seen: Seq<Seq<char>>,
    fuel: nat,
    extra: nat,
)
    requires
        sorted_names(t),
        fuel >= unseen_count(t, seen, t.len() as int) + 1,
    ensures
        alias_rewrite(t, cmd, seen, fuel) == alias_rewrite(t, cmd, seen, fuel + extra),
    decreases fuel,
{
    if cmd.argv.len() > 0 {
        match unquoted_literal(cmd.argv[0]) {
            None => {},
            Some(name) => match table_get(t, name) {
                None => {},
                Some(value) => if !seen.contains(name) {
                    match spec_parse(value) {
                        Ok(ParsedV::Expr(ExprV::Command(NodeV::Simple(a)))) => {
                            lemma_find_name(t, name, 0);
                            let j = find_name(t, name, 0)->0;
                            lemma_unseen_after_use(t, seen, name, j, t.len() as int);
                            let next = SimpleV {
                                assignments: cmd.assignments,
                                argv: a.argv + cmd.argv.drop_first(),
                                redirections: a.redirections + cmd.redirections,
                            };
                            lemma_alias_fuel(t, next, seen.push(name), (fuel - 1) as nat, extra);
                            assert((fuel + extra - 1) as nat == ((fuel - 1) as nat + extra) as nat);
                        },
                        _ => {},
                    }
                },
            },
        }
    }
}

/// Alias expansion stops by itself: with one step more than there are
/// aliases, further steps change nothing, so a chain of aliases that leads
/// back to itself ends rather than looping.
pub proof fn law_alias_expansion_needs_no_more_steps(
    t: Seq<(Seq<char>, Seq<char>)>,
    cmd: SimpleV,
    extra: nat,
)
    requires
        sorted_names(t),
    ensures
        alias_rewrite(t, cmd, Seq::empty(), t.len() + 1) == alias_rewrite(
            t,
            cmd,
            Seq::empty(),
            t.len() + 1 + extra,
        ),
{
    lemma_unseen_bound(t, Seq::empty(), t.len() as int);
    lemma_alias_fuel(t, cmd, Seq::empty(), t.len() + 1, extra);
}

/// The command with its first word replaced by the words of `alias`, and
/// the alias's redirections before its own.
fn splice_alias(current: SimpleCommand, alias: SimpleCommand) -> (r: SimpleCommand)
    requires
        current.argv@.len() > 0,
    ensures
        r.view() == (SimpleV {
            assignments: current.view().assignments,
            argv: alias.view().argv + current.view().argv.drop_first(),
            redirections: alias.view().redirections + current.view().redirections,
        }),
{
    let mut current = current;
    let ghost cv = current.view();
    let mut argv = alias.argv;
    let ghost a0 = words_view(argv@);
    let mut i: usize = 1;
    while i < current.argv.len()
        invariant
            1 <= i <= current.argv@.len(),
            cv == current.view(),
            words_view(argv@) == a0 + words_view(current.argv@).subrange(1, i as int),
        decreases current.argv@.len() - i,
    {
        let w = current.argv[i].clone();
        let ghost before = words_view(argv@);
        argv.push(w);
        assert(words_view(argv@) =~= before.push(current.argv@[i as int]@));
        assert(words_view(current.argv@).subrange(1, i + 1) =~= words_view(current.argv@).subrange(
            1,
            i as int,
        ).push(current.argv@[i as int]@));
        i += 1;
    }
    assert(words_view(current.argv@).subrange(1, current.argv@.len() as int) =~= cv.argv.drop_first());
    let mut redirections = alias.redirections;
    let ghost r0 = redirections_view(redirections@);
    let ghost r1 = redirections_view(current.redirections@);
    let mut rest = current.redirections;
    redirections.append(&mut rest);
    assert(redirections_view(redirections@) =~= r0 + r1);
    SimpleCommand { assignments: current.assignments, argv, redirections }
}

/// The simple command that a parsed alias value is, if it is one.
fn alias_simple_of(parsed: ParsedCommand) -> (r: Option<SimpleCommand>)
    ensures
        r is Some == (parsed.view() matches ParsedV::Expr(ExprV::Command(NodeV::Simple(_)))),
        r matches Some(x) ==> parsed.view() == ParsedV::Expr(ExprV::Command(NodeV::Simple(x.view()))),
{
    match parsed {
        ParsedCommand::Empty => None,
        ParsedCommand::Expr(e) => {
            let ghost ev = e.view();
            match e {
                ShellExpr::Command(n) => {
                    assert(ev == ExprV::Command(n.view()));
                    match n {
                        CommandNode::Simple(a) => {
                            assert(n.view() == NodeV::Simple(a.view()));
                            Some(a)
                        },
                        CommandNode::FunctionDef { .. } => {
                            assert(n.view() is FunctionDef);
                            None
                        },
                        CommandNode::Subshell(_) => {
                            assert(n.view() is Subshell);
                            None
                        },
                    }
                },
                ShellExpr::Pipeline(_) => {
                    assert(ev is Pipeline);
                    None
                },
                ShellExpr::BooleanChain { .. } => {
                    assert(ev is BooleanChain);
                    None
                },
                ShellExpr::Sequence(_) => {
                    assert(ev is Sequence);
                    None
                },
            }
        },
    }
}

/// Whether `name` is among `seen`.
fn seen_contains(seen: &Vec<String>, name: &str) -> (b: bool)
    ensures
        b == strings_view(seen@).contains(name@),
{
    let mut k: usize = 0;
    while k < seen.len()
        invariant
            0 <= k <= seen@.len(),
            forall|m: int| 0 <= m < k ==> strings_view(seen@)[m] != name@,
        decreases seen@.len() - k,
    {
        if crate::text::str_eq(seen[k].as_str(), name) {
            assert(strings_view(seen@)[k as int] == name@);
            return true;
        }
        k += 1;
    }
    false
}

/// The simple command after alias expansion, with as many steps as there
/// are aliases, and one more.
#[verifier::rlimit(40)]
pub fn resolve_aliases(aliases: &AliasStore, simple: &SimpleCommand) -> (r: ShellResult<
    SimpleCommand,
>)
    ensures
        match alias_rewrite(aliases.view(), simple.view(), Seq::empty(), aliases.view().len() + 1) {
            Ok(c) => r matches Ok(x) && x.view() == c,
            Err(m) => r matches Err(ShellError::Message(x)) && x@ == m,
        },
{
    let ghost t = aliases.view();
    let ghost goal = alias_rewrite(t, simple.view(), Seq::empty(), t.len() + 1);
    let n = aliases.entries().len();
    let mut fuel: u128 = n as u128 + 1;
    let mut current = copy_simple(simple);
    let mut seen: Vec<String> = Vec::new();
    let parser = Parser::new();
    assert(strings_view(seen@) =~= Seq::<Seq<char>>::empty());
    loop
        invariant
            t == aliases.view(),
            goal == alias_rewrite(t, simple.view(), Seq::empty(), t.len() + 1),
            alias_rewrite(t, current.view(), strings_view(seen@), fuel as nat) == goal,
        decreases fuel,
    {
        if fuel == 0 || current.argv.len() == 0 {
            return Ok(current);
        }
        let name = match current.argv[0].as_unquoted_literal() {
            None => {
                return Ok(current);
            },
            Some(n) => n.to_string(),
        };
        let value = match aliases.get(name.as_str()) {
            None => {
                return Ok(current);
            },
            Some(v) => v.to_string(),
        };
        if seen_contains(&seen, name.as_str()) {
            return Ok(current);
        }
        assert(!strings_view(seen@).contains(name@));
        let parsed = match parser.parse(value.as_str()) {
            Err(e) => {
                let mut m = "invalid alias expansion: ".to_string();
                m.append(e.message.as_str());
                return Err(ShellError::Message(m));
            },
            Ok(c) => c,
        };
        let alias_simple = match alias_simple_of(parsed) {
            Some(a) => a,
            None => {
                return Ok(current);
            },
        };
        let next = splice_alias(current, alias_simple);
        proof {
            assert(strings_view(seen@.push(name)) =~= strings_view(seen@).push(name@));
        }
        seen.push(name);
        current = next;
        fuel = fuel - 1;
    }
}

/// The segments of a heredoc body from `i` on, after the pending text
/// `lit` and the segments `segs`: `\$` and `\\` stand for the character,
/// `$?`, `$name` and `$(...)` expand, and everything else is text.
pub open spec fn heredoc_from(s: Seq<char>, i: int, lit: Seq<char>, segs: Seq<SegV>) -> Result<
    Seq<SegV>,
    LexError,
>
    decreases s.len() - i,
{
    let q = QuoteKind::Unquoted;
    if i < 0 || i >= s.len() {
        Ok(flushed(lit, segs, q))
    } else if s[i] == '\\' {
        if i + 1 < s.len() && (s[i + 1] == '$' || s[i + 1] == '\\') {
            heredoc_from(s, i + 2, lit.push(s[i + 1]), segs)
        } else {
            heredoc_from(s, i + 1, lit.push('\\'), segs)
        }
    } else if s[i] == '$' && i + 1 < s.len() && s[i + 1] == '?' {
        heredoc_from(s, i + 2, Seq::empty(), flushed(lit, segs, q).push(SegV::LastStatus { quote: q }))
    } else if s[i] == '$' && i + 1 < s.len() && spec_var_start(s[i + 1]) {
        let e = name_end(s, i + 1);
        if i < e <= s.len() {
            heredoc_from(
                s,
                e,
                Seq::empty(),
                flushed(lit, segs, q).push(SegV::Variable { name: s.subrange(i + 1, e), quote: q }),
            )
        } else {
            Ok(flushed(lit, segs, q))
        }
    } else if s[i] == '$' && i + 1 < s.len() && s[i + 1] == '(' {
        match subst_source(s, i + 2, 1, Seq::empty()) {
            Err(e) => Err(e),
            Ok((src, j)) => if i < j <= s.len() {
                heredoc_from(
                    s,
                    j,
                    Seq::empty(),
                    flushed(lit, segs, q).push(SegV::CommandSubstitution { source: src, quote: q }),
                )
            } else {
                Err(LexError::UnterminatedSubstitution)
            },
        }
    } else {
        heredoc_from(s, i + 1, lit.push(s[i]), segs)
    }
}

/// A heredoc body read as a word, so that expanding the word expands the
/// body; an unfinished substitution or quote inside it is an error.
pub fn heredoc_body_word(body: &str) -> (r: ShellResult<Word>)
    ensures
        match heredoc_from(body@, 0, Seq::empty(), Seq::empty()) {
            Ok(segs) => r matches Ok(w) && w@ == segs,
            Err(e) => r matches Err(ShellError::Message(m)) && m@ == lex_message(e),
        },
{
    let s = chars_of(body);
    let ghost goal = heredoc_from(s@, 0, Seq::empty(), Seq::empty());
    let mut lit: Vec<char> = Vec::new();
    let mut segs: Vec<WordSegment> = Vec::new();
    let mut i: usize = 0;
    let q = QuoteKind::Unquoted;
    assert(segs_view(segs@) =~= Seq::<SegV>::empty());
    while i < s.len()
        invariant
            0 <= i <= s@.len(),
            s@ == body@,
            goal == heredoc_from(s@, 0, Seq::empty(), Seq::empty()),
            q == QuoteKind::Unquoted,
            heredoc_from(s@, i as int, lit@, segs_view(segs@)) == goal,
        decreases s@.len() - i,
    {
        let c = s[i];
        if c == '\\' {
            if i + 1 < s.len() && (s[i + 1] == '$' || s[i + 1] == '\\') {
                lit.push(s[i + 1]);
                i += 2;
            } else {
                lit.push('\\');
                i += 1;
            }
        } else if c == '$' && i + 1 < s.len() && s[i + 1] == '?' {
            flush_literal(&mut lit, &mut segs, QuoteKind::Unquoted);
            let seg = WordSegment::LastStatus { quote: QuoteKind::Unquoted };
            proof {
                crate::lexer::lemma_segs_push(segs@, seg);
            }
            segs.push(seg);
            i += 2;
        } else if c == '$' && i + 1 < s.len() && crate::expand::is_var_start(s[i + 1]) {
            let e = scan_name_end(&s, i + 1);
            flush_literal(&mut lit, &mut segs, QuoteKind::Unquoted);
            let mut name_chars: Vec<char> = Vec::new();
            crate::lexer::push_range(&mut name_chars, &s, i + 1, e);
            assert(name_chars@ =~= s@.subrange(i + 1, e as int));
            let name = string_from_chars(name_chars.as_slice());
            let seg = WordSegment::Variable { name, quote: QuoteKind::Unquoted };
            proof {
                crate::lexer::lemma_segs_push(segs@, seg);
            }
            segs.push(seg);
            i = e;
        } else if c == '$' && i + 1 < s.len() && s[i + 1] == '(' {
            match read_command_substitution(&s, i + 2) {
                Err(e) => {
                    return Err(ShellError::Message(e.message()));
                },
                Ok((src, j)) => {
                    flush_literal(&mut lit, &mut segs, QuoteKind::Unquoted);
                    let source = string_from_chars(src.as_slice());
                    let seg = WordSegment::CommandSubstitution { source, quote: QuoteKind::Unquoted };
                    proof {
                        crate::lexer::lemma_segs_push(segs@, seg);
                    }
                    segs.push(seg);
                    i = j;
                },
            }
        } else {
            lit.push(c);
            i += 1;
        }
    }
    flush_literal(&mut lit, &mut segs, QuoteKind::Unquoted);
    Ok(Word::new(segs))
}

/// The shell's executor. Running commands awaits processes and is left to
/// the binary; the decisions it takes at each step are the functions of
/// this module.
#[derive(Debug, Default, Clone, Copy)]
pub struct BootstrapExecutor;

impl BootstrapExecutor {
    pub fn new() -> Self {
        BootstrapExecutor
    }

    /// An empty command succeeds with nothing printed.
    pub fn execute_empty(&self) -> (r: ShellAction)
        ensures
            r matches ShellAction::Continue(o) && o.exit_code.0 == 0 && o.stdout@.len() == 0
                && o.stderr@.len() == 0,
    {
        ShellAction::continue_with(CommandOutput::success())
    }
}

} // verus!
