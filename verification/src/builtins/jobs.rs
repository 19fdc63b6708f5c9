//! `jobs`, `fg`, `bg` and `kill`: what they list, which job or process
//! they act on, and what they report. Waiting for, continuing and
//! signalling processes is left to the binary.
use vstd::prelude::*;
use vstd::slice::slice_subrange;
use vstd::string::{StrSliceExecFns, StringExecFns};

use crate::expand::{decimal, decimal_chars};
use crate::jobs::{ids_in_order, JobDisposition, JobId, JobState, JobV, Jobs, JobsV};
use crate::numbers::{parse_i32, parse_i32_spec, parse_unsigned, parse_unsigned_spec, without_sign};
use crate::shell::state::strings_view;
use crate::shell::{CommandOutput, ExitCode};
use crate::text::{chars_of, string_from_chars};

verus! {

/// Whether `jobs` lists a job: stopped jobs always, running ones when in
/// the background, finished ones never.
pub open spec fn displayed(state: JobState, disposition: JobDisposition) -> bool {
    match state {
        JobState::Stopped => true,
        JobState::Running => disposition == JobDisposition::Background,
        JobState::Completed => false,
    }
}

pub open spec fn job_state_text(state: JobState) -> Seq<char> {
    match state {
        JobState::Running => "Running"@,
        JobState::Stopped => "Stopped"@,
        JobState::Completed => "Done"@,
    }
}

/// The line that shows a job: `[id] State summary`.
pub open spec fn job_line(id: JobId, state: JobState, summary: Seq<char>) -> Seq<char> {
    "["@ + decimal(id as nat) + "] "@ + job_state_text(state) + " "@ + summary + "\n"@
}

/// The lines for the jobs of `js` that are listed, in order.
pub open spec fn jobs_listing(js: Seq<JobV>) -> Seq<char>
    decreases js.len(),
{
    if js.len() == 0 {
        Seq::empty()
    } else {
        let j = js.last();
        jobs_listing(js.drop_last()) + if displayed(j.state, j.disposition) {
            job_line(j.id, j.state, j.summary)
        } else {
            Seq::empty()
        }
    }
}

/// The job id in `input`, with or without a leading `%`.
pub open spec fn job_id_spec(input: Seq<char>) -> Option<JobId> {
    let trimmed = without_sign(input, '%');
    if trimmed.len() == 0 {
        None
    } else {
        match parse_unsigned_spec(trimmed, u32::MAX as nat) {
            Some(v) => Some(v as u32),
            None => None,
        }
    }
}

/// Whether `a` in ASCII upper case is `upper`, a word of upper-case
/// ASCII letters (`a.to_ascii_uppercase() == upper`).
pub open spec fn ascii_upper_is(a: Seq<char>, upper: Seq<char>) -> bool {
    &&& a.len() == upper.len()
    &&& forall|i: int|
        0 <= i < a.len() ==> #[trigger] a[i] == upper[i] || (a[i] as u32 == upper[i] as u32 + 32
            && 'A' <= upper[i] <= 'Z')
}

/// `s` without a leading `SIG`.
pub open spec fn without_sig(s: Seq<char>) -> Seq<char> {
    if s.len() >= 3 && s.subrange(0, 3) == "SIG"@ {
        s.subrange(3, s.len() as int)
    } else {
        s
    }
}

/// The signal a name stands for.
pub open spec fn signal_named(name: Seq<char>) -> Option<i32> {
    if ascii_upper_is(name, "HUP"@) {
        Some(1)
    } else if ascii_upper_is(name, "INT"@) {
        Some(2)
    } else if ascii_upper_is(name, "QUIT"@) {
        Some(3)
    } else if ascii_upper_is(name, "KILL"@) {
        Some(9)
    } else if ascii_upper_is(name, "TERM"@) {
        Some(15)
    } else if ascii_upper_is(name, "CONT"@) {
        Some(18)
    } else if ascii_upper_is(name, "STOP"@) {
        Some(19)
    } else if ascii_upper_is(name, "TSTP"@) {
        Some(20)
    } else {
        None
    }
}

/// The signal `spec` gives: a number, or a name with or without `SIG`, in
/// any case.
pub open spec fn signal_spec(spec: Seq<char>) -> Option<i32> {
    match parse_i32_spec(spec) {
        Some(v) => Some(v as i32),
        None => signal_named(without_sig(spec)),
    }
}

/// Whether `list` would list a job in `state` with `disposition`.
pub fn should_display_job(state: JobState, disposition: JobDisposition) -> (b: bool)
    ensures
        b == displayed(state, disposition),
{
    match state {
        JobState::Stopped => true,
        JobState::Running => disposition == JobDisposition::Background,
        JobState::Completed => false,
    }
}

/// The word that shows a job's state.
pub fn format_job_state(state: JobState) -> (r: &'static str)
    ensures
        r@ == job_state_text(state),
{
    match state {
        JobState::Running => "Running",
        JobState::Stopped => "Stopped",
        JobState::Completed => "Done",
    }
}

fn decimal_string(n: u32) -> (r: String)
    ensures
        r@ == decimal(n as nat),
{
    let d = decimal_chars(n as u64);
    string_from_chars(d.as_slice())
}

/// The line that shows a job.
pub fn format_job(job_id: JobId, state: JobState, summary: &str) -> (r: String)
    ensures
        r@ == job_line(job_id, state, summary@),
{
    let mut out = "[".to_string();
    let id = decimal_string(job_id);
    out.append(id.as_str());
    out.append("] ");
    out.append(format_job_state(state));
    out.append(" ");
    out.append(summary);
    out.append("\n");
    out
}

/// The job id `input` names, with or without a leading `%`.
pub fn parse_job_id(input: &str) -> (r: Result<JobId, String>)
    ensures
        match r {
            Ok(id) => job_id_spec(input@) == Some(id),
            Err(m) => job_id_spec(input@) is None && m@ == "invalid job id: "@ + input@,
        },
{
    let chars = chars_of(input);
    let from: usize = if chars.len() > 0 && chars[0] == '%' {
        1
    } else {
        0
    };
    let trimmed = string_from_chars(slice_subrange(chars.as_slice(), from, chars.len()));
    assert(trimmed@ =~= without_sign(input@, '%'));
    if from == chars.len() {
        let mut m = "invalid job id: ".to_string();
        m.append(input);
        return Err(m);
    }
    match parse_unsigned(trimmed.as_str(), 0xffff_ffff) {
        Some(v) => Ok(v as u32),
        None => {
            let mut m = "invalid job id: ".to_string();
            m.append(input);
            Err(m)
        },
    }
}

fn ascii_upper_matches(a: &Vec<char>, upper: &str) -> (b: bool)
    ensures
        b == ascii_upper_is(a@, upper@),
{
    let u = chars_of(upper);
    if a.len() != u.len() {
        return false;
    }
    let mut i: usize = 0;
    while i < a.len()
        invariant
            0 <= i <= a@.len(),
            a@.len() == u@.len(),
            u@ == upper@,
            forall|k: int|
                0 <= k < i ==> #[trigger] a@[k] == u@[k] || (a@[k] as u32 == u@[k] as u32 + 32 && 'A'
                    <= u@[k] <= 'Z'),
        decreases a@.len() - i,
    {
        let c = a[i];
        let d = u[i];
        if !(c == d || ('A' <= d && d <= 'Z' && (c as u32) == (d as u32) + 32)) {
            return false;
        }
        i += 1;
    }
    true
}

/// The signal number `spec` stands for.
pub fn parse_signal_spec(spec: &str) -> (r: Result<i32, String>)
    ensures
        match r {
            Ok(v) => signal_spec(spec@) == Some(v),
            Err(m) => signal_spec(spec@) is None && m@ == "unsupported signal: "@ + spec@,
        },
{
    if let Some(v) = parse_i32(spec) {
        return Ok(v);
    }
    let chars = chars_of(spec);
    let sig = chars_of("SIG");
    let has_sig = chars.len() >= 3 && crate::text::chars_eq(
        slice_subrange(chars.as_slice(), 0, 3),
        sig.as_slice(),
    );
    let name: Vec<char> = if has_sig {
        let mut n: Vec<char> = Vec::new();
        crate::lexer::push_range(&mut n, &chars, 3, chars.len());
        n
    } else {
        chars
    };
    assert(name@ =~= without_sig(spec@));
    if ascii_upper_matches(&name, "HUP") {
        Ok(1)
    } else if ascii_upper_matches(&name, "INT") {
        Ok(2)
    } else if ascii_upper_matches(&name, "QUIT") {
        Ok(3)
    } else if ascii_upper_matches(&name, "KILL") {
        Ok(9)
    } else if ascii_upper_matches(&name, "TERM") {
        Ok(15)
    } else if ascii_upper_matches(&name, "CONT") {
        Ok(18)
    } else if ascii_upper_matches(&name, "STOP") {
        Ok(19)
    } else if ascii_upper_matches(&name, "TSTP") {
        Ok(20)
    } else {
        let mut m = "unsupported signal: ".to_string();
        m.append(spec);
        Err(m)
    }
}

/// The signal and the targets of `kill`: `-SIGNAL` first picks the
/// signal, `TERM` (15) by default; at least one target is needed.
pub fn parse_kill_args(args: &[String]) -> (r: Result<(i32, &[String]), String>)
    ensures
        args@.len() == 0 ==> (r matches Err(m) && m@ == "usage: kill [-SIGNAL] <pid|%job>..."@),
        args@.len() > 0 && !(args@[0]@.len() > 1 && args@[0]@[0] == '-') ==> (r matches Ok(
            (sig, rest),
        ) && sig == 15 && rest@ == args@),
        args@.len() > 0 && args@[0]@.len() > 1 && args@[0]@[0] == '-' ==> match signal_spec(
            args@[0]@.drop_first(),
        ) {
            None => r matches Err(m) && m@ == "unsupported signal: "@ + args@[0]@.drop_first(),
            Some(sig) => if args@.len() == 1 {
                r matches Err(m) && m@ == "usage: kill [-SIGNAL] <pid|%job>..."@
            } else {
                r matches Ok((s, rest)) && s == sig && rest@ == args@.subrange(1, args@.len() as int)
            },
        },
{
    if args.len() == 0 {
        return Err("usage: kill [-SIGNAL] <pid|%job>...".to_string());
    }
    let first = chars_of(args[0].as_str());
    if first.len() > 1 && first[0] == '-' {
        let rest_chars = string_from_chars(slice_subrange(first.as_slice(), 1, first.len()));
        assert(rest_chars@ =~= args@[0]@.drop_first());
        let signal = match parse_signal_spec(rest_chars.as_str()) {
            Ok(s) => s,
            Err(m) => {
                return Err(m);
            },
        };
        if args.len() == 1 {
            return Err("usage: kill [-SIGNAL] <pid|%job>...".to_string());
        }
        Ok((signal, slice_subrange(args, 1, args.len())))
    } else {
        Ok((15, args))
    }
}

/// The job id `fg` or `bg` acts on: `current` when no argument is given,
/// else the one argument; trouble is reported as `command`'s.
pub fn resolve_job_id(args: &[String], command: &str, current: Option<JobId>) -> (r: Result<
    JobId,
    CommandOutput,
>)
    ensures
        args@.len() == 0 ==> match current {
            Some(id) => r == Ok::<JobId, CommandOutput>(id),
            None => r matches Err(o) && o.exit_code == ExitCode(1) && o.stdout@.len() == 0
                && o.stderr@ == command@ + ": no current job\n"@,
        },
        args@.len() == 1 ==> match job_id_spec(args@[0]@) {
            Some(id) => r == Ok::<JobId, CommandOutput>(id),
            None => r matches Err(o) && o.exit_code == ExitCode(1) && o.stdout@.len() == 0
                && o.stderr@ == command@ + ": "@ + "invalid job id: "@ + args@[0]@ + "\n"@,
        },
        args@.len() > 1 ==> (r matches Err(o) && o.exit_code == ExitCode(1) && o.stdout@.len() == 0
            && o.stderr@ == command@ + ": expected at most one job id\n"@),
{
    if args.len() == 0 {
        match current {
            Some(id) => Ok(id),
            None => {
                let mut e = command.to_string();
                e.append(": no current job\n");
                Err(CommandOutput::failure(ExitCode(1), e))
            },
        }
    } else if args.len() == 1 {
        match parse_job_id(args[0].as_str()) {
            Ok(id) => Ok(id),
            Err(m) => {
                let ghost mv = m@;
                let mut e = command.to_string();
                e.append(": ");
                e.append(m.as_str());
                e.append("\n");
                assert(e@ =~= command@ + ": "@ + "invalid job id: "@ + args@[0]@ + "\n"@);
                Err(CommandOutput::failure(ExitCode(1), e))
            },
        }
    } else {
        let mut e = command.to_string();
        e.append(": expected at most one job id\n");
        Err(CommandOutput::failure(ExitCode(1), e))
    }
}

/// Whether `id` is the current job: the newest job that has not
/// completed.
pub open spec fn is_current_job(t: JobsV, id: JobId) -> bool {
    &&& t.jobs.contains_key(id)
    &&& t.jobs[id].state != JobState::Completed
    &&& forall|k: JobId| #[trigger] t.jobs.contains_key(k) && k > id ==> t.jobs[k].state == JobState::Completed
}

/// The job `fg` and `bg` act on when given none: the newest job that has
/// not completed, if any.
pub fn current_job(jobs: &Jobs) -> (r: Option<JobId>)
    requires
        jobs.wf(),
    ensures
        match r {
            Some(id) => is_current_job(jobs.view(), id),
            None => forall|k: JobId| #[trigger] jobs.view().jobs.contains_key(k) ==> jobs.view().jobs[k].state
                == JobState::Completed,
        },
{
    let all = jobs.iter();
    let ghost t = jobs.view();
    let ghost ids = choose|ids: Seq<JobId>|
        {
            &&& ids_in_order(ids, t.jobs)
            &&& all@.len() == ids.len()
            &&& forall|i: int| 0 <= i < ids.len() ==> (#[trigger] all@[i]).view() == t.jobs[ids[i]]
        };
    let mut i = all.len();
    while i > 0
        invariant
            i <= all@.len(),
            all@.len() == ids.len(),
            t == jobs.view(),
            jobs.wf(),
            ids_in_order(ids, t.jobs),
            forall|m: int| 0 <= m < ids.len() ==> (#[trigger] all@[m]).view() == t.jobs[ids[m]],
            forall|m: int| i <= m < ids.len() ==> t.jobs[#[trigger] ids[m]].state == JobState::Completed,
        decreases i,
    {
        let job = all[i - 1];
        if job.state() != JobState::Completed {
            proof {
                let id = ids[i - 1];
                assert(ids.to_set().contains(id));
                assert(t.jobs.contains_key(id));
                assert(t.jobs[id].id == id);
                assert forall|k: JobId| #[trigger] t.jobs.contains_key(k) && k > id implies t.jobs[k].state
                    == JobState::Completed by {
                    assert(ids.to_set().contains(k));
                    let m = choose|m: int| 0 <= m < ids.len() && ids[m] == k;
                    if m <= i - 1 {
                        if m < i - 1 {
                            assert(ids[m] < ids[i - 1]);
                        }
                    }
                }
            }
            return Some(job.id());
        }
        i -= 1;
    }
    proof {
        assert forall|k: JobId| #[trigger] t.jobs.contains_key(k) implies t.jobs[k].state
            == JobState::Completed by {
            assert(ids.to_set().contains(k));
            let m = choose|m: int| 0 <= m < ids.len() && ids[m] == k;
            assert(t.jobs[ids[m]].state == JobState::Completed);
        }
    }
    None
}

pub struct JobsBuiltin;

impl JobsBuiltin {
    /// Lists the stopped jobs and the running background jobs, in order of
    /// id; it takes no arguments.
    pub fn run(&self, jobs: &Jobs, args: &[String]) -> (r: CommandOutput)
        ensures
            args@.len() > 0 ==> r.exit_code == ExitCode(1) && r.stdout@.len() == 0 && r.stderr@
                == "jobs: expected no arguments\n"@,
            args@.len() == 0 ==> r.exit_code == ExitCode(0) && r.stderr@.len() == 0 && exists|
                ids: Seq<JobId>,
            |
                ids_in_order(ids, jobs.view().jobs) && r.stdout@ == jobs_listing(
                    ids.map_values(|k: JobId| jobs.view().jobs[k]),
                ),
    {
        if args.len() > 0 {
            return CommandOutput::failure(ExitCode(1), "jobs: expected no arguments\n".to_string());
        }
        let all = jobs.iter();
        let ghost ids = choose|ids: Seq<JobId>|
            {
                &&& ids_in_order(ids, jobs.view().jobs)
                &&& all@.len() == ids.len()
                &&& forall|i: int| 0 <= i < ids.len() ==> (#[trigger] all@[i]).view() == jobs.view().jobs[ids[i]]
            };
        let ghost js = ids.map_values(|k: JobId| jobs.view().jobs[k]);
        let mut out = String::new();
        let mut i: usize = 0;
        while i < all.len()
            invariant
                0 <= i <= all@.len(),
                all@.len() == js.len(),
                forall|k: int| 0 <= k < js.len() ==> (#[trigger] all@[k]).view() == js[k],
                out@ == jobs_listing(js.subrange(0, i as int)),
            decreases all@.len() - i,
        {
            let job = all[i];
            assert(js.subrange(0, i + 1).drop_last() =~= js.subrange(0, i as int));
            assert(js.subrange(0, i + 1).last() == job.view());
            if should_display_job(job.state(), job.disposition()) {
                let line = format_job(job.id(), job.state(), job.summary());
                out.append(line.as_str());
            } else {
                assert(out@ =~= out@ + Seq::<char>::empty());
            }
            i += 1;
        }
        assert(js.subrange(0, js.len() as int) =~= js);
        CommandOutput { exit_code: ExitCode(0), stdout: out, stderr: String::new() }
    }
}

pub struct FgBuiltin;

impl FgBuiltin {
    /// What `fg` reports once job `job_id` was brought to the foreground:
    /// the job's own output, or that there is no such job.
    pub fn report(&self, job_id: JobId, outcome: Option<CommandOutput>) -> (r: CommandOutput)
        ensures
            match outcome {
                Some(o) => r == o,
                None => r.exit_code == ExitCode(1) && r.stdout@.len() == 0 && r.stderr@
                    == "fg: no such job: %"@ + decimal(job_id as nat) + "\n"@,
            },
    {
        match outcome {
            Some(o) => o,
            None => {
                let mut e = "fg: no such job: %".to_string();
                let id = decimal_string(job_id);
                e.append(id.as_str());
                e.append("\n");
                CommandOutput::failure(ExitCode(1), e)
            },
        }
    }
}

pub struct BgBuiltin;

impl BgBuiltin {
    /// The summary of job `job_id`, empty when there is no such job.
    pub fn summary_of(&self, jobs: &Jobs, job_id: JobId) -> (r: String)
        ensures
            jobs.view().jobs.contains_key(job_id) ==> r@ == jobs.view().jobs[job_id].summary,
            !jobs.view().jobs.contains_key(job_id) ==> r@.len() == 0,
    {
        match jobs.get(job_id) {
            Some(job) => job.summary().to_string(),
            None => String::new(),
        }
    }

    /// What `bg` reports once job `job_id`, shown as `summary`, was
    /// continued in the background: a failure as it came, else
    /// `[id] summary`; or that there is no such job.
    pub fn report(&self, job_id: JobId, summary: &str, outcome: Option<CommandOutput>) -> (r:
        CommandOutput)
        ensures
            match outcome {
                Some(o) => if o.exit_code.0 != 0 {
                    r == o
                } else {
                    r.exit_code == ExitCode(0) && r.stderr@.len() == 0 && r.stdout@ == "["@
                        + decimal(job_id as nat) + "] "@ + summary@ + "\n"@
                },
                None => r.exit_code == ExitCode(1) && r.stdout@.len() == 0 && r.stderr@
                    == "bg: no such job: %"@ + decimal(job_id as nat) + "\n"@,
            },
    {
        match outcome {
            Some(o) => {
                if o.exit_code.is_failure() {
                    o
                } else {
                    let mut out = "[".to_string();
                    let id = decimal_string(job_id);
                    out.append(id.as_str());
                    out.append("] ");
                    out.append(summary);
                    out.append("\n");
                    CommandOutput { exit_code: ExitCode(0), stdout: out, stderr: String::new() }
                }
            },
            None => {
                let mut e = "bg: no such job: %".to_string();
                let id = decimal_string(job_id);
                e.append(id.as_str());
                e.append("\n");
                CommandOutput::failure(ExitCode(1), e)
            },
        }
    }
}

/// What `kill` does with one target.
#[derive(Debug)]
pub enum KillStep {
    /// Signal the process group of job `job_id`.
    SignalGroup { job_id: JobId, pgid: u32 },
    /// Signal process `pid`.
    SignalProcess { pid: u32 },
    /// Nothing to signal: report this line.
    Report(String),
}

pub struct KillBuiltin;

impl KillBuiltin {
    /// The step for `target`: `%job` names a job of `jobs`, anything else
    /// a process id.
    pub fn plan(&self, jobs: &Jobs, target: &str) -> (r: KillStep)
        ensures
            target@.len() > 0 && target@[0] == '%' ==> match job_id_spec(target@) {
                None => r matches KillStep::Report(m) && m@ == "kill: "@ + "invalid job id: "@
                    + target@ + "\n"@,
                Some(id) => if jobs.view().jobs.contains_key(id) {
                    r == KillStep::SignalGroup { job_id: id, pgid: jobs.view().jobs[id].pgid }
                } else {
                    r matches KillStep::Report(m) && m@ == "kill: no such job: %"@
                        + target@.drop_first() + "\n"@
                },
            },
            !(target@.len() > 0 && target@[0] == '%') ==> match parse_unsigned_spec(
                target@,
                u32::MAX as nat,
            ) {
                Some(pid) => r == KillStep::SignalProcess { pid: pid as u32 },
                None => r matches KillStep::Report(m) && m@ == "kill: invalid pid: "@ + target@
                    + "\n"@,
            },
    {
        let chars = chars_of(target);
        if chars.len() > 0 && chars[0] == '%' {
            match parse_job_id(target) {
                Err(m) => {
                    let mut line = "kill: ".to_string();
                    line.append(m.as_str());
                    line.append("\n");
                    assert(line@ =~= "kill: "@ + "invalid job id: "@ + target@ + "\n"@);
                    KillStep::Report(line)
                },
                Ok(id) => match jobs.get(id) {
                    Some(job) => KillStep::SignalGroup { job_id: id, pgid: job.pgid() },
                    None => {
                        let job = string_from_chars(slice_subrange(chars.as_slice(), 1, chars.len()));
                        let mut line = "kill: no such job: %".to_string();
                        line.append(job.as_str());
                        line.append("\n");
                        KillStep::Report(line)
                    },
                },
            }
        } else {
            match parse_unsigned(target, 0xffff_ffff) {
                Some(pid) => KillStep::SignalProcess { pid: pid as u32 },
                None => {
                    let mut line = "kill: invalid pid: ".to_string();
                    line.append(target);
                    line.append("\n");
                    KillStep::Report(line)
                },
            }
        }
    }

    /// What `kill` reports after all targets: success when nothing went
    /// wrong, else failure with the lines gathered in `stderr`.
    pub fn finish(&self, stderr: String) -> (r: CommandOutput)
        ensures
            stderr@.len() == 0 ==> r.exit_code == ExitCode(0) && r.stdout@.len() == 0
                && r.stderr@.len() == 0,
            stderr@.len() > 0 ==> r.exit_code == ExitCode(1) && r.stdout@.len() == 0 && r.stderr@
                == stderr@,
    {
        if stderr.as_str().unicode_len() == 0 {
            CommandOutput::success()
        } else {
            CommandOutput::failure(ExitCode(1), stderr)
        }
    }
}

} // verus!
