//! Exit codes, the output of a command, and what a command asks of the shell.
use vstd::prelude::*;

verus! {

/// The exit status of a command, as the byte a process reports.
#[derive(Debug, Clone, Copy, PartialEq, Eq, Structural, PartialOrd, Ord, Hash, Default)]
pub struct ExitCode(pub u8);

impl ExitCode {
    /// The status of a command that succeeded.
    pub fn success() -> (r: Self)
        ensures
            r.0 == 0,
    {
        ExitCode(0)
    }

    /// The status of a command that failed.
    pub fn failure() -> (r: Self)
        ensures
            r.0 == 1,
    {
        ExitCode(1)
    }

    pub fn new(code: u8) -> (r: Self)
        ensures
            r.0 == code,
    {
        ExitCode(code)
    }

    pub fn as_u8(&self) -> (r: u8)
        ensures
            r == self.0,
    {
        self.0
    }

    pub fn is_success(&self) -> (r: bool)
        ensures
            r == (self.0 == 0),
    {
        self.0 == 0
    }

    pub fn is_failure(&self) -> (r: bool)
        ensures
            r == (self.0 != 0),
    {
        !self.is_success()
    }
}

impl From<u8> for ExitCode {
    fn from(code: u8) -> (r: Self) {
        ExitCode(code)
    }
}

impl vstd::std_specs::convert::FromSpecImpl<u8> for ExitCode {
    open spec fn obeys_from_spec() -> bool {
        true
    }

    open spec fn from_spec(code: u8) -> Self {
        ExitCode(code)
    }
}

impl From<ExitCode> for u8 {
    fn from(code: ExitCode) -> (r: Self) {
        code.0
    }
}

impl vstd::std_specs::convert::FromSpecImpl<ExitCode> for u8 {
    open spec fn obeys_from_spec() -> bool {
        true
    }

    open spec fn from_spec(code: ExitCode) -> Self {
        code.0
    }
}

/// What a command printed and how it ended.
#[derive(Debug, Clone, PartialEq, Eq)]
pub struct CommandOutput {
    pub exit_code: ExitCode,
    pub stdout: String,
    pub stderr: String,
}

impl CommandOutput {
    /// Success with nothing printed.
    pub fn success() -> (r: Self)
        ensures
            r.exit_code.0 == 0,
            r.stdout@ == Seq::<char>::empty(),
            r.stderr@ == Seq::<char>::empty(),
    {
        CommandOutput { exit_code: ExitCode(0), stdout: String::new(), stderr: String::new() }
    }

    /// The given status with `stderr` as the error text and nothing on stdout.
    pub fn failure(exit_code: ExitCode, stderr: String) -> (r: Self)
        ensures
            r.exit_code == exit_code,
            r.stdout@ == Seq::<char>::empty(),
            r.stderr@ == stderr@,
    {
        CommandOutput { exit_code, stdout: String::new(), stderr }
    }

    /// A copy that keeps every field.
    pub fn duplicate(&self) -> (r: Self)
        ensures
            r.exit_code == self.exit_code,
            r.stdout@ == self.stdout@,
            r.stderr@ == self.stderr@,
    {
        CommandOutput {
            exit_code: self.exit_code,
            stdout: self.stdout.clone(),
            stderr: self.stderr.clone(),
        }
    }
}

impl Default for CommandOutput {
    fn default() -> (r: Self)
        ensures
            r.exit_code.0 == 0,
            r.stdout@ == Seq::<char>::empty(),
            r.stderr@ == Seq::<char>::empty(),
    {
        CommandOutput::success()
    }
}

/// What a command asks of the shell: go on with its output, or exit.
#[derive(Debug, Clone, PartialEq, Eq)]
pub enum ShellAction {
    Continue(CommandOutput),
    Exit(ExitCode),
}

impl ShellAction {
    pub fn continue_with(output: CommandOutput) -> (r: Self)
        ensures
            r == ShellAction::Continue(output),
    {
        ShellAction::Continue(output)
    }

    pub fn exit(code: ExitCode) -> (r: Self)
        ensures
            r == ShellAction::Exit(code),
    {
        ShellAction::Exit(code)
    }
}

} // verus!
