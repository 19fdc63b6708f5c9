//! `pwd`: prints the working directory.
use vstd::prelude::*;
use vstd::string::StringExecFns;

use crate::shell::{CommandOutput, ExitCode};

verus! {

pub struct PwdBuiltin;

impl PwdBuiltin {
    /// Prints `cwd`, the working directory as text, on a line.
    pub fn run(&self, cwd: &str) -> (r: CommandOutput)
        ensures
            r.exit_code == ExitCode(0),
            r.stdout@ == cwd@ + "\n"@,
            r.stderr@ == Seq::<char>::empty(),
    {
        let mut out = cwd.to_string();
        out.append("\n");
        CommandOutput { exit_code: ExitCode(0), stdout: out, stderr: String::new() }
    }
}

} // verus!
