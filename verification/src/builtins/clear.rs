//! `clear`: clears the terminal.
use vstd::prelude::*;

use crate::shell::{CommandOutput, ExitCode};

verus! {

pub struct ClearBuiltin;

impl ClearBuiltin {
    /// Prints the sequences that erase the screen and home the cursor.
    pub fn run(&self) -> (r: CommandOutput)
        ensures
            r.exit_code == ExitCode(0),
            r.stdout@ == "\x1B[2J\x1B[H"@,
            r.stderr@ == Seq::<char>::empty(),
    {
        CommandOutput {
            exit_code: ExitCode(0),
            stdout: "\x1B[2J\x1B[H".to_string(),
            stderr: String::new(),
        }
    }
}

} // verus!
