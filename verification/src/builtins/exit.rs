//! `exit`: leaves the shell with a status.
use vstd::prelude::*;
use vstd::string::StringExecFns;

use crate::numbers::{parse_unsigned, parse_unsigned_spec};
use crate::shell::{CommandOutput, ExitCode, ShellAction};

verus! {

pub struct ExitBuiltin;

impl ExitBuiltin {
    /// Exits with status 0, or with the one argument read as a byte; an
    /// argument that is not one, or more than one argument, is reported
    /// and the shell goes on.
    pub fn run(&self, args: &[String]) -> (r: ShellAction)
        ensures
            args@.len() == 0 ==> r == ShellAction::Exit(ExitCode(0)),
            args@.len() == 1 ==> match parse_unsigned_spec(args@[0]@, 255) {
                Some(v) => r == ShellAction::Exit(ExitCode(v as u8)),
                None => r matches ShellAction::Continue(o) && o.exit_code == ExitCode(1)
                    && o.stdout@.len() == 0 && o.stderr@ == "exit: numeric argument required: "@
                    + args@[0]@ + "\n"@,
            },
            args@.len() > 1 ==> (r matches ShellAction::Continue(o) && o.exit_code == ExitCode(1)
                && o.stdout@.len() == 0 && o.stderr@ == "exit: too many arguments\n"@),
    {
        if args.len() == 0 {
            ShellAction::Exit(ExitCode(0))
        } else if args.len() == 1 {
            match parse_unsigned(args[0].as_str(), 255) {
                Some(v) => ShellAction::Exit(ExitCode(v as u8)),
                None => {
                    let mut err = "exit: numeric argument required: ".to_string();
                    err.append(args[0].as_str());
                    err.append("\n");
                    ShellAction::Continue(CommandOutput::failure(ExitCode(1), err))
                },
            }
        } else {
            ShellAction::Continue(
                CommandOutput::failure(ExitCode(1), "exit: too many arguments\n".to_string()),
            )
        }
    }
}

} // verus!
