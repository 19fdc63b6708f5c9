//! `cd`: changes the working directory.
use vstd::prelude::*;

use crate::shell::{CommandOutput, ExitCode, ShellError, ShellResult};

verus! {

pub struct CdBuiltin;

impl CdBuiltin {
    /// The directory to change to: the one argument, or `home` when there
    /// is none (an error when `HOME` is not set); more than one argument is
    /// reported instead.
    pub fn target(&self, args: &[String], home: Option<&str>) -> (r: ShellResult<
        Result<String, CommandOutput>,
    >)
        ensures
            args@.len() == 0 ==> match home {
                Some(h) => r matches Ok(Ok(t)) && t@ == h@,
                None => r matches Err(ShellError::Message(m)) && m@ == "cd: HOME not set"@,
            },
            args@.len() == 1 ==> (r matches Ok(Ok(t)) && t@ == args@[0]@),
            args@.len() > 1 ==> (r matches Ok(Err(o)) && o.exit_code == ExitCode(1)
                && o.stdout@.len() == 0 && o.stderr@ == "cd: too many arguments\n"@),
    {
        if args.len() == 0 {
            match home {
                Some(h) => Ok(Ok(h.to_string())),
                None => Err(ShellError::Message("cd: HOME not set".to_string())),
            }
        } else if args.len() == 1 {
            Ok(Ok(args[0].clone()))
        } else {
            Ok(Err(CommandOutput::failure(ExitCode(1), "cd: too many arguments\n".to_string())))
        }
    }
}

} // verus!
