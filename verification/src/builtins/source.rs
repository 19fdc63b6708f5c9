//! `source`: runs the commands of a file in the current shell.
use vstd::prelude::*;

use crate::shell::{CommandOutput, ExitCode};

verus! {

pub struct SourceBuiltin;

impl SourceBuiltin {
    /// The file to read: the one argument; no argument or more than one is
    /// reported instead.
    pub fn path<'a>(&self, args: &'a [String]) -> (r: Result<&'a String, CommandOutput>)
        ensures
            args@.len() == 1 ==> r == Ok::<&String, CommandOutput>(&args@[0]),
            args@.len() == 0 ==> (r matches Err(o) && o.exit_code == ExitCode(1) && o.stdout@.len()
                == 0 && o.stderr@ == "source: usage: source <path>\n"@),
            args@.len() > 1 ==> (r matches Err(o) && o.exit_code == ExitCode(1) && o.stdout@.len()
                == 0 && o.stderr@ == "source: too many arguments\n"@),
    {
        if args.len() == 1 {
            Ok(&args[0])
        } else if args.len() == 0 {
            Err(CommandOutput::failure(ExitCode(1), "source: usage: source <path>\n".to_string()))
        } else {
            Err(CommandOutput::failure(ExitCode(1), "source: too many arguments\n".to_string()))
        }
    }
}

} // verus!
