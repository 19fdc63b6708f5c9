//! `echo`: prints its arguments.
use vstd::prelude::*;
use vstd::string::StringExecFns;

use crate::shell::state::strings_view;
use crate::shell::{CommandOutput, ExitCode};

verus! {

/// The words joined with single spaces.
pub open spec fn join_spaced(ws: Seq<Seq<char>>) -> Seq<char>
    decreases ws.len(),
{
    if ws.len() == 0 {
        Seq::empty()
    } else if ws.len() == 1 {
        ws[0]
    } else {
        join_spaced(ws.drop_last()) + " "@ + ws.last()
    }
}

/// The words joined with single spaces (`[String]::join(" ")`).
pub fn join_words(words: &[String]) -> (r: String)
    ensures
        r@ == join_spaced(strings_view(words@)),
{
    let ghost ws = strings_view(words@);
    let mut out = String::new();
    let mut i: usize = 0;
    while i < words.len()
        invariant
            0 <= i <= words@.len(),
            ws == strings_view(words@),
            out@ == join_spaced(ws.subrange(0, i as int)),
        decreases words@.len() - i,
    {
        if i > 0 {
            out.append(" ");
        }
        out.append(words[i].as_str());
        assert(ws.subrange(0, i + 1).drop_last() =~= ws.subrange(0, i as int));
        i += 1;
    }
    assert(ws.subrange(0, words@.len() as int) =~= ws);
    out
}

pub struct EchoBuiltin;

impl EchoBuiltin {
    /// Prints the arguments separated by spaces, then a line break.
    pub fn run(&self, args: &[String]) -> (r: CommandOutput)
        ensures
            r.exit_code == ExitCode(0),
            r.stdout@ == join_spaced(strings_view(args@)) + "\n"@,
            r.stderr@ == Seq::<char>::empty(),
    {
        let mut out = join_words(args);
        out.append("\n");
        CommandOutput { exit_code: ExitCode(0), stdout: out, stderr: String::new() }
    }
}

} // verus!
