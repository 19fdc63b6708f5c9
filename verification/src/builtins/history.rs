//! `history`: lists the commands entered.
use vstd::prelude::*;
use vstd::string::StringExecFns;

use crate::expand::decimal;
use crate::numbers::{pad_left, padded_decimal};
use crate::shell::state::HistoryState;
use crate::shell::{CommandOutput, ExitCode};
use crate::text::string_from_chars;

verus! {

/// One line of the listing: the entry's number right-aligned in five
/// columns, a space, the entry.
pub open spec fn history_line(n: nat, entry: Seq<char>) -> Seq<char> {
    pad_left(decimal(n), 5) + " "@ + entry + "\n"@
}

/// The listing of `entries`, numbered from 1.
pub open spec fn history_listing(entries: Seq<Seq<char>>) -> Seq<char>
    decreases entries.len(),
{
    if entries.len() == 0 {
        Seq::empty()
    } else {
        history_listing(entries.drop_last()) + history_line(entries.len(), entries.last())
    }
}

pub struct HistoryBuiltin;

impl HistoryBuiltin {
    /// Lists the entries of `history`, numbered from 1.
    pub fn run(&self, history: &HistoryState) -> (r: CommandOutput)
        ensures
            r.exit_code == ExitCode(0),
            r.stdout@ == history_listing(history.view()),
            r.stderr@ == Seq::<char>::empty(),
    {
        let entries = history.entries();
        let ghost es = history.view();
        let mut out = String::new();
        let mut i: usize = 0;
        while i < entries.len()
            invariant
                0 <= i <= entries@.len(),
                es == crate::shell::state::strings_view(entries@),
                out@ == history_listing(es.subrange(0, i as int)),
            decreases entries@.len() - i,
        {
            let n = padded_decimal(i as u64 + 1, 5);
            let ns = string_from_chars(n.as_slice());
            out.append(ns.as_str());
            out.append(" ");
            out.append(entries[i].as_str());
            out.append("\n");
            assert(es.subrange(0, i + 1).drop_last() =~= es.subrange(0, i as int));
            i += 1;
        }
        assert(es.subrange(0, entries@.len() as int) =~= es);
        CommandOutput { exit_code: ExitCode(0), stdout: out, stderr: String::new() }
    }
}

} // verus!
