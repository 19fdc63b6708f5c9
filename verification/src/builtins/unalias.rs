//! `unalias`: forgets aliases.
use vstd::prelude::*;
use vstd::string::StringExecFns;

use crate::shell::state::{strings_view, AliasStore};
use crate::shell::{CommandOutput, ExitCode};
use crate::table::{table_get, table_remove};

verus! {

/// The aliases, what is reported, and whether all went well, after the
/// names `args` are forgotten one after the other.
pub open spec fn unalias_args(t: Seq<(Seq<char>, Seq<char>)>, args: Seq<Seq<char>>) -> (
    Seq<(Seq<char>, Seq<char>)>,
    Seq<char>,
    bool,
)
    decreases args.len(),
{
    if args.len() == 0 {
        (t, Seq::empty(), true)
    } else {
        let (t1, e1, k1) = unalias_args(t, args.drop_last());
        let name = args.last();
        if table_get(t1, name) is Some {
            (table_remove(t1, name), e1, k1)
        } else {
            (t1, e1 + "unalias: "@ + name + ": not found\n"@, false)
        }
    }
}

pub struct UnaliasBuiltin;

impl UnaliasBuiltin {
    /// Forgets each alias named; an unknown one is reported. At least one
    /// name is needed.
    pub fn run(&self, aliases: &mut AliasStore, args: &[String]) -> (r: CommandOutput)
        requires
            old(aliases).wf(),
        ensures
            final(aliases).wf(),
            args@.len() == 0 ==> final(aliases).view() == old(aliases).view() && r.exit_code
                == ExitCode(1) && r.stdout@.len() == 0 && r.stderr@
                == "unalias: expected at least one argument\n"@,
            args@.len() > 0 ==> {
                let (t, e, ok) = unalias_args(old(aliases).view(), strings_view(args@));
                &&& final(aliases).view() == t
                &&& r.stdout@.len() == 0
                &&& r.stderr@ == e
                &&& r.exit_code == ExitCode(if ok { 0 } else { 1 })
            },
    {
        if args.len() == 0 {
            return CommandOutput::failure(
                ExitCode(1),
                "unalias: expected at least one argument\n".to_string(),
            );
        }
        let ghost t0 = aliases.view();
        let ghost ws = strings_view(args@);
        let mut err = String::new();
        let mut ok = true;
        let mut i: usize = 0;
        while i < args.len()
            invariant
                0 <= i <= args@.len(),
                ws == strings_view(args@),
                aliases.wf(),
                (aliases.view(), err@, ok) == unalias_args(t0, ws.subrange(0, i as int)),
            decreases args@.len() - i,
        {
            let name = args[i].as_str();
            assert(ws.subrange(0, i + 1).drop_last() =~= ws.subrange(0, i as int));
            assert(ws.subrange(0, i + 1).last() == name@);
            let ghost before = aliases.view();
            match aliases.remove(name) {
                Some(_) => {},
                None => {
                    assert(aliases.view() =~= before) by {
                        crate::table::lemma_find_name(before, name@, 0);
                    }
                    let ghost e0 = err@;
                    err.append("unalias: ");
                    err.append(name);
                    err.append(": not found\n");
                    assert(err@ =~= e0 + "unalias: "@ + name@ + ": not found\n"@);
                    ok = false;
                },
            }
            i += 1;
        }
        assert(ws.subrange(0, args@.len() as int) =~= ws);
        let code = if ok {
            ExitCode(0)
        } else {
            ExitCode(1)
        };
        CommandOutput { exit_code: code, stdout: String::new(), stderr: err }
    }
}

} // verus!
