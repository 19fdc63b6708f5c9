//! `export`: sets and lists environment variables.
use vstd::prelude::*;
use vstd::string::StringExecFns;

use crate::builtins::alias::{split_at_equals, split_chars_at_equals};
use crate::expand::{is_valid_assignment_name, valid_name};
use crate::shell::state::{strings_view, ShellState};
use crate::shell::{CommandOutput, ExitCode};
use crate::table::{table_get, table_set};
use crate::text::{chars_of, string_from_chars};

verus! {

/// `v` with `\` and `"` escaped by a backslash, so that it can stand
/// between double quotes.
pub open spec fn escape_double_quotes(v: Seq<char>) -> Seq<char>
    decreases v.len(),
{
    if v.len() == 0 {
        Seq::empty()
    } else {
        escape_double_quotes(v.drop_last()) + if v.last() == '\\' || v.last() == '"' {
            seq!['\\', v.last()]
        } else {
            seq![v.last()]
        }
    }
}

/// The line that shows a variable.
pub open spec fn export_line(name: Seq<char>, value: Seq<char>) -> Seq<char> {
    "export "@ + name + "=\""@ + escape_double_quotes(value) + "\"\n"@
}

/// The lines that show the variables of `t`, in order.
pub open spec fn export_listing(t: Seq<(Seq<char>, Seq<char>)>) -> Seq<char>
    decreases t.len(),
{
    if t.len() == 0 {
        Seq::empty()
    } else {
        export_listing(t.drop_last()) + export_line(t.last().0, t.last().1)
    }
}

/// The variables, what is reported, and whether all went well, after one
/// argument: `name=value` sets; `name` makes sure the variable exists.
pub open spec fn export_step(t: Seq<(Seq<char>, Seq<char>)>, arg: Seq<char>) -> (
    Seq<(Seq<char>, Seq<char>)>,
    Seq<char>,
    bool,
) {
    match split_at_equals(arg) {
        Some((name, value)) => if valid_name(name) {
            (table_set(t, name, value), Seq::empty(), true)
        } else {
            (t, "export: invalid variable name: "@ + name + "\n"@, false)
        },
        None => if !valid_name(arg) {
            (t, "export: invalid variable name: "@ + arg + "\n"@, false)
        } else if table_get(t, arg) is Some {
            (t, Seq::empty(), true)
        } else {
            (table_set(t, arg, Seq::empty()), Seq::empty(), true)
        },
    }
}

/// The same after the arguments `args`, one after the other.
pub open spec fn export_args(t: Seq<(Seq<char>, Seq<char>)>, args: Seq<Seq<char>>) -> (
    Seq<(Seq<char>, Seq<char>)>,
    Seq<char>,
    bool,
)
    decreases args.len(),
{
    if args.len() == 0 {
        (t, Seq::empty(), true)
    } else {
        let (t1, e1, k1) = export_args(t, args.drop_last());
        let (t2, e2, k2) = export_step(t1, args.last());
        (t2, e1 + e2, k1 && k2)
    }
}

/// Appends `value` with `\` and `"` escaped.
fn push_escaped_double_quotes(out: &mut String, value: &str)
    ensures
        final(out)@ == old(out)@ + escape_double_quotes(value@),
{
    let chars = chars_of(value);
    let mut piece: Vec<char> = Vec::new();
    let mut i: usize = 0;
    while i < chars.len()
        invariant
            0 <= i <= chars@.len(),
            chars@ == value@,
            piece@ == escape_double_quotes(chars@.subrange(0, i as int)),
        decreases chars@.len() - i,
    {
        let c = chars[i];
        if c == '\\' || c == '"' {
            piece.push('\\');
        }
        piece.push(c);
        assert(chars@.subrange(0, i + 1).drop_last() =~= chars@.subrange(0, i as int));
        i += 1;
        assert(piece@ =~= escape_double_quotes(chars@.subrange(0, i as int)));
    }
    assert(chars@.subrange(0, chars@.len() as int) =~= chars@);
    let s = string_from_chars(piece.as_slice());
    out.append(s.as_str());
}

pub struct ExportBuiltin;

impl ExportBuiltin {
    /// With no arguments, lists the variables in order of name; otherwise
    /// sets each `name=value` and makes sure each `name` exists, reporting
    /// bad names.
    pub fn run(&self, state: &mut ShellState, args: &[String]) -> (r: CommandOutput)
        requires
            old(state).wf(),
        ensures
            final(state).wf(),
            final(state).same_but_env(*old(state)),
            args@.len() == 0 ==> final(state).env_view() == old(state).env_view() && r.exit_code
                == ExitCode(0) && r.stdout@ == export_listing(old(state).env_view())
                && r.stderr@.len() == 0,
            args@.len() > 0 ==> {
                let (t, e, ok) = export_args(old(state).env_view(), strings_view(args@));
                &&& final(state).env_view() == t
                &&& r.stdout@.len() == 0
                &&& r.stderr@ == e
                &&& r.exit_code == ExitCode(if ok { 0 } else { 1 })
            },
    {
        if args.len() == 0 {
            let env = state.env();
            let ghost t = state.env_view();
            let mut out = String::new();
            let mut i: usize = 0;
            while i < env.len()
                invariant
                    0 <= i <= env@.len(),
                    crate::shell::state::text_pairs(env@) == t,
                    out@ == export_listing(t.subrange(0, i as int)),
                decreases env@.len() - i,
            {
                let (n, v) = &env[i];
                let ghost o = out@;
                out.append("export ");
                out.append(n.as_str());
                out.append("=\"");
                push_escaped_double_quotes(&mut out, v.as_str());
                out.append("\"\n");
                assert(out@ =~= o + export_line(n@, v@));
                assert(t.subrange(0, i + 1).drop_last() =~= t.subrange(0, i as int));
                i += 1;
            }
            assert(t.subrange(0, t.len() as int) =~= t);
            return CommandOutput { exit_code: ExitCode(0), stdout: out, stderr: String::new() };
        }
        let ghost s0 = *state;
        let ghost t0 = state.env_view();
        let ghost ws = strings_view(args@);
        let mut err = String::new();
        let mut ok = true;
        let mut i: usize = 0;
        while i < args.len()
            invariant
                0 <= i <= args@.len(),
                ws == strings_view(args@),
                state.wf(),
                state.same_but_env(s0),
                (state.env_view(), err@, ok) == export_args(t0, ws.subrange(0, i as int)),
            decreases args@.len() - i,
        {
            let arg = args[i].as_str();
            let chars = chars_of(arg);
            assert(ws.subrange(0, i + 1).drop_last() =~= ws.subrange(0, i as int));
            assert(ws.subrange(0, i + 1).last() == arg@);
            let ghost e0 = err@;
            match split_chars_at_equals(&chars) {
                Some((name, value)) => {
                    if is_valid_assignment_name(name.as_str()) {
                        state.set_env_var(name.as_str(), value.as_str());
                        assert(err@ =~= e0 + Seq::<char>::empty());
                    } else {
                        err.append("export: invalid variable name: ");
                        err.append(name.as_str());
                        err.append("\n");
                        assert(err@ =~= e0 + ("export: invalid variable name: "@ + name@ + "\n"@));
                        ok = false;
                    }
                },
                None => {
                    if !is_valid_assignment_name(arg) {
                        err.append("export: invalid variable name: ");
                        err.append(arg);
                        err.append("\n");
                        assert(err@ =~= e0 + ("export: invalid variable name: "@ + arg@ + "\n"@));
                        ok = false;
                    } else {
                        if state.env_var(arg).is_none() {
                            proof {
                                reveal_strlit("");
                            }
                            assert(""@ =~= Seq::<char>::empty());
                            state.set_env_var(arg, "");
                        }
                        assert(err@ =~= e0 + Seq::<char>::empty());
                    }
                },
            }
            proof {
                let (t1, e1, k1) = export_args(t0, ws.subrange(0, i as int));
                let (t2, e2, k2) = export_step(t1, arg@);
                assert(state.env_view() == t2);
                assert(err@ == e1 + e2);
                assert(ok == (k1 && k2));
            }
            i += 1;
        }
        assert(ws.subrange(0, args@.len() as int) =~= ws);
        let code = if ok {
            ExitCode(0)
        } else {
            ExitCode(1)
        };
        CommandOutput { exit_code: code, stdout: String::new(), stderr: err }
    }
}

} // verus!
