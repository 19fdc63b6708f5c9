//! `alias`: defines and lists aliases.
use vstd::prelude::*;
use vstd::slice::slice_subrange;
use vstd::string::StringExecFns;

use crate::expand::{find_char, first_index_of};
use crate::shell::state::{strings_view, AliasStore};
use crate::shell::{CommandOutput, ExitCode};
use crate::table::{table_get, table_set};
use crate::text::{chars_of, is_whitespace, is_ws, string_from_chars};

verus! {

/// `s` split at its first `=`.
pub open spec fn split_at_equals(s: Seq<char>) -> Option<(Seq<char>, Seq<char>)> {
    match first_index_of(s, '=') {
        Some(k) => Some((s.subrange(0, k), s.subrange(k + 1, s.len() as int))),
        None => None,
    }
}

/// An alias name: not empty, without whitespace or `=`.
pub open spec fn valid_alias_name(n: Seq<char>) -> bool {
    n.len() > 0 && forall|i: int| 0 <= i < n.len() ==> !is_ws(#[trigger] n[i]) && n[i] != '='
}

/// `v` with each `'` written as `'\''`, so that it can stand between
/// single quotes.
pub open spec fn escape_single_quotes(v: Seq<char>) -> Seq<char>
    decreases v.len(),
{
    if v.len() == 0 {
        Seq::empty()
    } else {
        escape_single_quotes(v.drop_last()) + if v.last() == '\'' {
            seq!['\'', '\\', '\'', '\'']
        } else {
            seq![v.last()]
        }
    }
}

/// The line that shows an alias.
pub open spec fn alias_line(name: Seq<char>, value: Seq<char>) -> Seq<char> {
    "alias "@ + name + "='"@ + escape_single_quotes(value) + "'\n"@
}

/// The lines that show the aliases of `t`, in order.
pub open spec fn alias_listing(t: Seq<(Seq<char>, Seq<char>)>) -> Seq<char>
    decreases t.len(),
{
    if t.len() == 0 {
        Seq::empty()
    } else {
        alias_listing(t.drop_last()) + alias_line(t.last().0, t.last().1)
    }
}

/// The aliases, what is printed and reported, and whether all went well,
/// after one argument: `name=value` defines, `name` shows.
pub open spec fn alias_step(t: Seq<(Seq<char>, Seq<char>)>, arg: Seq<char>) -> (
    Seq<(Seq<char>, Seq<char>)>,
    Seq<char>,
    Seq<char>,
    bool,
) {
    match split_at_equals(arg) {
        Some((name, value)) => if valid_alias_name(name) {
            (table_set(t, name, value), Seq::empty(), Seq::empty(), true)
        } else {
            (t, Seq::empty(), "alias: invalid alias name: "@ + name + "\n"@, false)
        },
        None => match table_get(t, arg) {
            Some(value) => (t, alias_line(arg, value), Seq::empty(), true),
            None => (t, Seq::empty(), "alias: "@ + arg + ": not found\n"@, false),
        },
    }
}

/// The same after the arguments `args`, one after the other.
pub open spec fn alias_args(t: Seq<(Seq<char>, Seq<char>)>, args: Seq<Seq<char>>) -> (
    Seq<(Seq<char>, Seq<char>)>,
    Seq<char>,
    Seq<char>,
    bool,
)
    decreases args.len(),
{
    if args.len() == 0 {
        (t, Seq::empty(), Seq::empty(), true)
    } else {
        let (t1, o1, e1, k1) = alias_args(t, args.drop_last());
        let (t2, o2, e2, k2) = alias_step(t1, args.last());
        (t2, o1 + o2, e1 + e2, k1 && k2)
    }
}

/// `chars` split at the first `=`, as two strings.
pub fn split_chars_at_equals(chars: &Vec<char>) -> (r: Option<(String, String)>)
    ensures
        match r {
            Some((n, v)) => split_at_equals(chars@) == Some((n@, v@)),
            None => split_at_equals(chars@) is None,
        },
{
    match find_char(chars.as_slice(), '=') {
        Some(k) => {
            let n = chars.len();
            assert(k < n);
            let name = string_from_chars(slice_subrange(chars.as_slice(), 0, k));
            let value = string_from_chars(slice_subrange(chars.as_slice(), k + 1, n));
            Some((name, value))
        },
        None => None,
    }
}

fn is_valid_alias_name(name: &str) -> (b: bool)
    ensures
        b == valid_alias_name(name@),
{
    let chars = chars_of(name);
    if chars.len() == 0 {
        return false;
    }
    let mut i: usize = 0;
    while i < chars.len()
        invariant
            0 <= i <= chars@.len(),
            chars@ == name@,
            forall|j: int| 0 <= j < i ==> !is_ws(#[trigger] chars@[j]) && chars@[j] != '=',
        decreases chars@.len() - i,
    {
        if is_whitespace(chars[i]) || chars[i] == '=' {
            return false;
        }
        i += 1;
    }
    true
}

/// Appends `value` with its single quotes escaped.
fn push_escaped_single_quotes(out: &mut String, value: &str)
    ensures
        final(out)@ == old(out)@ + escape_single_quotes(value@),
{
    let chars = chars_of(value);
    let ghost o = out@;
    let mut piece: Vec<char> = Vec::new();
    let mut i: usize = 0;
    while i < chars.len()
        invariant
            0 <= i <= chars@.len(),
            chars@ == value@,
            piece@ == escape_single_quotes(chars@.subrange(0, i as int)),
        decreases chars@.len() - i,
    {
        let c = chars[i];
        if c == '\'' {
            piece.push('\'');
            piece.push('\\');
            piece.push('\'');
            piece.push('\'');
        } else {
            piece.push(c);
        }
        assert(chars@.subrange(0, i + 1).drop_last() =~= chars@.subrange(0, i as int));
        i += 1;
        assert(piece@ =~= escape_single_quotes(chars@.subrange(0, i as int)));
    }
    assert(chars@.subrange(0, chars@.len() as int) =~= chars@);
    let s = string_from_chars(piece.as_slice());
    out.append(s.as_str());
}

/// Appends the line that shows alias `name`.
fn push_alias_line(out: &mut String, name: &str, value: &str)
    ensures
        final(out)@ == old(out)@ + alias_line(name@, value@),
{
    let ghost o = out@;
    out.append("alias ");
    out.append(name);
    out.append("='");
    push_escaped_single_quotes(out, value);
    out.append("'\n");
    assert(out@ =~= o + alias_line(name@, value@));
}

pub struct AliasBuiltin;

impl AliasBuiltin {
    /// With no arguments, lists the aliases; otherwise defines each
    /// `name=value` and shows each `name`, reporting bad names and unknown
    /// aliases.
    pub fn run(&self, aliases: &mut AliasStore, args: &[String]) -> (r: CommandOutput)
        requires
            old(aliases).wf(),
        ensures
            final(aliases).wf(),
            args@.len() == 0 ==> final(aliases).view() == old(aliases).view() && r.exit_code
                == ExitCode(0) && r.stdout@ == alias_listing(old(aliases).view()) && r.stderr@.len()
                == 0,
            args@.len() > 0 ==> {
                let (t, o, e, ok) = alias_args(old(aliases).view(), strings_view(args@));
                &&& final(aliases).view() == t
                &&& r.stdout@ == o
                &&& r.stderr@ == e
                &&& r.exit_code == ExitCode(if ok { 0 } else { 1 })
            },
    {
        if args.len() == 0 {
            let entries = aliases.entries();
            let ghost t = aliases.view();
            let mut out = String::new();
            let mut i: usize = 0;
            while i < entries.len()
                invariant
                    0 <= i <= entries@.len(),
                    entries@.len() == t.len(),
                    forall|j: int|
                        0 <= j < entries@.len() ==> (#[trigger] entries@[j]).0@ == t[j].0
                            && entries@[j].1@ == t[j].1,
                    out@ == alias_listing(t.subrange(0, i as int)),
                decreases entries@.len() - i,
            {
                let (n, v) = entries[i];
                push_alias_line(&mut out, n, v);
                assert(t.subrange(0, i + 1).drop_last() =~= t.subrange(0, i as int));
                i += 1;
            }
            assert(t.subrange(0, t.len() as int) =~= t);
            return CommandOutput { exit_code: ExitCode(0), stdout: out, stderr: String::new() };
        }
        let ghost t0 = aliases.view();
        let ghost ws = strings_view(args@);
        let mut out = String::new();
        let mut err = String::new();
        let mut ok = true;
        let mut i: usize = 0;
        while i < args.len()
            invariant
                0 <= i <= args@.len(),
                ws == strings_view(args@),
                aliases.wf(),
                (aliases.view(), out@, err@, ok) == alias_args(t0, ws.subrange(0, i as int)),
            decreases args@.len() - i,
        {
            let arg = args[i].as_str();
            let chars = chars_of(arg);
            assert(ws.subrange(0, i + 1).drop_last() =~= ws.subrange(0, i as int));
            assert(ws.subrange(0, i + 1).last() == arg@);
            match split_chars_at_equals(&chars) {
                Some((name, value)) => {
                    if is_valid_alias_name(name.as_str()) {
                        aliases.set(name.as_str(), value.as_str());
                        assert(out@ =~= out@ + Seq::<char>::empty());
                    } else {
                        let ghost e0 = err@;
                        err.append("alias: invalid alias name: ");
                        err.append(name.as_str());
                        err.append("\n");
                        assert(err@ =~= e0 + ("alias: invalid alias name: "@ + name@ + "\n"@));
                        ok = false;
                    }
                },
                None => {
                    match aliases.get(arg) {
                        Some(value) => {
                            push_alias_line(&mut out, arg, value);
                        },
                        None => {
                            let ghost e0 = err@;
                            err.append("alias: ");
                            err.append(arg);
                            err.append(": not found\n");
                            assert(err@ =~= e0 + ("alias: "@ + arg@ + ": not found\n"@));
                            ok = false;
                        },
                    }
                },
            }
            proof {
                let (t1, o1, e1, k1) = alias_args(t0, ws.subrange(0, i as int));
                let (t2, o2, e2, k2) = alias_step(t1, arg@);
                assert(o1 + o2 == out@ || o2.len() > 0 || o1 + o2 =~= o1);
                assert(e1 + e2 == err@ || e2.len() > 0 || e1 + e2 =~= e1);
            }
            i += 1;
        }
        assert(ws.subrange(0, args@.len() as int) =~= ws);
        let code = if ok {
            ExitCode(0)
        } else {
            ExitCode(1)
        };
        CommandOutput { exit_code: code, stdout: out, stderr: err }
    }
}

} // verus!
