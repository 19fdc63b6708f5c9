//! `type`: tells what a name runs as.
use vstd::prelude::*;
use vstd::string::StringExecFns;

use crate::shell::state::{AliasStore, FunctionStore};
use crate::shell::{CommandOutput, ExitCode};
use crate::table::table_get;
use crate::text::str_eq;

verus! {

/// The builtins the shell registers by default.
pub open spec fn default_builtin_names() -> Seq<Seq<char>> {
    seq![
        "history"@,
        "cd"@,
        "pwd"@,
        "echo"@,
        "clear"@,
        "type"@,
        "exit"@,
        "alias"@,
        "unalias"@,
        "jobs"@,
        "fg"@,
        "bg"@,
        "kill"@,
    ]
}

/// Whether `name` is one of the builtins registered by default.
pub fn is_default_builtin(name: &str) -> (b: bool)
    ensures
        b == default_builtin_names().contains(name@),
{
    let ghost ns = default_builtin_names();
    let b = str_eq(name, "history") || str_eq(name, "cd") || str_eq(name, "pwd") || str_eq(
        name,
        "echo",
    ) || str_eq(name, "clear") || str_eq(name, "type") || str_eq(name, "exit") || str_eq(
        name,
        "alias",
    ) || str_eq(name, "unalias") || str_eq(
        name,
        "jobs",
    ) || str_eq(name, "fg") || str_eq(name, "bg") || str_eq(name, "kill");
    assert(ns[0] == "history"@ && ns[1] == "cd"@ && ns[2] == "pwd"@ && ns[3] == "echo"@ && ns[4]
        == "clear"@ && ns[5] == "type"@ && ns[6] == "exit"@ && ns[7] == "alias"@ && ns[8]
        == "unalias"@ && ns[9] == "jobs"@ && ns[10] == "fg"@ && ns[11] == "bg"@ && ns[12]
        == "kill"@);
    if b {
        assert(ns.contains(name@));
    }
    b
}

/// What `type NAME` prints for a name: an alias first, then a function,
/// then a builtin; `None` when it is none of them.
pub open spec fn type_report(
    name: Seq<char>,
    aliases: Seq<(Seq<char>, Seq<char>)>,
    functions: Seq<Seq<char>>,
) -> Option<Seq<char>> {
    match table_get(aliases, name) {
        Some(value) => Some(name + " is aliased to `"@ + value + "`\n"@),
        None => if functions.contains(name) {
            Some(name + " is a shell function\n"@)
        } else if default_builtin_names().contains(name) {
            Some(name + " is a shell builtin\n"@)
        } else {
            None
        },
    }
}

/// The names of a function table.
pub open spec fn function_names(fs: FunctionStore) -> Seq<Seq<char>> {
    fs.view().map_values(|e: (Seq<char>, crate::ast::ExprV)| e.0)
}

pub struct TypeBuiltin;

impl TypeBuiltin {
    /// Says what the one argument runs as.
    pub fn run(&self, aliases: &AliasStore, functions: &FunctionStore, args: &[String]) -> (r:
        CommandOutput)
        ensures
            args@.len() != 1 ==> r.exit_code == ExitCode(1) && r.stdout@.len() == 0 && r.stderr@
                == "type: expected exactly one argument\n"@,
            args@.len() == 1 ==> match type_report(
                args@[0]@,
                aliases.view(),
                function_names(*functions),
            ) {
                Some(text) => r.exit_code == ExitCode(0) && r.stdout@ == text && r.stderr@.len()
                    == 0,
                None => r.exit_code == ExitCode(1) && r.stdout@.len() == 0 && r.stderr@ == "type: "@
                    + args@[0]@ + " not found\n"@,
            },
    {
        if args.len() != 1 {
            return CommandOutput::failure(
                ExitCode(1),
                "type: expected exactly one argument\n".to_string(),
            );
        }
        let needle = args[0].as_str();
        if let Some(value) = aliases.get(needle) {
            let mut out = needle.to_string();
            out.append(" is aliased to `");
            out.append(value);
            out.append("`\n");
            return CommandOutput { exit_code: ExitCode(0), stdout: out, stderr: String::new() };
        }
        let is_function = match functions.get(needle) {
            Some(_) => true,
            None => false,
        };
        proof {
            let names = function_names(*functions);
            crate::table::lemma_find_name(functions.view(), needle@, 0);
            if names.contains(needle@) {
                let k = choose|k: int| 0 <= k < names.len() && names[k] == needle@;
                assert(functions.view()[k].0 == needle@);
            }
            match crate::table::find_name(functions.view(), needle@, 0) {
                Some(j) => {
                    assert(names[j] == needle@);
                },
                None => {},
            }
        }
        if is_function {
            let mut out = needle.to_string();
            out.append(" is a shell function\n");
            CommandOutput { exit_code: ExitCode(0), stdout: out, stderr: String::new() }
        } else if is_default_builtin(needle) {
            let mut out = needle.to_string();
            out.append(" is a shell builtin\n");
            CommandOutput { exit_code: ExitCode(0), stdout: out, stderr: String::new() }
        } else {
            let mut err = "type: ".to_string();
            err.append(needle);
            err.append(" not found\n");
            CommandOutput::failure(ExitCode(1), err)
        }
    }
}

} // verus!
