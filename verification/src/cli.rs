//! What the command line asks for. Reading the arguments and printing are
//! left to the binary.
use vstd::prelude::*;
use vstd::string::StringExecFns;

use crate::builtins::echo::{join_spaced, join_words};
use crate::shell::state::strings_view;
use crate::text::str_eq;

verus! {

/// What the shell was started to do.
#[derive(Debug, PartialEq, Eq)]
pub enum CliRequest {
    /// No arguments: read commands interactively.
    Interactive,
    Help,
    Version,
    /// `-c` with nothing after it.
    MissingCommand,
    /// `-c` and the command, its words joined with spaces.
    Run(String),
    /// Anything else, joined with spaces.
    Unsupported(String),
}

pub open spec fn is_one_of(a: Seq<char>, x: Seq<char>, y: Seq<char>) -> bool {
    a == x || a == y
}

/// Reads the arguments after the program name.
pub fn parse_cli(args: &[String]) -> (r: CliRequest)
    ensures
        args@.len() == 0 ==> r == CliRequest::Interactive,
        args@.len() == 1 && is_one_of(args@[0]@, "--help"@, "-h"@) ==> r == CliRequest::Help,
        args@.len() == 1 && is_one_of(args@[0]@, "--version"@, "-V"@) ==> r == CliRequest::Version,
        args@.len() == 1 && args@[0]@ == "-c"@ ==> r == CliRequest::MissingCommand,
        args@.len() >= 2 && args@[0]@ == "-c"@ ==> (r matches CliRequest::Run(c) && c@
            == join_spaced(strings_view(args@).drop_first())),
        (args@.len() == 1 && !is_one_of(args@[0]@, "--help"@, "-h"@) && !is_one_of(
            args@[0]@,
            "--version"@,
            "-V"@,
        ) && args@[0]@ != "-c"@) || (args@.len() >= 2 && args@[0]@ != "-c"@) ==> (r matches CliRequest::Unsupported(
            a,
        ) && a@ == join_spaced(strings_view(args@))),
{
    if args.len() == 0 {
        return CliRequest::Interactive;
    }
    let first = args[0].as_str();
    proof {
        reveal_strlit("--help");
        reveal_strlit("-h");
        reveal_strlit("--version");
        reveal_strlit("-V");
        reveal_strlit("-c");
        assert("--help"@[2] != "--version"@[2]);
        assert("-h"@[1] != "-V"@[1] && "-h"@[1] != "-c"@[1] && "-V"@[1] != "-c"@[1]);
    }
    if args.len() == 1 {
        if str_eq(first, "--help") || str_eq(first, "-h") {
            return CliRequest::Help;
        }
        if str_eq(first, "--version") || str_eq(first, "-V") {
            return CliRequest::Version;
        }
        if str_eq(first, "-c") {
            return CliRequest::MissingCommand;
        }
        return CliRequest::Unsupported(join_words(args));
    }
    if str_eq(first, "-c") {
        let rest = vstd::slice::slice_subrange(args, 1, args.len());
        assert(strings_view(rest@) =~= strings_view(args@).drop_first());
        CliRequest::Run(join_words(rest))
    } else {
        CliRequest::Unsupported(join_words(args))
    }
}

/// The line `--version` prints.
pub fn version_line(version: &str) -> (r: String)
    ensures
        r@ == "gshell "@ + version@,
{
    let mut out = "gshell ".to_string();
    out.append(version);
    out
}

/// What `--help` prints.
pub fn help_text(version: &str) -> (r: String)
    ensures
        r@ == "gshell "@ + version@ + "\n\nUsage:\n  gshell\n  gshell -c <command>\n  gshell --help\n  gshell --version\n\nStartup:\n  Reads ~/.gshrc when present.\n\nDocs:\n  Installation: https://github.com/emagjby/gshell/blob/main/docs/install.md\n  Configuration: https://github.com/emagjby/gshell/blob/main/docs/configuration.md"@,
{
    let mut out = version_line(version);
    out.append(
        "\n\nUsage:\n  gshell\n  gshell -c <command>\n  gshell --help\n  gshell --version\n\nStartup:\n  Reads ~/.gshrc when present.\n\nDocs:\n  Installation: https://github.com/emagjby/gshell/blob/main/docs/install.md\n  Configuration: https://github.com/emagjby/gshell/blob/main/docs/configuration.md",
    );
    out
}

/// The complaint for `-c` without a command.
pub fn missing_command_message() -> (r: String)
    ensures
        r@ == "gshell: missing command for -c\n\nRun `gshell --help` for usage."@,
{
    "gshell: missing command for -c\n\nRun `gshell --help` for usage.".to_string()
}

/// The complaint for arguments the shell does not take.
pub fn unsupported_message(joined: &str) -> (r: String)
    ensures
        r@ == "gshell: unsupported arguments: "@ + joined@ + "\n\nRun `gshell --help` for usage."@,
{
    let mut out = "gshell: unsupported arguments: ".to_string();
    out.append(joined);
    out.append("\n\nRun `gshell --help` for usage.");
    out
}

/// The status a request that is not a session ends with: 0 for help and
/// version, 2 for a missing or unsupported argument; `None` for the
/// requests that run commands.
pub fn request_exit_code(request: &CliRequest) -> (r: Option<i32>)
    ensures
        r == match request {
            CliRequest::Help | CliRequest::Version => Some(0i32),
            CliRequest::MissingCommand | CliRequest::Unsupported(_) => Some(2i32),
            CliRequest::Interactive | CliRequest::Run(_) => None,
        },
{
    match request {
        CliRequest::Help | CliRequest::Version => Some(0),
        CliRequest::MissingCommand | CliRequest::Unsupported(_) => Some(2),
        CliRequest::Interactive | CliRequest::Run(_) => None,
    }
}

} // verus!
