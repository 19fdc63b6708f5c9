//! The line editor's parts that decide: coloring, whether a line is
//! complete, and what the read-eval loop does with each line it reads.
//! Reading keys and drawing the screen are left to the binary.
pub mod highlighter;
pub mod validator;

use vstd::prelude::*;

use crate::parser::{spec_parse, ParseError, ParsedCommand, ParsedV, Parser, PErr};
use crate::shell::{ExitCode, ShellAction, ShellError, ShellState};
use crate::text::{all_ws, chars_of, has_non_whitespace, string_from_chars, trim, trim_chars};

verus! {

/// Whether the read-eval loop goes on.
#[derive(Debug, Clone, Copy, PartialEq, Eq, Structural)]
pub enum ReplFlow {
    Continue,
    Break,
}

/// What the loop does with a line it read: report a parse error, skip an
/// empty line, or run a command.
#[derive(Debug)]
pub enum LineStep {
    Rejected(ParseError),
    Skip,
    Execute(ParsedCommand),
}

/// Whether two states agree on everything but history and status.
pub open spec fn same_but_history_and_status(a: ShellState, b: ShellState) -> bool {
    &&& a.env_view() == b.env_view()
    &&& a.cwd_view() == b.cwd_view()
    &&& a.aliases_view() == b.aliases_view()
    &&& a.functions_view() == b.functions_view()
    &&& a.jobs_view() == b.jobs_view()
    &&& a.active_view() == b.active_view()
}

/// The parser and the executor of the read-eval loop.
pub struct ReplCore<E> {
    parser: Parser,
    executor: E,
}

impl<E> ReplCore<E> {
    pub fn new(executor: E) -> (r: Self)
        ensures
            r.executor_view() == executor,
    {
        ReplCore { parser: Parser::new(), executor }
    }

    pub closed spec fn executor_view(&self) -> E {
        self.executor
    }

    pub fn executor(&self) -> (r: &E)
        ensures
            *r == self.executor_view(),
    {
        &self.executor
    }

    /// A line was entered. A line that does not parse is reported and
    /// leaves the status failed; an empty command is skipped; any other is
    /// recorded in history, trimmed, unless it is blank, and handed on.
    pub fn accept_line(&self, state: &mut ShellState, buf: &str) -> (r: LineStep)
        ensures
            same_but_history_and_status(*final(state), *old(state)),
            final(state).history_view().file() == old(state).history_view().file(),
            match spec_parse(buf@) {
                Err(e) => {
                    &&& r matches LineStep::Rejected(pe) && pe.view() == e
                    &&& final(state).status_view() == ExitCode(1)
                    &&& final(state).history_view().view() == old(state).history_view().view()
                },
                Ok(ParsedV::Empty) => {
                    &&& r is Skip
                    &&& final(state).status_view() == old(state).status_view()
                    &&& final(state).history_view().view() == old(state).history_view().view()
                },
                Ok(c) => {
                    &&& r matches LineStep::Execute(cmd) && cmd.view() == c
                    &&& final(state).status_view() == old(state).status_view()
                    &&& final(state).history_view().view() == if all_ws(buf@) {
                        old(state).history_view().view()
                    } else {
                        old(state).history_view().view().push(trim(buf@))
                    }
                },
            },
    {
        match self.parser.parse(buf) {
            Err(err) => {
                state.set_last_exit_status(ExitCode::failure());
                LineStep::Rejected(err)
            },
            Ok(ParsedCommand::Empty) => LineStep::Skip,
            Ok(command) => {
                let chars = chars_of(buf);
                if has_non_whitespace(chars.as_slice()) {
                    let t = trim_chars(chars.as_slice());
                    let entry = string_from_chars(t.as_slice());
                    state.history_mut().push(entry.as_str());
                }
                LineStep::Execute(command)
            },
        }
    }

    /// A command ran: its status becomes the shell's. An exit request ends
    /// the loop with its code; an error leaves the status failed.
    pub fn finish(&self, state: &mut ShellState, result: &Result<ShellAction, ShellError>) -> (r: ReplFlow)
        ensures
            same_but_history_and_status(*final(state), *old(state)),
            final(state).history_view() == old(state).history_view(),
            match result {
                Ok(ShellAction::Continue(output)) => r == ReplFlow::Continue
                    && final(state).status_view() == output.exit_code,
                Ok(ShellAction::Exit(code)) => r == ReplFlow::Break && final(state).status_view()
                    == *code,
                Err(_) => r == ReplFlow::Continue && final(state).status_view() == ExitCode(1),
            },
    {
        match result {
            Ok(ShellAction::Continue(output)) => {
                state.set_last_exit_status(output.exit_code);
                ReplFlow::Continue
            },
            Ok(ShellAction::Exit(code)) => {
                state.set_last_exit_status(*code);
                ReplFlow::Break
            },
            Err(_) => {
                state.set_last_exit_status(ExitCode::failure());
                ReplFlow::Continue
            },
        }
    }

    /// Ctrl-C at the prompt: the status fails and the loop goes on.
    pub fn interrupted(&self, state: &mut ShellState) -> (r: ReplFlow)
        ensures
            r == ReplFlow::Continue,
            final(state).status_view() == ExitCode(1),
            same_but_history_and_status(*final(state), *old(state)),
            final(state).history_view() == old(state).history_view(),
    {
        state.set_last_exit_status(ExitCode::failure());
        ReplFlow::Continue
    }

    /// Ctrl-D at the prompt ends the loop.
    pub fn end_of_input(&self) -> (r: ReplFlow)
        ensures
            r == ReplFlow::Break,
    {
        ReplFlow::Break
    }
}

/// The bytes `ESC [ 2 SP q` that ask the terminal for a steady block cursor.
pub open spec fn block_cursor_sequence() -> Seq<u8> {
    seq![0x1bu8, 0x5bu8, 0x32u8, 0x20u8, 0x71u8]
}

/// Writes the request for a block cursor.
pub fn set_block_cursor(out: &mut Vec<u8>) -> (r: Result<(), std::io::Error>)
    ensures
        r is Ok,
        final(out)@ == old(out)@ + block_cursor_sequence(),
{
    out.push(0x1bu8);
    out.push(0x5bu8);
    out.push(0x32u8);
    out.push(0x20u8);
    out.push(0x71u8);
    assert(out@ =~= old(out)@ + block_cursor_sequence());
    Ok(())
}

} // verus!
