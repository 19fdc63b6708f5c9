//! Whether a line typed so far is a whole command, or the editor should
//! ask for more.
use vstd::prelude::*;

use crate::parser::{spec_parse, ParseErrorKind, ParsedV, Parser, PErr};

verus! {

/// The editor's answer for a line: run it, or read another line into it.
#[derive(Debug, Clone, Copy, PartialEq, Eq, Structural)]
pub enum Validation {
    Complete,
    Incomplete,
}

/// A line is incomplete exactly when it fails to parse for want of more
/// input; a line that can never parse is complete, so that its error shows.
pub open spec fn validation_of(parsed: Result<ParsedV, PErr>) -> Validation {
    match parsed {
        Err(e) => if e.kind == ParseErrorKind::Incomplete {
            Validation::Incomplete
        } else {
            Validation::Complete
        },
        Ok(_) => Validation::Complete,
    }
}

/// Judges lines with the shell's parser.
#[derive(Debug)]
pub struct ParserValidator {
    parser: Parser,
}

impl ParserValidator {
    pub fn new() -> Self {
        ParserValidator { parser: Parser::new() }
    }

    pub fn validate(&self, line: &str) -> (r: Validation)
        ensures
            r == validation_of(spec_parse(line@)),
    {
        match self.parser.parse(line) {
            Ok(_) => Validation::Complete,
            Err(err) => match err.kind {
                ParseErrorKind::Incomplete => Validation::Incomplete,
                ParseErrorKind::Invalid => Validation::Complete,
            },
        }
    }
}

impl Default for ParserValidator {
    fn default() -> Self {
        ParserValidator::new()
    }
}

} // verus!
