//! The shell's error type.
use vstd::prelude::*;

verus! {

#[verifier::external_type_specification]
#[verifier::external_body]
pub struct ExIoError(std::io::Error);

/// An error that stops a command: a failed system call, or a message.
#[derive(Debug)]
pub enum ShellError {
    Io(std::io::Error),
    Message(String),
}

pub type ShellResult<T> = Result<T, ShellError>;

impl ShellError {
    pub fn message(message: String) -> (r: Self)
        ensures
            r matches ShellError::Message(m) && m@ == message@,
    {
        ShellError::Message(message)
    }

    /// The text the shell prints for this error.
    pub fn describe(&self) -> (r: String)
        ensures
            self matches ShellError::Message(m) ==> r@ == m@,
            self is Io ==> crate::text::is_prefix("io error: "@, r@),
    {
        match self {
            ShellError::Io(err) => {
                let detail = io_error_detail(err);
                let r = crate::parser::concat_string("io error: ", detail);
                assert(r@.subrange(0, "io error: "@.len() as int) =~= "io error: "@);
                r
            },
            ShellError::Message(m) => m.clone(),
        }
    }
}

/// `err.to_string()`: the text `Display` gives an I/O error. It is the
/// operating system's message, or the one the error was made with, and
/// nothing is claimed of it.
#[verifier::external_body]
fn io_error_detail(err: &std::io::Error) -> (r: String) {
    err.to_string()
}

} // verus!
