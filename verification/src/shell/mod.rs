//! Shell-wide types: exit codes, command output, errors and state.
pub mod error;
pub mod state;
pub mod types;

pub use error::{ShellError, ShellResult};
pub use state::{AliasStore, FunctionStore, HistoryState, ShellState};
pub use types::{CommandOutput, ExitCode, ShellAction};
