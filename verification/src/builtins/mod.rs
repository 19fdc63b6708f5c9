//! The builtins' decisions: what each one prints, changes and reports for
//! its arguments. Running them under the state's lock, and the processes
//! and signals around them, is left to the binary.
pub mod alias;
pub mod cd;
pub mod clear;
pub mod echo;
pub mod exit;
pub mod export;
pub mod history;
pub mod jobs;
pub mod pwd;
pub mod source;
pub mod type_builtin;
pub mod unalias;

pub use alias::AliasBuiltin;
pub use cd::CdBuiltin;
pub use clear::ClearBuiltin;
pub use echo::EchoBuiltin;
pub use exit::ExitBuiltin;
pub use export::ExportBuiltin;
pub use history::HistoryBuiltin;
pub use jobs::{BgBuiltin, FgBuiltin, JobsBuiltin, KillBuiltin};
pub use pwd::PwdBuiltin;
pub use source::SourceBuiltin;
pub use type_builtin::{default_builtin_names, is_default_builtin, TypeBuiltin};
pub use unalias::UnaliasBuiltin;
