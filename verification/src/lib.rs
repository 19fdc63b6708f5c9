//! A Unix shell core: lexing, parsing, word expansion, globbing, job
//! bookkeeping and the decisions of the builtins, each with a contract.
pub mod text;
pub mod shell;
pub mod expand;
pub mod ast;
pub mod lexer;
pub mod parser;
pub mod heredoc;
pub mod jobs;
pub mod table;
pub mod numbers;
pub mod builtins;
pub mod glob;
pub mod runtime;
pub mod config;
pub mod ui;
pub mod history;
pub mod prompt;
pub mod completion;
pub mod cli;
pub mod assignments;
pub mod token_laws;
