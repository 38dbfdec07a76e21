//! Core of an interactive command interpreter: tokenizer, word expansion,
//! parser, alias table, job table and the executor's decisions.

pub mod aliases;
pub mod builtins;
pub mod completion;
pub mod config;
pub mod diagnostics;
pub mod dirfreq;
pub mod error;
pub mod executor;
pub mod expand;
pub mod formatter;
pub mod jobs;
pub mod lexer;
pub mod numbers;
pub mod parser;
pub mod repl;
pub mod shell;
pub mod shell_config;
pub mod style;
pub mod text;
