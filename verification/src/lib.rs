//! A POSIX-flavoured command shell, as a verified library: the tokenizer,
//! the chain and pipeline splitters, redirection handling, word expansion,
//! the job table, and the decision logic of the execution engine.

pub mod text;
pub mod env;
pub mod parser;
pub mod ast;
pub mod script_parser;
pub mod display;
pub mod status;
pub mod jobs;
pub mod job_control;
pub mod redirect;
pub mod resolve;
pub mod help;
pub mod builtins;
pub mod executor;
pub mod expander;
pub mod editor;
pub mod shell;
