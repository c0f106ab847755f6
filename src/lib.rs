//! Task-runner discovery core: listing parsers, import resolution, header
//! tokenizing, execution-ledger ordering and candidate scoring.
pub mod cli;
pub mod command;
pub mod detect;
pub mod history;
pub mod parser;
pub mod score;
pub mod task_args;
pub mod tasks;
pub mod text;
