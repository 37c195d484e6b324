//! Core of a minimal interactive shell: a single-quote tokenizer, a
//! command classifier, a search-path resolver, and a dispatcher that
//! turns one input line into the action the surrounding loop must take.

pub mod command;
pub mod shell;
pub mod strings;
pub mod tokenizer;

pub use command::Command;
pub use shell::Action;
pub use shell::Shell;
pub use strings::str_eq;
pub use tokenizer::parse_args;
