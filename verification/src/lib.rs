//! Command dispatch and statement-boundary engine of an interactive database
//! console: a tree of tokenised commands, the readers that delimit their
//! arguments, completion over the same tree, and the stack of nested sessions.
//!
//! Text is modelled as a sequence of characters and every offset counts
//! characters.

pub mod cli;
pub mod command;
pub mod completion;
pub mod completion_cache;
pub mod console;
pub mod constants;
pub mod document;
pub mod execute;
pub mod exit;
pub mod history;
pub mod printer;
pub mod query;
pub mod repl;
pub mod replicas;
pub mod session;
pub mod statement;
pub mod style;
pub mod text;
pub mod token;
pub mod usage;
