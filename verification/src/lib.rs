//! Command-line file explorer core: quoting, completion, aliases, tags and
//! command parsing, with their contracts.

pub mod text;
pub mod quoting;
pub mod completion;
pub mod quote_context;
pub mod managers;
pub mod pattern;
pub mod cli;
pub mod cache;
pub mod numbers;
pub mod select;
pub mod pipeline;
pub mod command;
pub mod subcommands;
pub mod session;
pub mod laws;
pub mod shell;
pub mod ordering;
pub mod clock;
pub mod path_completion;
pub mod listing;
pub mod prompt;
pub mod words;
