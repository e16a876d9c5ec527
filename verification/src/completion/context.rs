//! What the word under the cursor is expected to be.

use vstd::prelude::*;

verus! {

/// The completion context of a partly typed line.
#[derive(Debug, Clone, PartialEq, Eq)]
pub enum CompletionContext {
    /// Typing a command name (with the typed prefix).
    CommandName(String),
    /// Typing an argument of a command (command name, argument prefix).
    CommandArg(String, String),
    /// Typing a subcommand (command name, subcommand prefix).
    Subcommand(String, String),
    /// Typing an argument of a subcommand (command, subcommand, prefix).
    SubcommandArg(String, String, String),
    /// A path is expected.
    Path,
    /// A tag is expected.
    Tag,
    /// Nothing known is expected.
    Unknown,
}

/// Abstract form of a [`CompletionContext`].
pub enum ContextSpec {
    CommandName(Seq<char>),
    CommandArg(Seq<char>, Seq<char>),
    Subcommand(Seq<char>, Seq<char>),
    SubcommandArg(Seq<char>, Seq<char>, Seq<char>),
    Path,
    Tag,
    Unknown,
}

impl View for CompletionContext {
    type V = ContextSpec;

    open spec fn view(&self) -> ContextSpec {
        match self {
            CompletionContext::CommandName(a) => ContextSpec::CommandName(a@),
            CompletionContext::CommandArg(a, b) => ContextSpec::CommandArg(a@, b@),
            CompletionContext::Subcommand(a, b) => ContextSpec::Subcommand(a@, b@),
            CompletionContext::SubcommandArg(a, b, c) => ContextSpec::SubcommandArg(a@, b@, c@),
            CompletionContext::Path => ContextSpec::Path,
            CompletionContext::Tag => ContextSpec::Tag,
            CompletionContext::Unknown => ContextSpec::Unknown,
        }
    }
}

} // verus!
