//! Path quoting rules: which paths must be wrapped in double quotes before a
//! command line is handed on, and how they are wrapped.

use vstd::prelude::*;
use crate::text::{chars_of, push_char};

verus! {

/// Characters that the shell or the command splitter would cut a path at:
/// blanks, brackets and shell operators. Path separators and `@` are not
/// among them.
pub open spec fn is_quote_trigger(c: char) -> bool {
    c == ' ' || c == '\t' || c == '(' || c == ')' || c == '[' || c == ']' || c == '{'
        || c == '}' || c == '&' || c == '|' || c == ';' || c == ',' || c == '^' || c == '!'
        || c == '`' || c == '$' || c == '#'
}

/// A path needs quoting when one of its characters is a quote trigger.
pub open spec fn spec_needs_quoting(s: Seq<char>) -> bool {
    exists|i: int| 0 <= i < s.len() && #[trigger] is_quote_trigger(s[i])
}

/// A path is already quoted when it is at least two characters long and
/// starts and ends with the same kind of quote (`"` or `'`).
pub open spec fn spec_is_already_quoted(s: Seq<char>) -> bool {
    s.len() >= 2 && ((s[0] == '"' && s[s.len() - 1] == '"') || (s[0] == '\''
        && s[s.len() - 1] == '\''))
}

/// The quoted form of a path: unchanged when already quoted, otherwise
/// wrapped in one pair of double quotes (whether or not it holds a quote
/// trigger).
pub open spec fn spec_ensure_quoted(s: Seq<char>) -> Seq<char> {
    if spec_is_already_quoted(s) {
        s
    } else {
        seq!['"'] + s + seq!['"']
    }
}

/// Whether `c` is one of the quote triggers.
pub fn is_quote_trigger_char(c: char) -> (r: bool)
    ensures
        r == is_quote_trigger(c),
{
    c == ' ' || c == '\t' || c == '(' || c == ')' || c == '[' || c == ']' || c == '{'
        || c == '}' || c == '&' || c == '|' || c == ';' || c == ',' || c == '^' || c == '!'
        || c == '`' || c == '$' || c == '#'
}

/// Whether the path holds a character that must be protected by quotes.
pub fn needs_quoting(path: &str) -> (r: bool)
    ensures
        r == spec_needs_quoting(path@),
{
    let cs = chars_of(path);
    let mut i: usize = 0;
    while i < cs.len()
        invariant
            cs@ == path@,
            i <= cs.len(),
            forall|j: int| 0 <= j < i ==> !is_quote_trigger(#[trigger] cs@[j]),
        decreases cs.len() - i,
    {
        if is_quote_trigger_char(cs[i]) {
            return true;
        }
        i = i + 1;
    }
    false
}

/// Whether the path is already wrapped in a pair of double or single quotes.
pub fn is_already_quoted(path: &str) -> (r: bool)
    ensures
        r == spec_is_already_quoted(path@),
{
    let cs = chars_of(path);
    if cs.len() < 2 {
        return false;
    }
    let first = cs[0];
    let last = cs[cs.len() - 1];
    (first == '"' && last == '"') || (first == '\'' && last == '\'')
}

/// The path wrapped in double quotes unless it is already quoted.
pub fn ensure_quoted(path: &str) -> (r: String)
    ensures
        r@ == spec_ensure_quoted(path@),
{
    if is_already_quoted(path) {
        return path.to_owned();
    }
    let mut out = String::new();
    push_char(&mut out, '"');
    out.append(path);
    push_char(&mut out, '"');
    out
}

} // verus!
