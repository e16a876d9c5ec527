//! Tag patterns: regular expressions over tag names, compiled and matched
//! by the `regex` crate.

use vstd::prelude::*;

verus! {

#[verifier::external_type_specification]
#[verifier::external_body]
pub struct ExRegex(regex::Regex);

/// The error message `regex::Regex::new` gives for `pattern`, or `None` when
/// the pattern compiles.
pub uninterp spec fn regex_error(pattern: Seq<char>) -> Option<Seq<char>>;

/// Whether the regex compiled from `pattern` matches somewhere in `text`
/// (`regex::Regex::is_match`).
pub uninterp spec fn regex_match(pattern: Seq<char>, text: Seq<char>) -> bool;

/// A compiled tag pattern together with the source it was compiled from.
/// Values are only made by [`compile_regex`], so `regex` is always the
/// compilation of `source`.
pub struct TagPattern {
    source: String,
    regex: regex::Regex,
}

impl TagPattern {
    /// The pattern's source text.
    pub closed spec fn source(&self) -> Seq<char> {
        self.source@
    }

    /// Compiles `pattern`; on failure, the error message of the regex crate.
    pub fn new(pattern: &str) -> (r: Result<TagPattern, String>)
        ensures
            r is Ok <==> regex_error(pattern@) is None,
            r matches Ok(t) ==> t.source() == pattern@,
            r matches Err(m) ==> regex_error(pattern@) == Some(m@),
    {
        compile_regex(pattern)
    }

    /// Whether the pattern matches somewhere in `text`.
    pub fn is_match(&self, text: &str) -> (r: bool)
        ensures
            r == regex_match(self.source(), text@),
    {
        regex_is_match(self, text)
    }

    /// The pattern's source text.
    pub fn as_str(&self) -> (r: &str)
        ensures
            r@ == self.source(),
    {
        self.source.as_str()
    }
}

/// `regex::Regex::new`: compiles `pattern`. Claims that the result is `Ok`
/// exactly when the crate accepts the pattern, that an accepted pattern is
/// kept as the source, and that the error text is the crate's message for
/// this pattern (a function of the pattern alone).
#[verifier::external_body]
fn compile_regex(pattern: &str) -> (r: Result<TagPattern, String>)
    ensures
        r is Ok <==> regex_error(pattern@) is None,
        r matches Ok(t) ==> t.source() == pattern@,
        r matches Err(m) ==> regex_error(pattern@) == Some(m@),
{
    match regex::Regex::new(pattern) {
        Ok(re) => Ok(TagPattern { source: pattern.to_string(), regex: re }),
        Err(e) => Err(e.to_string()),
    }
}

/// `regex::Regex::is_match`: claims the answer is the crate's verdict for
/// the pattern's source and `text`.
#[verifier::external_body]
fn regex_is_match(p: &TagPattern, text: &str) -> (r: bool)
    ensures
        r == regex_match(p.source(), text@),
{
    p.regex.is_match(text)
}

} // verus!
