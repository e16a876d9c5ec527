//! Where the cursor stands relative to quotes, and the single quoting policy
//! applied to completion candidates.

use vstd::prelude::*;
use crate::quoting::{ensure_quoted, spec_ensure_quoted};
use crate::text::{chars_after, chars_before, chars_of, is_boundary, split_chars_at, string_of};

verus! {

/// A completion candidate: the text shown in the list and the text that
/// replaces the word being completed.
#[derive(Debug, Clone, PartialEq, Eq)]
pub struct Pair {
    pub display: String,
    pub replacement: String,
}

/// `"` or `'`.
pub open spec fn is_quote(c: char) -> bool {
    c == '"' || c == '\''
}

/// Quote state after reading `p` from the start of the line: whether a quote
/// is open, and which quote character opened the last one (`"` when none was
/// ever opened). A quote closes only on the character that opened it.
pub open spec fn quote_state(p: Seq<char>) -> (bool, char)
    decreases p.len(),
{
    if p.len() == 0 {
        (false, '"')
    } else {
        let prev = quote_state(p.drop_last());
        let c = p.last();
        if is_quote(c) && !prev.0 {
            (true, c)
        } else if is_quote(c) && prev.0 && c == prev.1 {
            (false, prev.1)
        } else {
            prev
        }
    }
}

/// Whether the text before byte offset `pos` leaves a quote open, and the
/// quote character.
pub fn check_in_quote(line: &str, pos: usize) -> (r: (bool, char))
    requires
        is_boundary(line@, pos as int),
    ensures
        r == quote_state(chars_before(line@, pos as int)),
{
    let (before, _after) = split_chars_at(line, pos);
    let mut in_quote = false;
    let mut quote_char = '"';
    let mut i: usize = 0;
    while i < before.len()
        invariant
            i <= before.len(),
            (in_quote, quote_char) == quote_state(before@.take(i as int)),
        decreases before.len() - i,
    {
        let c = before[i];
        assert(before@.take(i + 1).drop_last() == before@.take(i as int));
        if (c == '"' || c == '\'') && !in_quote {
            in_quote = true;
            quote_char = c;
        } else if (c == '"' || c == '\'') && in_quote && c == quote_char {
            in_quote = false;
        }
        i = i + 1;
    }
    assert(before@.take(before.len() as int) == before@);
    (in_quote, quote_char)
}

/// Whether the character just before byte offset `pos` is a quote.
pub fn is_after_closing_quote(line: &str, pos: usize) -> (r: bool)
    requires
        is_boundary(line@, pos as int),
    ensures
        r == (pos > 0 && is_quote(chars_before(line@, pos as int).last())),
        pos > 0 ==> chars_before(line@, pos as int).len() > 0,
{
    let (before, _after) = split_chars_at(line, pos);
    if pos > 0 {
        if before.len() == 0 {
            assert(before@ == Seq::<char>::empty());
            assert(vstd::utf8::encode_utf8(before@).len() == 0);
        }
        let last = before[before.len() - 1];
        last == '"' || last == '\''
    } else {
        false
    }
}

/// Whether the character at byte offset `pos` is a quote; never at or past
/// the end of the line.
pub fn is_before_closing_quote(line: &str, pos: usize) -> (r: bool)
    requires
        pos >= vstd::utf8::encode_utf8(line@).len() || is_boundary(line@, pos as int),
    ensures
        r == (pos < vstd::utf8::encode_utf8(line@).len() && chars_after(line@, pos as int).len() > 0 && is_quote(
            chars_after(line@, pos as int)[0],
        )),
{
    if !line.is_char_boundary(pos) {
        return false;
    }
    proof {
        let b = vstd::utf8::encode_utf8(line@);
        crate::text::lemma_split_at_boundary(line@, pos as int);
        if pos as int == b.len() {
            assert(b.subrange(pos as int, b.len() as int) =~= Seq::<u8>::empty());
            assert(vstd::utf8::encode_utf8(Seq::<char>::empty()) =~= Seq::<u8>::empty());
            assert(vstd::utf8::decode_utf8(Seq::<u8>::empty()) == vstd::utf8::decode_utf8(
                vstd::utf8::encode_utf8(Seq::<char>::empty()),
            ));
        }
    }
    let (_before, after) = split_chars_at(line, pos);
    if after.len() > 0 {
        let next = after[0];
        next == '"' || next == '\''
    } else {
        false
    }
}

/// `s` without its leading quote characters.
pub open spec fn strip_leading_quotes(s: Seq<char>) -> Seq<char>
    decreases s.len(),
{
    if s.len() > 0 && is_quote(s[0]) {
        strip_leading_quotes(s.drop_first())
    } else {
        s
    }
}

/// `s` without its trailing quote characters.
pub open spec fn strip_trailing_quotes(s: Seq<char>) -> Seq<char>
    decreases s.len(),
{
    if s.len() > 0 && is_quote(s.last()) {
        strip_trailing_quotes(s.drop_last())
    } else {
        s
    }
}

/// `s` without every occurrence of `c`.
pub open spec fn remove_char(s: Seq<char>, c: char) -> Seq<char>
    decreases s.len(),
{
    if s.len() == 0 {
        s
    } else if s.last() == c {
        remove_char(s.drop_last(), c)
    } else {
        remove_char(s.drop_last(), c).push(s.last())
    }
}

/// The replacement text the quoting policy makes of `repl`. Inside a quote:
/// quotes at both ends are trimmed, every remaining occurrence of the open
/// quote character is removed, and the quote is closed unless the cursor
/// already stands before a closing quote. Outside a quote: every quote
/// character is removed and the result is quoted by [`ensure_quoted`].
pub open spec fn policy_replacement(
    repl: Seq<char>,
    in_quote: bool,
    quote_char: char,
    before_closing: bool,
) -> Seq<char> {
    if in_quote {
        let base = remove_char(strip_trailing_quotes(strip_leading_quotes(repl)), quote_char);
        if before_closing {
            base
        } else {
            base.push(quote_char)
        }
    } else {
        spec_ensure_quoted(remove_char(remove_char(repl, '"'), '\''))
    }
}

fn strip_quotes_both_ends(cs: &Vec<char>) -> (r: Vec<char>)
    ensures
        r@ == strip_trailing_quotes(strip_leading_quotes(cs@)),
{
    let mut start: usize = 0;
    assert(cs@.subrange(0, cs.len() as int) == cs@);
    while start < cs.len() && (cs[start] == '"' || cs[start] == '\'')
        invariant
            start <= cs.len(),
            strip_leading_quotes(cs@.subrange(start as int, cs.len() as int))
                == strip_leading_quotes(cs@),
        decreases cs.len() - start,
    {
        assert(cs@.subrange(start as int, cs.len() as int).drop_first() == cs@.subrange(
            start + 1,
            cs.len() as int,
        ));
        start = start + 1;
    }
    let ghost mid = cs@.subrange(start as int, cs.len() as int);
    assert(strip_leading_quotes(mid) == mid);
    let mut end: usize = cs.len();
    while end > start && (cs[end - 1] == '"' || cs[end - 1] == '\'')
        invariant
            start <= end <= cs.len(),
            strip_trailing_quotes(cs@.subrange(start as int, end as int))
                == strip_trailing_quotes(mid),
        decreases end,
    {
        assert(cs@.subrange(start as int, end as int).drop_last() == cs@.subrange(
            start as int,
            end - 1,
        ));
        end = end - 1;
    }
    let mut out: Vec<char> = Vec::new();
    let mut i: usize = start;
    while i < end
        invariant
            start <= i <= end <= cs.len(),
            out@ == cs@.subrange(start as int, i as int),
        decreases end - i,
    {
        out.push(cs[i]);
        assert(cs@.subrange(start as int, i + 1) == cs@.subrange(start as int, i as int).push(
            cs@[i as int],
        ));
        i = i + 1;
    }
    out
}

fn remove_all(cs: &Vec<char>, c: char) -> (r: Vec<char>)
    ensures
        r@ == remove_char(cs@, c),
{
    let mut out: Vec<char> = Vec::new();
    let mut i: usize = 0;
    while i < cs.len()
        invariant
            i <= cs.len(),
            out@ == remove_char(cs@.take(i as int), c),
        decreases cs.len() - i,
    {
        assert(cs@.take(i + 1).drop_last() == cs@.take(i as int));
        if cs[i] != c {
            out.push(cs[i]);
        }
        i = i + 1;
    }
    assert(cs@.take(cs.len() as int) == cs@);
    out
}

/// The replacement text of one candidate under the quoting policy.
pub fn quote_policy_replacement(
    repl: &str,
    in_quote: bool,
    quote_char: char,
    cursor_before_closing_quote: bool,
) -> (r: String)
    ensures
        r@ == policy_replacement(repl@, in_quote, quote_char, cursor_before_closing_quote),
{
    let cs = chars_of(repl);
    if in_quote {
        let trimmed = strip_quotes_both_ends(&cs);
        let mut base = remove_all(&trimmed, quote_char);
        if !cursor_before_closing_quote {
            base.push(quote_char);
        }
        string_of(&base)
    } else {
        let no_double = remove_all(&cs, '"');
        let no_quotes = remove_all(&no_double, '\'');
        let s = string_of(&no_quotes);
        ensure_quoted(s.as_str())
    }
}

/// Applies the quoting policy to every candidate: each replacement is
/// rewritten by [`policy_replacement`]; displays and order stay as they are.
pub fn apply_quote_policy(
    candidates: &mut Vec<Pair>,
    in_quote: bool,
    quote_char: char,
    cursor_before_closing_quote: bool,
)
    ensures
        final(candidates)@.len() == old(candidates)@.len(),
        forall|i: int|
            0 <= i < old(candidates)@.len() ==> {
                &&& (#[trigger] final(candidates)@[i]).display == old(candidates)@[i].display
                &&& final(candidates)@[i].replacement@ == policy_replacement(
                    old(candidates)@[i].replacement@,
                    in_quote,
                    quote_char,
                    cursor_before_closing_quote,
                )
            },
{
    let ghost orig = candidates@;
    let mut i: usize = 0;
    while i < candidates.len()
        invariant
            i <= candidates@.len(),
            candidates@.len() == orig.len(),
            forall|j: int|
                i <= j < orig.len() ==> #[trigger] candidates@[j] == orig[j],
            forall|j: int|
                0 <= j < i ==> {
                    &&& (#[trigger] candidates@[j]).display == orig[j].display
                    &&& candidates@[j].replacement@ == policy_replacement(
                        orig[j].replacement@,
                        in_quote,
                        quote_char,
                        cursor_before_closing_quote,
                    )
                },
        decreases orig.len() - i,
    {
        let new_repl = quote_policy_replacement(
            candidates[i].replacement.as_str(),
            in_quote,
            quote_char,
            cursor_before_closing_quote,
        );
        let display = candidates[i].display.clone();
        candidates.set(i, Pair { display, replacement: new_repl });
        i = i + 1;
    }
}

} // verus!
