//! The words of a command line, with quotes grouping words that hold
//! spaces, and line references (`<n>` or `<n>/<sub path>`) into the last
//! listing.

use vstd::prelude::*;
use crate::managers::alias::first_separator;
use crate::numbers::{decimal, parsed_usize, parse_usize, usize_to_string};
use crate::path_completion::first_sep_exec;
use crate::text::{chars_of, is_whitespace_char, is_ws, string_of, string_of_range, views};

verus! {

/// Where the splitting of a line stands: the finished words, the word being
/// read, and the quote it is inside, if any.
pub struct WordState {
    pub words: Seq<Seq<char>>,
    pub cur: Seq<char>,
    pub quote: Option<char>,
}

/// Reads one more character: inside quotes everything but the closing
/// quote belongs to the word; outside, a `"` or `'` opens a quote and
/// whitespace ends a non-empty word.
pub open spec fn word_step(st: WordState, c: char) -> WordState {
    match st.quote {
        Some(q) => if c == q {
            WordState { quote: None, ..st }
        } else {
            WordState { cur: st.cur.push(c), ..st }
        },
        None => if c == '"' || c == '\'' {
            WordState { quote: Some(c), ..st }
        } else if is_ws(c) {
            if st.cur.len() > 0 {
                WordState { words: st.words.push(st.cur), cur: Seq::empty(), ..st }
            } else {
                st
            }
        } else {
            WordState { cur: st.cur.push(c), ..st }
        },
    }
}

/// The state after reading all of `s`.
pub open spec fn word_run(s: Seq<char>) -> WordState
    decreases s.len(),
{
    if s.len() == 0 {
        WordState { words: Seq::empty(), cur: Seq::empty(), quote: None }
    } else {
        word_step(word_run(s.drop_last()), s.last())
    }
}

/// The words of a line: runs of characters split at whitespace outside
/// quotes, the quotes themselves left out; empty words are dropped, and an
/// unclosed quote runs to the end of the line.
pub open spec fn command_words(s: Seq<char>) -> Seq<Seq<char>> {
    let st = word_run(s);
    if st.cur.len() > 0 {
        st.words.push(st.cur)
    } else {
        st.words
    }
}

/// Splits a command line into its words (see [`command_words`]).
pub fn split_command_args(input: &str) -> (r: Vec<String>)
    ensures
        views(r@) == command_words(input@),
{
    let cs = chars_of(input);
    let mut words: Vec<String> = Vec::new();
    let mut cur: Vec<char> = Vec::new();
    let mut quote: Option<char> = None;
    let mut i: usize = 0;
    while i < cs.len()
        invariant
            i <= cs.len(),
            cs@ == input@,
            word_run(cs@.take(i as int)).words == views(words@),
            word_run(cs@.take(i as int)).cur == cur@,
            word_run(cs@.take(i as int)).quote == quote,
        decreases cs.len() - i,
    {
        let c = cs[i];
        assert(cs@.take(i + 1).drop_last() =~= cs@.take(i as int));
        assert(cs@.take(i + 1).last() == c);
        match quote {
            Some(q) => {
                if c == q {
                    quote = None;
                } else {
                    cur.push(c);
                }
            },
            None => {
                if c == '"' || c == '\'' {
                    quote = Some(c);
                } else if is_whitespace_char(c) {
                    if cur.len() > 0 {
                        let ghost before = views(words@);
                        words.push(string_of(&cur));
                        assert(views(words@) =~= before.push(cur@));
                        cur = Vec::new();
                        assert(cur@ =~= Seq::<char>::empty());
                    }
                } else {
                    cur.push(c);
                }
            },
        }
        i = i + 1;
    }
    assert(cs@.take(cs.len() as int) =~= cs@);
    if cur.len() > 0 {
        let ghost before = views(words@);
        words.push(string_of(&cur));
        assert(views(words@) =~= before.push(cur@));
    }
    words
}

/// A line reference: the line number before the first `/` or `\` (or the
/// whole word when there is none) and the sub-path after it.
pub open spec fn line_ref_spec(w: Seq<char>) -> Option<(nat, Seq<char>)> {
    match first_separator(w) {
        Some(j) => match parsed_usize(w.take(j)) {
            Some(n) => Some((n, w.skip(j + 1))),
            None => None,
        },
        None => match parsed_usize(w) {
            Some(n) => Some((n, Seq::empty())),
            None => None,
        },
    }
}

/// Reads a line reference (see [`line_ref_spec`]).
pub fn line_reference(word: &str) -> (r: Option<(usize, String)>)
    ensures
        match line_ref_spec(word@) {
            Some((n, sub)) => r matches Some((m, s)) && m == n && s@ == sub,
            None => r is None,
        },
{
    let cs = chars_of(word);
    match first_sep_exec(&cs) {
        Some(j) => {
            let text = string_of_range(&cs, 0, j);
            assert(text@ == word@.take(j as int));
            match parse_usize(text.as_str()) {
                Some(n) => {
                    let sub = string_of_range(&cs, j + 1, cs.len());
                    assert(sub@ == word@.skip(j + 1));
                    Some((n, sub))
                },
                None => None,
            }
        },
        None => match parse_usize(word) {
            Some(n) => Some((n, String::new())),
            None => None,
        },
    }
}

/// What a line reference names in a listing whose entries have the full
/// paths `paths` (numbered from 1): the entry's path and the sub-path, or
/// why it names nothing.
pub open spec fn line_target_spec(word: Seq<char>, paths: Seq<Seq<char>>) -> Result<(Seq<char>, Seq<char>), Seq<char>> {
    match line_ref_spec(word) {
        None => Err("Invalid line number: "@ + word),
        Some((n, sub)) => if n < 1 || n > paths.len() {
            Err("Line number "@ + decimal(n) + " is out of range (1-"@ + decimal(paths.len()) + ")"@)
        } else {
            Ok((paths[n - 1], sub))
        },
    }
}

/// What a line reference names in a listing (see [`line_target_spec`]).
pub fn line_target(word: &str, paths: &Vec<String>) -> (r: Result<(String, String), String>)
    ensures
        match line_target_spec(word@, views(paths@)) {
            Ok((p, sub)) => r matches Ok((x, y)) && x@ == p && y@ == sub,
            Err(m) => r matches Err(e) && e@ == m,
        },
{
    match line_reference(word) {
        None => {
            let mut m = "Invalid line number: ".to_owned();
            m.append(word);
            Err(m)
        },
        Some((n, sub)) => {
            if n < 1 || n > paths.len() {
                let mut m = "Line number ".to_owned();
                m.append(usize_to_string(n).as_str());
                m.append(" is out of range (1-");
                m.append(usize_to_string(paths.len()).as_str());
                m.append(")");
                Err(m)
            } else {
                Ok((paths[n - 1].clone(), sub))
            }
        },
    }
}

} // verus!
