//! Completion of `@alias/...` words and of `cd -r <line>/...` words: how the
//! word splits into what names a base directory, what is listed under it
//! and what prefix the offered names must have, and the offered candidates
//! for a listing.

use vstd::prelude::*;
use vstd::utf8::encode_utf8;
use crate::completion::types::pairs_view;
use crate::managers::alias::{AliasManager, first_separator};
use crate::numbers::{parsed_usize, parse_usize};
use crate::ordering::{cands_view, sort_candidates, sorted_candidates};
use crate::quote_context::Pair;
use crate::quoting::{ensure_quoted, spec_ensure_quoted};
use crate::text::{chars_of, chars_start_with, push_char, split_ws, starts_with, str_eq, string_of, string_of_range, ws_tokens};

verus! {

/// `/` or `\`.
pub open spec fn is_sep(c: char) -> bool {
    c == '/' || c == '\\'
}

/// Index of the last `/` or `\` in `s`.
pub open spec fn last_sep(s: Seq<char>) -> Option<int>
    decreases s.len(),
{
    if s.len() == 0 {
        None
    } else if is_sep(s.last()) {
        Some(s.len() - 1)
    } else {
        last_sep(s.drop_last())
    }
}

/// A separator found is within the string.
pub proof fn lemma_last_sep_range(s: Seq<char>)
    ensures
        last_sep(s) matches Some(l) ==> 0 <= l < s.len() && is_sep(s[l]),
    decreases s.len(),
{
    if s.len() > 0 && !is_sep(s.last()) {
        lemma_last_sep_range(s.drop_last());
    }
}

/// A first separator found is within the string.
pub proof fn lemma_first_sep_range(s: Seq<char>)
    ensures
        first_separator(s) matches Some(j) ==> 0 <= j < s.len() && is_sep(s[j]),
    decreases s.len(),
{
    if s.len() > 0 {
        lemma_first_sep_range(s.drop_last());
    }
}

/// Index of the last `@` in `s`.
pub open spec fn last_at(s: Seq<char>) -> Option<int>
    decreases s.len(),
{
    if s.len() == 0 {
        None
    } else if s.last() == '@' {
        Some(s.len() - 1)
    } else {
        last_at(s.drop_last())
    }
}

/// The directory to list, relative to the base: the whole sub-path when it
/// ends with a separator, else the part before its last separator, else
/// nothing.
pub open spec fn listing_dir(sub: Seq<char>) -> Seq<char> {
    if sub.len() > 0 && is_sep(sub.last()) {
        sub
    } else {
        match last_sep(sub) {
            Some(l) => sub.take(l),
            None => Seq::empty(),
        }
    }
}

/// The prefix listed names must have: nothing when the sub-path ends with a
/// separator, else what follows its last separator, else the whole
/// sub-path.
pub open spec fn name_prefix(sub: Seq<char>) -> Seq<char> {
    if sub.len() > 0 && is_sep(sub.last()) {
        Seq::empty()
    } else {
        match last_sep(sub) {
            Some(l) => sub.skip(l + 1),
            None => sub,
        }
    }
}

/// What every replacement starts with: the lead, the separator, and the
/// sub-path up to its last separator followed by the separator again.
pub open spec fn replacement_head(lead: Seq<char>, sep: char, sub: Seq<char>) -> Seq<char> {
    match last_sep(sub) {
        Some(l) => lead + seq![sep] + sub.take(l) + seq![sep],
        None => lead + seq![sep],
    }
}

/// A listing query: the directory to list, the name prefix, and the head
/// of every replacement.
pub struct ListingQuery {
    pub dir: String,
    pub prefix: String,
    pub head: String,
}

/// Index of the last separator.
fn last_sep_exec(cs: &Vec<char>) -> (r: Option<usize>)
    ensures
        r matches Some(l) ==> l < cs@.len() && last_sep(cs@) == Some(l as int),
        r is None ==> last_sep(cs@) is None,
{
    proof {
        lemma_last_sep_range(cs@);
    }
    let mut n = cs.len();
    assert(cs@.take(n as int) == cs@);
    while n > 0
        invariant
            n <= cs@.len(),
            last_sep(cs@) == last_sep(cs@.take(n as int)),
        decreases n,
    {
        assert(cs@.take(n as int).last() == cs@[n - 1]);
        assert(cs@.take(n as int).drop_last() == cs@.take(n - 1));
        if cs[n - 1] == '/' || cs[n - 1] == '\\' {
            return Some(n - 1);
        }
        n = n - 1;
    }
    None
}

/// The listing query for a sub-path typed after `lead` and `sep`.
pub fn listing_query(lead: &str, sep: char, sub: &str) -> (r: ListingQuery)
    ensures
        r.dir@ == listing_dir(sub@),
        r.prefix@ == name_prefix(sub@),
        r.head@ == replacement_head(lead@, sep, sub@),
{
    let cs = chars_of(sub);
    let ends_sep = cs.len() > 0 && (cs[cs.len() - 1] == '/' || cs[cs.len() - 1] == '\\');
    let mut head = lead.to_owned();
    push_char(&mut head, sep);
    match last_sep_exec(&cs) {
        Some(l) => {
            let d = string_of_range(&cs, 0, l);
            head.append(d.as_str());
            push_char(&mut head, sep);
            assert(sub@.take(l as int) == cs@.subrange(0, l as int));
            assert(sub@.skip(l + 1) == cs@.subrange(l + 1, cs@.len() as int));
            if ends_sep {
                assert(sub@.len() > 0 && is_sep(sub@.last()));
                let r = ListingQuery { dir: sub.to_owned(), prefix: String::new(), head };
                assert(r.dir@ == listing_dir(sub@));
                assert(r.prefix@ == name_prefix(sub@));
                r
            } else {
                assert(!(sub@.len() > 0 && is_sep(sub@.last())));
                let pre = string_of_range(&cs, l + 1, cs.len());
                assert(d@ == sub@.take(l as int));
                assert(last_sep(sub@) == Some(l as int));
                assert(pre@ == sub@.skip(l + 1));
                let r = ListingQuery { dir: d, prefix: pre, head };
                assert(r.dir@ == listing_dir(sub@));
                assert(r.prefix@ == name_prefix(sub@));
                r
            }
        },
        None => {
            assert(!ends_sep);
            ListingQuery { dir: String::new(), prefix: sub.to_owned(), head }
        },
    }
}

/// The candidate for each listed entry (name, is a directory) whose name
/// has the prefix (any name when the prefix is empty), in listing order:
/// the name shown, and the head, the name and, for a directory, the
/// separator, quoted.
pub open spec fn entry_candidates(
    entries: Seq<(Seq<char>, bool)>,
    prefix: Seq<char>,
    head: Seq<char>,
    sep: char,
) -> Seq<(Seq<char>, Seq<char>)>
    decreases entries.len(),
{
    if entries.len() == 0 {
        Seq::empty()
    } else {
        let prev = entry_candidates(entries.drop_last(), prefix, head, sep);
        let e = entries.last();
        if prefix.len() > 0 && !starts_with(e.0, prefix) {
            prev
        } else {
            prev.push((e.0, spec_ensure_quoted(head + e.0 + if e.1 { seq![sep] } else { Seq::empty() })))
        }
    }
}

/// The view of a listing.
pub open spec fn entries_view(v: Seq<(String, bool)>) -> Seq<(Seq<char>, bool)> {
    v.map_values(|p: (String, bool)| (p.0@, p.1))
}

/// The candidate for one entry.
fn entry_candidate(head: &str, name: &String, is_dir: bool, sep: char) -> (r: Pair)
    ensures
        r.display@ == name@,
        r.replacement@ == spec_ensure_quoted(head@ + name@ + if is_dir { seq![sep] } else { Seq::empty() }),
{
    let mut repl = head.to_owned();
    repl.append(name.as_str());
    if is_dir {
        push_char(&mut repl, sep);
    }
    assert(repl@ =~= head@ + name@ + if is_dir { seq![sep] } else { Seq::<char>::empty() });
    Pair { display: name.clone(), replacement: ensure_quoted(repl.as_str()) }
}

/// All the candidates of a listing for a query.
pub open spec fn query_candidates(entries: Seq<(String, bool)>, q: ListingQuery, sep: char) -> Seq<(Seq<char>, Seq<char>)> {
    entry_candidates(entries_view(entries), q.prefix@, q.head@, sep)
}

/// The candidates of a listing (see [`entry_candidates`]), at most `limit`
/// of them, unsorted, in listing order. With `use_clock`, the work stops
/// once 100 ms have passed, so only a first part of them may come.
fn collect_candidates(
    q: &ListingQuery,
    sep: char,
    entries: &Vec<(String, bool)>,
    limit: usize,
    use_clock: bool,
) -> (r: Vec<Pair>)
    ensures
        cands_view(r@).len() <= limit,
        cands_view(r@).len() <= query_candidates(entries@, *q, sep).len(),
        cands_view(r@) == query_candidates(entries@, *q, sep).take(cands_view(r@).len() as int),
        !use_clock ==> cands_view(r@).len() == (if limit < query_candidates(entries@, *q, sep).len() {
            limit as int
        } else {
            query_candidates(entries@, *q, sep).len() as int
        }),
{
    let ghost ev = entries_view(entries@);
    let ghost full = entry_candidates(ev, q.prefix@, q.head@, sep);
    let p = chars_of(q.prefix.as_str());
    let clock = crate::clock::start_clock();
    let mut out: Vec<Pair> = Vec::new();
    let mut i: usize = 0;
    proof {
        lemma_entry_candidates_prefix(ev, q.prefix@, q.head@, sep, 0);
    }
    while i < entries.len()
        invariant
            i <= entries@.len(),
            ev == entries_view(entries@),
            full == entry_candidates(ev, q.prefix@, q.head@, sep),
            full == query_candidates(entries@, *q, sep),
            p@ == q.prefix@,
            out@.len() <= limit,
            entry_candidates(ev.take(i as int), q.prefix@, q.head@, sep).len() <= full.len(),
            full.take(entry_candidates(ev.take(i as int), q.prefix@, q.head@, sep).len() as int)
                == entry_candidates(ev.take(i as int), q.prefix@, q.head@, sep),
            cands_view(out@) == entry_candidates(ev.take(i as int), q.prefix@, q.head@, sep),
        decreases entries.len() - i,
    {
        if use_clock && crate::clock::past_budget(crate::clock::whole_millis(crate::clock::elapsed_since(&clock))) {
            return out;
        }
        assert(ev.take(i + 1).drop_last() == ev.take(i as int));
        assert(ev.take(i + 1).last() == (entries@[i as int].0@, entries@[i as int].1));
        let name = chars_of(entries[i].0.as_str());
        let keep = p.len() == 0 || chars_start_with(&name, &p);
        proof {
            lemma_entry_candidates_prefix(ev, q.prefix@, q.head@, sep, i + 1);
        }
        if keep {
            if out.len() >= limit {
                assert(entry_candidates(ev.take(i + 1), q.prefix@, q.head@, sep).len() == out@.len() + 1);
                return out;
            }
            let c = entry_candidate(q.head.as_str(), &entries[i].0, entries[i].1, sep);
            let ghost before = cands_view(out@);
            out.push(c);
            assert(cands_view(out@) =~= before.push((c.display@, c.replacement@)));
        }
        i = i + 1;
    }
    assert(ev.take(entries.len() as int) == ev);
    out
}

proof fn lemma_entry_candidates_prefix(
    ev: Seq<(Seq<char>, bool)>,
    prefix: Seq<char>,
    head: Seq<char>,
    sep: char,
    i: int,
)
    requires
        0 <= i <= ev.len(),
    ensures
        entry_candidates(ev.take(i), prefix, head, sep).len() <= entry_candidates(ev, prefix, head, sep).len(),
        entry_candidates(ev, prefix, head, sep).take(entry_candidates(ev.take(i), prefix, head, sep).len() as int)
            == entry_candidates(ev.take(i), prefix, head, sep),
    decreases ev.len() - i,
{
    if i == ev.len() {
        assert(ev.take(i) == ev);
        assert(entry_candidates(ev, prefix, head, sep).take(entry_candidates(ev, prefix, head, sep).len() as int)
            == entry_candidates(ev, prefix, head, sep));
    } else {
        lemma_entry_candidates_prefix(ev, prefix, head, sep, i + 1);
        assert(ev.take(i + 1).drop_last() == ev.take(i));
        let a = entry_candidates(ev.take(i), prefix, head, sep);
        let b = entry_candidates(ev.take(i + 1), prefix, head, sep);
        let f = entry_candidates(ev, prefix, head, sep);
        assert(b == a || b == a.push(b.last()));
        if b != a {
            assert(f.take(a.len() as int) == b.take(a.len() as int));
            assert(b.take(a.len() as int) =~= a);
        }
    }
}

/// The candidates of a `cd -r` listing: every matching entry, sorted with
/// directories (ending in `/`) first, then by name.
pub fn line_candidates(q: &ListingQuery, sep: char, entries: &Vec<(String, bool)>) -> (r: Vec<Pair>)
    ensures
        cands_view(r@) == sorted_candidates(query_candidates(entries@, *q, sep), false),
{
    proof {
        lemma_entry_candidates_len(entries_view(entries@), q.prefix@, q.head@, sep);
    }
    let v = collect_candidates(q, sep, entries, entries.len(), false);
    proof {
        let full = query_candidates(entries@, *q, sep);
        assert(full.take(full.len() as int) == full);
    }
    sort_candidates(v, false)
}

proof fn lemma_entry_candidates_len(ev: Seq<(Seq<char>, bool)>, prefix: Seq<char>, head: Seq<char>, sep: char)
    ensures
        entry_candidates(ev, prefix, head, sep).len() <= ev.len(),
    decreases ev.len(),
{
    if ev.len() > 0 {
        lemma_entry_candidates_len(ev.drop_last(), prefix, head, sep);
    }
}

/// The candidates of an `@alias/...` listing: at most 100 of the matching
/// entries, in listing order, sorted with directories (ending in `/` or
/// `\`) first, then by name. The work stops early after 100 ms, so fewer
/// may come: always the first ones.
pub fn alias_candidates(q: &ListingQuery, sep: char, entries: &Vec<(String, bool)>) -> (r: Vec<Pair>)
    ensures
        exists|k: int|
            0 <= k <= query_candidates(entries@, *q, sep).len() && k <= 100 && cands_view(r@)
                == #[trigger] sorted_candidates(query_candidates(entries@, *q, sep).take(k), true),
{
    let v = collect_candidates(q, sep, entries, 100, true);
    let ghost k = cands_view(v@).len() as int;
    let r = sort_candidates(v, true);
    assert(cands_view(r@) == sorted_candidates(query_candidates(entries@, *q, sep).take(k), true));
    r
}

/// What an `@` word asks to complete.
#[derive(Debug, PartialEq, Eq)]
pub enum AliasWord {
    /// `@prefix`: alias names. The byte offset of the `@` and the prefix.
    Root(usize, String),
    /// `@alias<sep>sub`: entries under the alias's path. The byte offset of
    /// the `@`, the alias, the separator typed and the sub-path.
    Sub(usize, String, char, String),
}

/// What the word before the cursor asks to complete, from its last `@`:
/// alias names when no separator follows, else entries under an alias.
pub open spec fn alias_word_spec(word: Seq<char>) -> Option<(int, Seq<char>, Option<(char, Seq<char>)>)> {
    match last_at(word) {
        None => None,
        Some(k) => {
            let after = word.skip(k + 1);
            let start = (encode_utf8(word.take(k)).len() as usize) as int;
            match first_separator(after) {
                Some(j) => Some((start, after.take(j), Some((after[j], after.skip(j + 1))))),
                None => Some((start, after, None)),
            }
        },
    }
}

/// The view of an `@` word.
pub open spec fn alias_word_view(w: AliasWord) -> (int, Seq<char>, Option<(char, Seq<char>)>) {
    match w {
        AliasWord::Root(s, p) => (s as int, p@, None),
        AliasWord::Sub(s, a, c, sub) => (s as int, a@, Some((c, sub@))),
    }
}

/// Index of the first separator.
pub(crate) fn first_sep_exec(cs: &Vec<char>) -> (r: Option<usize>)
    ensures
        r matches Some(j) ==> j < cs@.len() && first_separator(cs@) == Some(j as int),
        r is None ==> first_separator(cs@) is None,
{
    proof {
        lemma_first_sep_range(cs@);
    }
    let mut i: usize = 0;
    while i < cs.len()
        invariant
            i <= cs@.len(),
            first_separator(cs@.take(i as int)) is None,
        decreases cs.len() - i,
    {
        assert(cs@.take(i + 1).drop_last() == cs@.take(i as int));
        assert(cs@.take(i + 1).last() == cs@[i as int]);
        if cs[i] == '/' || cs[i] == '\\' {
            proof {
                lemma_first_sep_at(cs@, i as int);
            }
            return Some(i);
        }
        i = i + 1;
    }
    assert(cs@.take(cs.len() as int) == cs@);
    None
}

proof fn lemma_first_sep_at(s: Seq<char>, i: int)
    requires
        0 <= i < s.len(),
        first_separator(s.take(i)) is None,
        is_sep(s[i]),
    ensures
        first_separator(s) == Some(i),
    decreases s.len(),
{
    if i < s.len() - 1 {
        assert(s.drop_last().take(i) == s.take(i));
        lemma_first_sep_at(s.drop_last(), i);
    } else {
        assert(s.drop_last() == s.take(i));
    }
}

/// What the word before the cursor asks to complete (see
/// [`alias_word_spec`]).
pub fn parse_alias_word(word: &str) -> (r: Option<AliasWord>)
    ensures
        match alias_word_spec(word@) {
            None => r is None,
            Some(v) => r matches Some(w) && alias_word_view(w) == v,
        },
{
    let cs = chars_of(word);
    let mut n = cs.len();
    assert(cs@.take(n as int) == cs@);
    while n > 0 && cs[n - 1] != '@'
        invariant
            n <= cs@.len(),
            cs@ == word@,
            last_at(word@) == last_at(cs@.take(n as int)),
        decreases n,
    {
        assert(cs@.take(n as int).drop_last() == cs@.take(n - 1));
        n = n - 1;
    }
    if n == 0 {
        return None;
    }
    let k = n - 1;
    assert(cs@.take(n as int).last() == cs@[k as int]);
    assert(last_at(word@) == Some(k as int));
    let head = string_of_range(&cs, 0, k);
    let start = head.as_str().len();
    assert(head@ == word@.take(k as int));
    let after = crate::text::string_of_range(&cs, k + 1, cs.len());
    assert(after@ == word@.skip(k + 1));
    let acs = chars_of(after.as_str());
    match first_sep_exec(&acs) {
        Some(j) => {
            let alias = string_of_range(&acs, 0, j);
            let sub = string_of_range(&acs, j + 1, acs.len());
            assert(alias@ == after@.take(j as int));
            assert(sub@ == after@.skip(j + 1));
            Some(AliasWord::Sub(start, alias, acs[j], sub))
        },
        None => Some(AliasWord::Root(start, after)),
    }
}

/// The alias names offered for `@prefix`: for each alias starting with the
/// prefix, in table order, `📍 @alias -> path` shown and `@alias` as the
/// replacement.
pub open spec fn alias_name_candidates_spec(
    entries: Seq<(Seq<char>, Seq<char>)>,
    prefix: Seq<char>,
) -> Seq<(Seq<char>, Seq<char>)>
    decreases entries.len(),
{
    if entries.len() == 0 {
        Seq::empty()
    } else {
        let prev = alias_name_candidates_spec(entries.drop_last(), prefix);
        let e = entries.last();
        if starts_with(e.0, prefix) {
            prev.push(("📍 @"@ + e.0 + " -> "@ + e.1, seq!['@'] + e.0))
        } else {
            prev
        }
    }
}

/// The alias names offered for `@prefix` (see
/// [`alias_name_candidates_spec`]).
pub fn alias_name_candidates(aliases: &AliasManager, prefix: &str) -> (r: Vec<Pair>)
    ensures
        cands_view(r@) == alias_name_candidates_spec(aliases.entries(), prefix@),
{
    let list = aliases.list();
    let ghost e = aliases.entries();
    let p = chars_of(prefix);
    let mut out: Vec<Pair> = Vec::new();
    let mut i: usize = 0;
    while i < list.len()
        invariant
            i <= list@.len(),
            e == pairs_view(list@),
            p@ == prefix@,
            cands_view(out@) == alias_name_candidates_spec(e.take(i as int), prefix@),
        decreases list.len() - i,
    {
        assert(e.take(i + 1).drop_last() == e.take(i as int));
        assert(e.take(i + 1).last() == (list@[i as int].0@, list@[i as int].1@));
        let n = chars_of(list[i].0.as_str());
        if chars_start_with(&n, &p) {
            let mut display = "📍 @".to_owned();
            display.append(list[i].0.as_str());
            display.append(" -> ");
            display.append(list[i].1.as_str());
            let mut repl = String::new();
            push_char(&mut repl, '@');
            repl.append(list[i].0.as_str());
            let ghost before = cands_view(out@);
            out.push(Pair { display, replacement: repl });
            assert(cands_view(out@) =~= before.push(
                ("📍 @"@ + list@[i as int].0@ + " -> "@ + list@[i as int].1@, seq!['@'] + list@[i as int].0@),
            ));
        }
        i = i + 1;
    }
    assert(e.take(list.len() as int) == e);
    out
}

/// The first alias (in table order) starting with `prefix`, with its path.
pub open spec fn first_alias_with_prefix(
    entries: Seq<(Seq<char>, Seq<char>)>,
    prefix: Seq<char>,
) -> Option<(Seq<char>, Seq<char>)>
    decreases entries.len(),
{
    if entries.len() == 0 {
        None
    } else if starts_with(entries[0].0, prefix) {
        Some(entries[0])
    } else {
        first_alias_with_prefix(entries.drop_first(), prefix)
    }
}

/// Whether the entries under an alias are offered too: when exactly one
/// alias matched, or the prefix is empty.
pub open spec fn offers_alias_entries(matched: nat, prefix: Seq<char>) -> bool {
    matched == 1 || prefix.len() == 0
}

/// The first alias (in table order) starting with `prefix`, with its path,
/// when the entries under it are offered (see [`offers_alias_entries`]).
#[verifier::loop_isolation(false)]
pub fn alias_to_browse(aliases: &AliasManager, prefix: &str, matched: usize) -> (r: Option<(String, String)>)
    ensures
        if offers_alias_entries(matched as nat, prefix@) {
            match first_alias_with_prefix(aliases.entries(), prefix@) {
                Some((a, p)) => r matches Some((x, y)) && x@ == a && y@ == p,
                None => r is None,
            }
        } else {
            r is None
        },
{
    if !(matched == 1 || prefix.is_empty()) {
        return None;
    }
    let list = aliases.list();
    let ghost e = aliases.entries();
    let p = chars_of(prefix);
    let mut i: usize = 0;
    assert(e.skip(0) =~= e);
    while i < list.len()
        invariant
            i <= list@.len(),
            e == pairs_view(list@),
            p@ == prefix@,
            first_alias_with_prefix(e, prefix@) == first_alias_with_prefix(e.skip(i as int), prefix@),
        decreases list.len() - i,
    {
        assert(e.skip(i as int)[0] == (list@[i as int].0@, list@[i as int].1@));
        assert(e.skip(i as int).drop_first() == e.skip(i + 1));
        let n = chars_of(list[i].0.as_str());
        if chars_start_with(&n, &p) {
            return Some((list[i].0.clone(), list[i].1.clone()));
        }
        i = i + 1;
    }
    assert(e.skip(list.len() as int) == Seq::<(Seq<char>, Seq<char>)>::empty());
    None
}

/// The entries under a browsed alias: the first 20 of the listing, in
/// order, each shown by name and replaced by `@alias/name` (with a
/// trailing `/` for a directory), quoted.
pub open spec fn alias_entry_candidates(alias: Seq<char>, entries: Seq<(Seq<char>, bool)>) -> Seq<
    (Seq<char>, Seq<char>),
> {
    let n = if entries.len() < 20 { entries.len() as int } else { 20 };
    Seq::new(
        n as nat,
        |i: int|
            (
                entries[i].0,
                spec_ensure_quoted(
                    seq!['@'] + alias + seq!['/'] + entries[i].0 + if entries[i].1 { seq!['/'] } else { Seq::empty() },
                ),
            ),
    )
}

/// The entries under a browsed alias (see [`alias_entry_candidates`]).
pub fn alias_entries(alias: &str, entries: &Vec<(String, bool)>) -> (r: Vec<Pair>)
    ensures
        cands_view(r@) == alias_entry_candidates(alias@, entries_view(entries@)),
{
    let ghost ev = entries_view(entries@);
    let n: usize = if entries.len() < 20 { entries.len() } else { 20 };
    let mut head = String::new();
    push_char(&mut head, '@');
    head.append(alias);
    push_char(&mut head, '/');
    let mut out: Vec<Pair> = Vec::new();
    let mut i: usize = 0;
    while i < n
        invariant
            i <= n,
            n <= entries@.len(),
            ev == entries_view(entries@),
            n == (if entries@.len() < 20 { entries@.len() as int } else { 20 }),
            head@ == seq!['@'] + alias@ + seq!['/'],
            cands_view(out@) =~= alias_entry_candidates(alias@, ev).take(i as int),
        decreases n - i,
    {
        let c = entry_candidate(head.as_str(), &entries[i].0, entries[i].1, '/');
        let ghost before = cands_view(out@);
        out.push(c);
        assert(cands_view(out@) =~= before.push((c.display@, c.replacement@)));
        assert(alias_entry_candidates(alias@, ev).take(i + 1) =~= alias_entry_candidates(alias@, ev).take(i as int).push(
            alias_entry_candidates(alias@, ev)[i as int],
        ));
        assert(ev[i as int] == (entries@[i as int].0@, entries@[i as int].1));
        assert(alias_entry_candidates(alias@, ev)[i as int] == (c.display@, c.replacement@));
        i = i + 1;
    }
    assert(alias_entry_candidates(alias@, ev).take(n as int) =~= alias_entry_candidates(alias@, ev));
    out
}

/// What a `cd -r <line><sep><sub>` word asks to complete.
#[derive(Debug, PartialEq, Eq)]
pub struct LineWord {
    /// Length in bytes of the whole word (the replaced text).
    pub word_len: usize,
    /// The line number.
    pub line: usize,
    /// The line number as typed.
    pub line_text: String,
    /// The separator typed.
    pub sep: char,
    /// The sub-path after the separator.
    pub sub: String,
}

/// What a line asks when it is `cd -r <word> ...` and the word holds a
/// separator after a line number: the word, the number as typed, the
/// number, the separator and the rest.
pub open spec fn line_word_spec(line: Seq<char>) -> Option<(Seq<char>, Seq<char>, nat, char, Seq<char>)> {
    let w = ws_tokens(line);
    if w.len() < 3 || w[0] != "cd"@ || w[1] != "-r"@ {
        None
    } else {
        let part = w[2];
        match first_separator(part) {
            None => None,
            Some(j) => match parsed_usize(part.take(j)) {
                None => None,
                Some(n) => Some((part, part.take(j), n, part[j], part.skip(j + 1))),
            },
        }
    }
}

/// What a `cd -r` line asks to complete (see [`line_word_spec`]).
pub fn parse_line_word(line: &str) -> (r: Option<LineWord>)
    ensures
        match line_word_spec(line@) {
            None => r is None,
            Some((part, text, n, sep, sub)) => r matches Some(w) && w.word_len == encode_utf8(part).len() as usize
                && w.line_text@ == text && w.line == n && w.sep == sep && w.sub@ == sub,
        },
{
    let cs = chars_of(line);
    let words = split_ws(&cs);
    if words.len() < 3 {
        return None;
    }
    assert(words@[0]@ == ws_tokens(line@)[0]);
    assert(words@[1]@ == ws_tokens(line@)[1]);
    assert(words@[2]@ == ws_tokens(line@)[2]);
    let w0 = string_of(&words[0]);
    let w1 = string_of(&words[1]);
    if !str_eq(w0.as_str(), "cd") || !str_eq(w1.as_str(), "-r") {
        return None;
    }
    let part = &words[2];
    match first_sep_exec(part) {
        None => None,
        Some(j) => {
            let text = string_of_range(part, 0, j);
            assert(text@ == part@.take(j as int));
            match parse_usize(text.as_str()) {
                None => None,
                Some(n) => {
                    let sub = string_of_range(part, j + 1, part.len());
                    assert(sub@ == part@.skip(j + 1));
                    let whole = string_of(part);
                    Some(LineWord { word_len: whole.as_str().len(), line: n, line_text: text, sep: part[j], sub })
                },
            }
        },
    }
}

} // verus!
