//! Properties that hold across calls: quoting is stable, aliases resolve to
//! what was stored, tags added are there to be read back, and numbers read
//! back what was written.

use vstd::prelude::*;
use crate::managers::alias::{first_separator, resolve_spec};
use crate::managers::tag::{add_unique, without_tags};
use crate::numbers::{decimal, decimal_value, digit_value, parsed_usize, all_digits, is_digit};
use crate::quoting::{spec_ensure_quoted, spec_is_already_quoted};
use crate::pipeline::{chain_segments, find_arrow, one_line, segments_from};
use crate::text::{is_ws, lemma_ws_tokens_nonempty, lemma_ws_tokens_words, trim, ws_tokens};
use crate::words::{command_words, word_run};
use crate::ordering::{cand_le, chars_le, is_ordered, law_sort_is_ordered, sorted_candidates, trim_end_quotes};
use crate::managers::tag::{all_patterns_match, entries_matching};
use crate::pattern::regex_match;
use crate::listing::search_source;
use crate::command::{kind_of, CommandKind};
use crate::completion::hinter::{hint_spec, rest_after_prefix};
use crate::completion::manager::{find_command, list_with_prefix, parse_context};
use crate::completion::types::{arg_completions, arg_names, command_names, names_with_prefix, sub_completions, with_description, ArgSpec, CommandSpec};
use crate::completion::context::ContextSpec;
use crate::text::{chars_before, starts_with};

verus! {

/// Quoting twice is quoting once: the result of `ensure_quoted` is left as
/// it is by a second call.
pub proof fn law_ensure_quoted_idempotent(s: Seq<char>)
    ensures
        spec_ensure_quoted(spec_ensure_quoted(s)) == spec_ensure_quoted(s),
{
    let q = spec_ensure_quoted(s);
    if !spec_is_already_quoted(s) {
        assert(q.len() == s.len() + 2);
        assert(q[0] == '"');
        assert(q[q.len() - 1] == '"');
        assert(spec_is_already_quoted(q));
    }
}

/// A path that is not quoted yet comes back wrapped in double quotes
/// around exactly the given text, so the result is always quoted.
pub proof fn law_ensure_quoted_shape(s: Seq<char>)
    ensures
        spec_is_already_quoted(spec_ensure_quoted(s)),
        !spec_is_already_quoted(s) ==> {
            let q = spec_ensure_quoted(s);
            &&& q.len() == s.len() + 2
            &&& q[0] == '"'
            &&& q[q.len() - 1] == '"'
            &&& q.subrange(1, q.len() - 1) == s
        },
{
    if !spec_is_already_quoted(s) {
        let q = spec_ensure_quoted(s);
        assert(q.subrange(1, q.len() - 1) =~= s);
        assert(q[0] == '"');
        assert(q[q.len() - 1] == '"');
    }
}

/// A name with no `/` or `\` in it.
pub open spec fn plain_name(a: Seq<char>) -> bool {
    forall|i: int| 0 <= i < a.len() ==> #[trigger] a[i] != '/' && a[i] != '\\'
}

proof fn lemma_no_separator(a: Seq<char>)
    requires
        plain_name(a),
    ensures
        first_separator(a) is None,
    decreases a.len(),
{
    if a.len() > 0 {
        assert(plain_name(a.drop_last()));
        lemma_no_separator(a.drop_last());
    }
}

proof fn lemma_separator_after_name(a: Seq<char>, sep: char, rest: Seq<char>)
    requires
        plain_name(a),
        sep == '/' || sep == '\\',
    ensures
        first_separator(a + seq![sep] + rest) == Some(a.len() as int),
    decreases rest.len(),
{
    let s = a + seq![sep] + rest;
    if rest.len() == 0 {
        assert(s.drop_last() =~= a);
        lemma_no_separator(a);
    } else {
        assert(s.drop_last() =~= a + seq![sep] + rest.drop_last());
        lemma_separator_after_name(a, sep, rest.drop_last());
    }
}

/// Once `@name` is defined as `path`, the reference `@name` resolves to
/// `path`, and `@name/rest` or `@name\rest` to `path`, `/` and `rest`.
pub proof fn law_alias_resolves_to_stored_path(
    aliases: Map<Seq<char>, Seq<char>>,
    name: Seq<char>,
    path: Seq<char>,
    sep: char,
    rest: Seq<char>,
)
    requires
        plain_name(name),
        sep == '/' || sep == '\\',
    ensures
        resolve_spec(aliases.insert(name, path), seq!['@'] + name) == path,
        resolve_spec(aliases.insert(name, path), seq!['@'] + name + seq![sep] + rest) == path + seq!['/'] + rest,
{
    let m = aliases.insert(name, path);
    let p1 = seq!['@'] + name;
    assert(p1.drop_first() =~= name);
    lemma_no_separator(name);
    let p2 = seq!['@'] + name + seq![sep] + rest;
    let body = p2.drop_first();
    assert(body =~= name + seq![sep] + rest);
    lemma_separator_after_name(name, sep, rest);
    assert(body.take(name.len() as int) =~= name);
    assert(body.skip(name.len() as int + 1) =~= rest);
}

/// Once `@name` is removed, the reference `@name` is left as it is.
pub proof fn law_removed_alias_stays_literal(aliases: Map<Seq<char>, Seq<char>>, name: Seq<char>)
    requires
        plain_name(name),
    ensures
        resolve_spec(aliases.remove(name), seq!['@'] + name) == seq!['@'] + name,
{
    let p = seq!['@'] + name;
    assert(p.drop_first() =~= name);
    lemma_no_separator(name);
}

/// A path that does not start with `@` resolves to itself.
pub proof fn law_plain_path_unchanged(aliases: Map<Seq<char>, Seq<char>>, path: Seq<char>)
    requires
        path.len() == 0 || path[0] != '@',
    ensures
        resolve_spec(aliases, path) == path,
{
}

/// After tags are added, each of them is on the file, and every tag the
/// file had is still there.
pub proof fn law_added_tags_present(existing: Seq<Seq<char>>, new: Seq<Seq<char>>)
    ensures
        forall|i: int| 0 <= i < new.len() ==> add_unique(existing, new).contains(#[trigger] new[i]),
        forall|i: int| 0 <= i < existing.len() ==> add_unique(existing, new).contains(#[trigger] existing[i]),
    decreases new.len(),
{
    if new.len() > 0 {
        let p = new.drop_last();
        law_added_tags_present(existing, p);
        let e = add_unique(existing, p);
        let x = new.last();
        assert forall|i: int| 0 <= i < new.len() implies add_unique(existing, new).contains(#[trigger] new[i]) by {
            if i < new.len() - 1 {
                assert(new[i] == p[i]);
                assert(e.contains(p[i]));
                if !e.contains(x) {
                    let j = choose|j: int| 0 <= j < e.len() && e[j] == p[i];
                    assert(e.push(x)[j] == p[i]);
                }
            } else {
                if !e.contains(x) {
                    assert(e.push(x)[e.len() as int] == x);
                }
            }
        }
        assert forall|i: int| 0 <= i < existing.len() implies add_unique(existing, new).contains(#[trigger] existing[i]) by {
            assert(e.contains(existing[i]));
            if !e.contains(x) {
                let j = choose|j: int| 0 <= j < e.len() && e[j] == existing[i];
                assert(e.push(x)[j] == existing[i]);
            }
        }
    }
}

/// Adding tags keeps every tag once: with no repeats before, there are none
/// after.
pub proof fn law_added_tags_unique(existing: Seq<Seq<char>>, new: Seq<Seq<char>>)
    requires
        existing.no_duplicates(),
    ensures
        add_unique(existing, new).no_duplicates(),
    decreases new.len(),
{
    if new.len() > 0 {
        law_added_tags_unique(existing, new.drop_last());
        let e = add_unique(existing, new.drop_last());
        let x = new.last();
        if !e.contains(x) {
            assert forall|a: int, b: int| 0 <= a < b < e.push(x).len() implies e.push(x)[a] != e.push(x)[b] by {
                if b == e.len() {
                    assert(e.push(x)[a] == e[a]);
                }
            }
        }
    }
}

/// Adding tags a file already has changes nothing.
pub proof fn law_add_tags_again_changes_nothing(existing: Seq<Seq<char>>, new: Seq<Seq<char>>)
    ensures
        add_unique(add_unique(existing, new), new) == add_unique(existing, new),
{
    law_added_tags_present(existing, new);
    lemma_add_present(add_unique(existing, new), new);
}

proof fn lemma_add_present(e: Seq<Seq<char>>, new: Seq<Seq<char>>)
    requires
        forall|i: int| 0 <= i < new.len() ==> e.contains(#[trigger] new[i]),
    ensures
        add_unique(e, new) == e,
    decreases new.len(),
{
    if new.len() > 0 {
        assert forall|i: int| 0 <= i < new.drop_last().len() implies e.contains(#[trigger] new.drop_last()[i]) by {
            assert(new.drop_last()[i] == new[i]);
        }
        lemma_add_present(e, new.drop_last());
        assert(e.contains(new[new.len() - 1]));
    }
}

/// After tags are removed from a file, none of them is left on it, and
/// every other tag it had is kept.
pub proof fn law_removed_tags_absent(existing: Seq<Seq<char>>, removed: Seq<Seq<char>>)
    ensures
        forall|t: Seq<char>| removed.contains(t) ==> !#[trigger] without_tags(existing, removed).contains(t),
        forall|t: Seq<char>| existing.contains(t) && !removed.contains(t) ==> #[trigger] without_tags(existing, removed).contains(t),
{
    let f = |t: Seq<char>| !removed.contains(t);
    assert forall|t: Seq<char>| removed.contains(t) implies !#[trigger] without_tags(existing, removed).contains(t) by {
        if existing.filter(f).contains(t) {
            let i = choose|i: int| 0 <= i < existing.filter(f).len() && existing.filter(f)[i] == t;
            existing.lemma_filter_pred(f, i);
        }
    }
    assert forall|t: Seq<char>| existing.contains(t) && !removed.contains(t) implies #[trigger] without_tags(existing, removed).contains(t) by {
        let i = choose|i: int| 0 <= i < existing.len() && existing[i] == t;
        existing.lemma_filter_contains(f, i);
    }
}

proof fn lemma_decimal_digits(n: nat)
    ensures
        all_digits(decimal(n)),
        decimal_value(decimal(n)) == n,
        decimal(n).len() > 0 && (decimal(n)[0] != '+'),
    decreases n,
{
    let k = n % 10;
    let c = (('0' as u32) + k) as char;
    assert(c as u32 == ('0' as u32) + k);
    assert(digit_value(c) == k);
    if n < 10 {
        assert(decimal(n) == seq![c]);
        assert(seq![c].drop_last() =~= Seq::<char>::empty());
        assert(seq![c].last() == c);
        assert(decimal_value(Seq::<char>::empty()) == 0);
        assert(k == n);
        assert(decimal_value(seq![c]) == decimal_value(seq![c].drop_last()) * 10 + digit_value(seq![c].last()));
    }
    if n >= 10 {
        lemma_decimal_digits(n / 10);
        let d = decimal(n / 10);
        let s = d.push((('0' as u32) + (n % 10)) as char);
        assert(s.drop_last() =~= d);
        assert(s.last() == c);
        assert(decimal(n) == s);
        assert(decimal_value(s) == decimal_value(d) * 10 + k);
        assert(n == (n / 10) * 10 + n % 10) by (nonlinear_arith);
        assert forall|i: int| 0 <= i < s.len() implies is_digit(#[trigger] s[i]) by {
            if i < d.len() {
                assert(s[i] == d[i]);
            }
        }
        assert(s[0] == d[0]);
    }
}

/// Reading back a written number gives the number: what `usize_to_string`
/// writes, `parse_usize` reads as the same value.
pub proof fn law_decimal_round_trip(n: usize)
    ensures
        parsed_usize(decimal(n as nat)) == Some(n as nat),
{
    lemma_decimal_digits(n as nat);
}

/// Whether a line holds no quote character.
pub open spec fn quote_free(s: Seq<char>) -> bool {
    forall|i: int| 0 <= i < s.len() ==> #[trigger] s[i] != '"' && s[i] != '\''
}

/// Reading a quote-free line keeps the words read so far in step with its
/// whitespace-separated words: the word being read is the last of them
/// when the line ends inside a word.
proof fn lemma_word_run_plain(s: Seq<char>)
    requires
        quote_free(s),
    ensures
        word_run(s).quote is None,
        if s.len() == 0 || is_ws(s.last()) {
            word_run(s).cur.len() == 0 && word_run(s).words == ws_tokens(s)
        } else {
            ws_tokens(s).len() >= 1 && word_run(s).cur == ws_tokens(s).last() && word_run(s).cur.len() > 0
                && word_run(s).words == ws_tokens(s).drop_last()
        },
    decreases s.len(),
{
    if s.len() > 0 {
        let p = s.drop_last();
        let c = s.last();
        assert(quote_free(p)) by {
            assert forall|i: int| 0 <= i < p.len() implies #[trigger] p[i] != '"' && p[i] != '\'' by {
                assert(p[i] == s[i]);
            }
        }
        assert(c == s[s.len() - 1]);
        lemma_word_run_plain(p);
        lemma_ws_tokens_words(p);
        if !is_ws(c) {
            lemma_ws_tokens_nonempty(s);
            if p.len() > 0 && !is_ws(p.last()) {
                assert(s[s.len() - 2] == p.last());
                let prev = ws_tokens(p);
                assert(ws_tokens(s) == prev.update(prev.len() - 1, prev.last().push(c)));
                assert(ws_tokens(s).drop_last() =~= prev.drop_last());
            } else {
                if p.len() > 0 {
                    assert(s[s.len() - 2] == p.last());
                }
                assert(ws_tokens(s) == ws_tokens(p).push(seq![c]));
                assert(ws_tokens(s).drop_last() =~= ws_tokens(p));
                assert(Seq::<char>::empty().push(c) =~= seq![c]);
            }
        } else if p.len() > 0 && !is_ws(p.last()) {
            assert(ws_tokens(p).drop_last().push(ws_tokens(p).last()) =~= ws_tokens(p));
        } else if p.len() > 0 {
            assert(ws_tokens(p).len() > 0 ==> ws_tokens(p).last().len() > 0);
        }
    }
}

/// A line without quote characters splits into exactly its
/// whitespace-separated words.
pub proof fn law_unquoted_line_splits_at_whitespace(s: Seq<char>)
    requires
        quote_free(s),
    ensures
        command_words(s) == ws_tokens(s),
{
    lemma_word_run_plain(s);
    if !(s.len() == 0 || is_ws(s.last())) {
        assert(ws_tokens(s).drop_last().push(ws_tokens(s).last()) =~= ws_tokens(s));
    }
}

/// A line without `->` is a single command: the whole line, trimmed (with
/// its line breaks read as spaces), unless it is blank.
pub proof fn law_line_without_arrow_is_one_command(s: Seq<char>)
    requires
        find_arrow(one_line(s), 0) is None,
    ensures
        chain_segments(s) == if trim(one_line(s)).len() > 0 {
            seq![(trim(one_line(s)), false)]
        } else {
            Seq::<(Seq<char>, bool)>::empty()
        },
{
    let cs = one_line(s);
    if cs.len() > 0 {
        assert(cs.subrange(0, cs.len() as int) =~= cs);
    } else {
        assert(trim(cs).len() == 0) by {
            crate::session::lemma_trim_idempotent(cs);
        }
    }
}

/// Every command of a chain is non-empty and has no surrounding
/// whitespace.
pub proof fn law_chain_commands_are_trimmed(s: Seq<char>)
    ensures
        forall|k: int| 0 <= k < chain_segments(s).len() ==> {
            let seg = #[trigger] chain_segments(s)[k].0;
            seg.len() > 0 && trim(seg) == seg
        },
{
    lemma_segments_trimmed(one_line(s), 0);
}

proof fn lemma_segments_trimmed(cs: Seq<char>, last: int)
    ensures
        forall|k: int| 0 <= k < segments_from(cs, last).len() ==> {
            let seg = #[trigger] segments_from(cs, last)[k].0;
            seg.len() > 0 && trim(seg) == seg
        },
    decreases cs.len() - last,
{
    if !(last < 0 || last >= cs.len()) {
        match find_arrow(cs, last) {
            Some(i) => {
                crate::pipeline::lemma_find_arrow_range(cs, last);
                let go_on = i + 2 < cs.len() && cs[i + 2] == '!';
                let end = if go_on { i + 3 } else { i + 2 };
                lemma_segments_trimmed(cs, end);
                let seg = trim(cs.subrange(last, i));
                crate::session::lemma_trim_idempotent(cs.subrange(last, i));
                let rest = segments_from(cs, end);
                if seg.len() > 0 {
                    assert forall|k: int| 0 <= k < segments_from(cs, last).len() implies {
                        let x = #[trigger] segments_from(cs, last)[k].0;
                        x.len() > 0 && trim(x) == x
                    } by {
                        if k > 0 {
                            assert(segments_from(cs, last)[k] == rest[k - 1]);
                        }
                    }
                }
            },
            None => {
                crate::session::lemma_trim_idempotent(cs.subrange(last, cs.len() as int));
            },
        }
    }
}

/// Whether a completion replacement names a directory: without its
/// trailing double quotes it ends with `/` (or with `\\` when backslashes
/// count as separators).
pub open spec fn ends_in_separator(repl: Seq<char>, backslash: bool) -> bool {
    let t = trim_end_quotes(repl);
    t.len() > 0 && (t.last() == '/' || (backslash && t.last() == '\\'))
}

proof fn lemma_dirs_before(s: Seq<(Seq<char>, Seq<char>)>, backslash: bool, i: int, j: int)
    requires
        is_ordered(s, backslash),
        0 <= i <= j < s.len(),
        ends_in_separator(s[j].1, backslash),
    ensures
        ends_in_separator(s[i].1, backslash),
    decreases j - i,
{
    if i < j {
        let k = j - 1;
        assert(cand_le(s[k], s[k + 1], backslash));
        lemma_dirs_before(s, backslash, i, k);
    }
}

/// Completion lists directories first: in the sorted candidates, no entry
/// whose replacement ends in a separator comes after one whose replacement
/// does not.
pub proof fn law_directories_come_first(s: Seq<(Seq<char>, Seq<char>)>, backslash: bool)
    ensures
        forall|i: int, j: int|
            0 <= i < j < sorted_candidates(s, backslash).len() && ends_in_separator(
                #[trigger] sorted_candidates(s, backslash)[j].1,
                backslash,
            ) ==> ends_in_separator(#[trigger] sorted_candidates(s, backslash)[i].1, backslash),
{
    law_sort_is_ordered(s, backslash);
    let r = sorted_candidates(s, backslash);
    assert forall|i: int, j: int|
        0 <= i < j < r.len() && ends_in_separator(#[trigger] r[j].1, backslash) implies ends_in_separator(
        #[trigger] r[i].1,
        backslash,
    ) by {
        lemma_dirs_before(r, backslash, i, j);
    }
}

/// Some tag matches the pattern, written out.
pub open spec fn some_tag_matches(pattern: Seq<char>, tags: Seq<Seq<char>>) -> bool {
    exists|j: int| 0 <= j < tags.len() && #[trigger] regex_match(pattern, tags[j])
}

/// Every pattern matches at least one of the tags, written out.
pub open spec fn each_pattern_matches_a_tag(patterns: Seq<Seq<char>>, tags: Seq<Seq<char>>) -> bool {
    forall|i: int| 0 <= i < patterns.len() ==> #[trigger] some_tag_matches(patterns[i], tags)
}

/// A file's tags satisfy a search exactly when every pattern matches at
/// least one of them (one matching pattern is not enough).
pub proof fn law_every_pattern_must_match(patterns: Seq<Seq<char>>, tags: Seq<Seq<char>>)
    ensures
        all_patterns_match(patterns, tags) == each_pattern_matches_a_tag(patterns, tags),
{
    if all_patterns_match(patterns, tags) {
        assert forall|i: int| 0 <= i < patterns.len() implies #[trigger] some_tag_matches(patterns[i], tags) by {
            assert(crate::managers::tag::pattern_hits(patterns[i], tags));
        }
    }
    if each_pattern_matches_a_tag(patterns, tags) {
        assert forall|i: int| 0 <= i < patterns.len() implies #[trigger] crate::managers::tag::pattern_hits(
            patterns[i],
            tags,
        ) by {
            assert(some_tag_matches(patterns[i], tags));
        }
    }
}

/// A tag search gives exactly the files (in table order) whose tags match
/// every pattern: each file found has, for each pattern, a tag it matches;
/// every such file of the table is found.
pub proof fn law_found_files_match_every_pattern(
    entries: Seq<(Seq<char>, Seq<Seq<char>>)>,
    patterns: Seq<Seq<char>>,
)
    ensures
        forall|k: int|
            0 <= k < entries_matching(entries, patterns).len() ==> each_pattern_matches_a_tag(
                patterns,
                #[trigger] entries_matching(entries, patterns)[k].1,
            ),
        forall|k: int|
            0 <= k < entries.len() && each_pattern_matches_a_tag(patterns, #[trigger] entries[k].1)
                ==> entries_matching(entries, patterns).contains(entries[k]),
{
    broadcast use vstd::seq_lib::group_filter_ensures;
    let f = entries_matching(entries, patterns);
    assert forall|k: int| 0 <= k < f.len() implies each_pattern_matches_a_tag(patterns, #[trigger] f[k].1) by {
        assert(all_patterns_match(patterns, f[k].1));
        law_every_pattern_must_match(patterns, f[k].1);
    }
    assert forall|k: int|
        0 <= k < entries.len() && each_pattern_matches_a_tag(patterns, #[trigger] entries[k].1)
        implies f.contains(entries[k]) by {
        law_every_pattern_must_match(patterns, entries[k].1);
        assert(all_patterns_match(patterns, entries[k].1));
    }
}

/// A case-insensitive search compiles the pattern behind `(?i)`; a
/// case-sensitive one compiles it as it is.
pub proof fn law_insensitive_search_adds_flag(pattern: Seq<char>)
    ensures
        search_source(pattern, true) == seq!['(', '?', 'i', ')'] + pattern,
        search_source(pattern, false) == pattern,
{
    reveal_strlit("(?i)");
}

/// The command names: each name (and alias) picks its command, whatever
/// else the table holds; `exit`, `quit` and `q` leave the loop.
pub proof fn law_command_name_table()
    ensures
        kind_of("rfe"@) == CommandKind::Rfe,
        kind_of("pwd"@) == CommandKind::Pwd,
        kind_of("cppwd"@) == CommandKind::Cppwd,
        kind_of("cpf"@) == CommandKind::Cpf,
        kind_of("cd"@) == CommandKind::Cd,
        kind_of("ls"@) == CommandKind::Ls,
        kind_of("open"@) == CommandKind::Open,
        kind_of("mv"@) == CommandKind::Mv,
        kind_of("alias"@) == CommandKind::Alias,
        kind_of("tag"@) == CommandKind::Tag,
        kind_of("t"@) == CommandKind::Tag,
        kind_of("exit"@) == CommandKind::Exit,
        kind_of("quit"@) == CommandKind::Exit,
        kind_of("q"@) == CommandKind::Exit,
        kind_of("clear"@) == CommandKind::Clear,
        kind_of("cls"@) == CommandKind::Clear,
        kind_of("help"@) == CommandKind::Help,
        kind_of("?"@) == CommandKind::Help,
        kind_of("welcome"@) == CommandKind::Welcome,
        kind_of("mkdf"@) == CommandKind::Mkdf,
        kind_of("change"@) == CommandKind::Change,
{
    reveal_strlit("rfe");
    reveal_strlit("pwd");
    reveal_strlit("cppwd");
    reveal_strlit("cpf");
    reveal_strlit("cd");
    reveal_strlit("ls");
    reveal_strlit("open");
    reveal_strlit("mv");
    reveal_strlit("alias");
    reveal_strlit("tag");
    reveal_strlit("t");
    reveal_strlit("exit");
    reveal_strlit("quit");
    reveal_strlit("q");
    reveal_strlit("clear");
    reveal_strlit("cls");
    reveal_strlit("help");
    reveal_strlit("?");
    reveal_strlit("welcome");
    reveal_strlit("mkdf");
    reveal_strlit("change");
    assert("rfe"@.len() == 3);
    assert("pwd"@.len() == 3);
    assert("cppwd"@.len() == 5);
    assert("cpf"@.len() == 3);
    assert("cd"@.len() == 2);
    assert("ls"@.len() == 2);
    assert("open"@.len() == 4);
    assert("mv"@.len() == 2);
    assert("alias"@.len() == 5);
    assert("tag"@.len() == 3);
    assert("t"@.len() == 1);
    assert("exit"@.len() == 4);
    assert("quit"@.len() == 4);
    assert("q"@.len() == 1);
    assert("clear"@.len() == 5);
    assert("cls"@.len() == 3);
    assert("help"@.len() == 4);
    assert("?"@.len() == 1);
    assert("welcome"@.len() == 7);
    assert("mkdf"@.len() == 4);
    assert("change"@.len() == 6);
    assert("rfe"@[0] == 'r');
    assert("rfe"@[1] == 'f');
    assert("pwd"@[0] == 'p');
    assert("pwd"@[1] == 'w');
    assert("cppwd"@[0] == 'c');
    assert("cppwd"@[1] == 'p');
    assert("cpf"@[0] == 'c');
    assert("cpf"@[1] == 'p');
    assert("cd"@[0] == 'c');
    assert("cd"@[1] == 'd');
    assert("ls"@[0] == 'l');
    assert("ls"@[1] == 's');
    assert("open"@[0] == 'o');
    assert("open"@[1] == 'p');
    assert("mv"@[0] == 'm');
    assert("mv"@[1] == 'v');
    assert("alias"@[0] == 'a');
    assert("alias"@[1] == 'l');
    assert("tag"@[0] == 't');
    assert("tag"@[1] == 'a');
    assert("t"@[0] == 't');
    assert("exit"@[0] == 'e');
    assert("exit"@[1] == 'x');
    assert("quit"@[0] == 'q');
    assert("quit"@[1] == 'u');
    assert("q"@[0] == 'q');
    assert("clear"@[0] == 'c');
    assert("clear"@[1] == 'l');
    assert("cls"@[0] == 'c');
    assert("cls"@[1] == 'l');
    assert("help"@[0] == 'h');
    assert("help"@[1] == 'e');
    assert("?"@[0] == '?');
    assert("welcome"@[0] == 'w');
    assert("welcome"@[1] == 'e');
    assert("mkdf"@[0] == 'm');
    assert("mkdf"@[1] == 'k');
    assert("change"@[0] == 'c');
    assert("change"@[1] == 'h');
}

proof fn lemma_names_with_prefix_start(names: Seq<Seq<char>>, p: Seq<char>)
    ensures
        forall|i: int| 0 <= i < names_with_prefix(names, p).len() ==> starts_with(#[trigger] names_with_prefix(names, p)[i], p),
    decreases names.len(),
{
    if names.len() > 0 {
        lemma_names_with_prefix_start(names.drop_last(), p);
        let prev = names_with_prefix(names.drop_last(), p);
        let r = names_with_prefix(names, p);
        assert forall|i: int| 0 <= i < r.len() implies starts_with(#[trigger] r[i], p) by {
            if i < prev.len() {
                assert(r[i] == prev[i]);
            }
        }
    }
}

proof fn lemma_described_start(names: Seq<Seq<char>>, desc: Seq<char>, p: Seq<char>, prev: Seq<(Seq<char>, Seq<char>)>)
    requires
        forall|i: int| 0 <= i < prev.len() ==> starts_with(#[trigger] prev[i].0, p),
    ensures
        forall|i: int| 0 <= i < (prev + with_description(names_with_prefix(names, p), desc)).len() ==> starts_with(
            #[trigger] (prev + with_description(names_with_prefix(names, p), desc))[i].0,
            p,
        ),
{
    lemma_names_with_prefix_start(names, p);
    let w = with_description(names_with_prefix(names, p), desc);
    assert forall|i: int| 0 <= i < (prev + w).len() implies starts_with(#[trigger] (prev + w)[i].0, p) by {
        if i >= prev.len() {
            assert((prev + w)[i] == w[i - prev.len()]);
            assert(w[i - prev.len()].0 == names_with_prefix(names, p)[i - prev.len()]);
        } else {
            assert((prev + w)[i] == prev[i]);
        }
    }
}

proof fn lemma_arg_completions_start(args: Seq<ArgSpec>, p: Seq<char>)
    ensures
        forall|i: int| 0 <= i < arg_completions(args, p).len() ==> starts_with(#[trigger] arg_completions(args, p)[i].0, p),
    decreases args.len(),
{
    if args.len() > 0 {
        lemma_arg_completions_start(args.drop_last(), p);
        lemma_described_start(arg_names(args.last()), args.last().description, p, arg_completions(args.drop_last(), p));
    }
}

proof fn lemma_sub_completions_start(subs: Seq<CommandSpec>, p: Seq<char>)
    ensures
        forall|i: int| 0 <= i < sub_completions(subs, p).len() ==> starts_with(#[trigger] sub_completions(subs, p)[i].0, p),
    decreases subs.len(),
{
    if subs.len() > 0 {
        lemma_sub_completions_start(subs.drop_last(), p);
        lemma_described_start(command_names(subs.last()), subs.last().description, p, sub_completions(subs.drop_last(), p));
    }
}

proof fn lemma_list_with_prefix_start(list: Seq<(Seq<char>, Seq<char>)>, p: Seq<char>)
    ensures
        forall|i: int| 0 <= i < list_with_prefix(list, p).len() ==> starts_with(#[trigger] list_with_prefix(list, p)[i].0, p),
    decreases list.len(),
{
    if list.len() > 0 {
        lemma_list_with_prefix_start(list.drop_last(), p);
        let prev = list_with_prefix(list.drop_last(), p);
        let r = list_with_prefix(list, p);
        assert forall|i: int| 0 <= i < r.len() implies starts_with(#[trigger] r[i].0, p) by {
            if i < prev.len() {
                assert(r[i] == prev[i]);
            }
        }
    }
}

proof fn lemma_rest_completes(name: Seq<char>, p: Seq<char>)
    requires
        starts_with(name, p),
    ensures
        p + rest_after_prefix(name, p) == name,
{
    assert(p + name.subrange(p.len() as int, name.len() as int) =~= name);
}

/// The inline hint completes the word being typed to the first thing the
/// completer offers for it: a command name, an argument of the command, or
/// a subcommand. The typed word followed by the hint is that completion.
pub proof fn law_hint_completes_the_typed_word(
    cmds: Seq<CommandSpec>,
    list: Seq<(Seq<char>, Seq<char>)>,
    line: Seq<char>,
    pos: int,
)
    requires
        line.len() > 0,
        pos != 0,
    ensures
        parse_context(cmds, chars_before(line, pos)) matches ContextSpec::CommandName(p) ==> (p.len() > 0
            && list_with_prefix(list, p).len() > 0 ==> (hint_spec(cmds, list, line, pos) matches Some(h)
            && p + h == list_with_prefix(list, p)[0].0)),
        parse_context(cmds, chars_before(line, pos)) matches ContextSpec::CommandArg(c, a) ==> (find_command(cmds, c) matches Some(k)
            ==> (arg_completions(cmds[k].args, a).len() > 0 ==> (hint_spec(cmds, list, line, pos) matches Some(h)
            && a + h == arg_completions(cmds[k].args, a)[0].0))),
        parse_context(cmds, chars_before(line, pos)) matches ContextSpec::Subcommand(c, sp) ==> (find_command(cmds, c) matches Some(k)
            ==> (sub_completions(cmds[k].subcommands, sp).len() > 0 ==> (hint_spec(cmds, list, line, pos) matches Some(h)
            && sp + h == sub_completions(cmds[k].subcommands, sp)[0].0))),
{
    match parse_context(cmds, chars_before(line, pos)) {
        ContextSpec::CommandName(p) => {
            lemma_list_with_prefix_start(list, p);
            if list_with_prefix(list, p).len() > 0 {
                lemma_rest_completes(list_with_prefix(list, p)[0].0, p);
            }
        },
        ContextSpec::CommandArg(c, a) => {
            if let Some(k) = find_command(cmds, c) {
                lemma_arg_completions_start(cmds[k].args, a);
                if arg_completions(cmds[k].args, a).len() > 0 {
                    lemma_rest_completes(arg_completions(cmds[k].args, a)[0].0, a);
                }
            }
        },
        ContextSpec::Subcommand(c, sp) => {
            if let Some(k) = find_command(cmds, c) {
                lemma_sub_completions_start(cmds[k].subcommands, sp);
                if sub_completions(cmds[k].subcommands, sp).len() > 0 {
                    lemma_rest_completes(sub_completions(cmds[k].subcommands, sp)[0].0, sp);
                }
            }
        },
        _ => {},
    }
}

/// Whether `a` comes before `b` in dictionary order, written out: `a` is a
/// prefix of `b`, or at the first place they differ `a` has the smaller
/// character.
pub open spec fn dictionary_before(a: Seq<char>, b: Seq<char>) -> bool {
    starts_with(b, a) || exists|k: int|
        0 <= k < a.len() && k < b.len() && a.take(k) == b.take(k) && #[trigger] a[k] < #[trigger] b[k]
}

/// The order of names in completion lists is dictionary order.
pub proof fn law_names_in_dictionary_order(a: Seq<char>, b: Seq<char>)
    ensures
        chars_le(a, b) == dictionary_before(a, b),
    decreases a.len(),
{
    if a.len() == 0 {
        assert(b.subrange(0, 0) =~= a);
    } else if b.len() == 0 {
        assert(!starts_with(b, a));
    } else if a[0] != b[0] {
        if a[0] < b[0] {
            assert(a.take(0) =~= b.take(0));
        } else {
            if starts_with(b, a) {
                assert(b.subrange(0, a.len() as int)[0] == b[0]);
                assert(a[0] == b[0]);
            }
            if exists|k: int| 0 <= k < a.len() && k < b.len() && a.take(k) == b.take(k) && #[trigger] a[k] < #[trigger] b[k] {
                let k = choose|k: int| 0 <= k < a.len() && k < b.len() && a.take(k) == b.take(k) && #[trigger] a[k] < #[trigger] b[k];
                if k > 0 {
                    assert(a.take(k)[0] == b.take(k)[0]);
                }
            }
        }
    } else {
        let a1 = a.drop_first();
        let b1 = b.drop_first();
        law_names_in_dictionary_order(a1, b1);
        if starts_with(b1, a1) {
            assert(b.subrange(0, a.len() as int) =~= seq![b[0]] + b1.subrange(0, a1.len() as int));
            assert(a =~= seq![a[0]] + a1);
        }
        if starts_with(b, a) {
            assert(b1.subrange(0, a1.len() as int) =~= b.subrange(0, a.len() as int).drop_first());
            assert(a1 =~= a.drop_first());
        }
        if exists|k: int| 0 <= k < a1.len() && k < b1.len() && a1.take(k) == b1.take(k) && #[trigger] a1[k] < #[trigger] b1[k] {
            let k = choose|k: int| 0 <= k < a1.len() && k < b1.len() && a1.take(k) == b1.take(k) && #[trigger] a1[k] < #[trigger] b1[k];
            assert(a.take(k + 1) =~= seq![a[0]] + a1.take(k));
            assert(b.take(k + 1) =~= seq![b[0]] + b1.take(k));
            assert(a[k + 1] == a1[k] && b[k + 1] == b1[k]);
        }
        if exists|k: int| 0 <= k < a.len() && k < b.len() && a.take(k) == b.take(k) && #[trigger] a[k] < #[trigger] b[k] {
            let k = choose|k: int| 0 <= k < a.len() && k < b.len() && a.take(k) == b.take(k) && #[trigger] a[k] < #[trigger] b[k];
            assert(k > 0);
            assert(a1.take(k - 1) =~= a.take(k).drop_first());
            assert(b1.take(k - 1) =~= b.take(k).drop_first());
            assert(a1[k - 1] == a[k] && b1[k - 1] == b[k]);
        }
    }
}

proof fn lemma_chars_le_refl(a: Seq<char>)
    ensures
        chars_le(a, a),
    decreases a.len(),
{
    if a.len() > 0 {
        lemma_chars_le_refl(a.drop_first());
    }
}

proof fn lemma_chars_le_trans(a: Seq<char>, b: Seq<char>, c: Seq<char>)
    requires
        chars_le(a, b),
        chars_le(b, c),
    ensures
        chars_le(a, c),
    decreases a.len(),
{
    if a.len() > 0 && b.len() > 0 && c.len() > 0 && a[0] == b[0] && b[0] == c[0] {
        lemma_chars_le_trans(a.drop_first(), b.drop_first(), c.drop_first());
    }
}

proof fn lemma_same_kind_le(s: Seq<(Seq<char>, Seq<char>)>, backslash: bool, i: int, j: int)
    requires
        is_ordered(s, backslash),
        0 <= i <= j < s.len(),
        ends_in_separator(s[i].1, backslash) == ends_in_separator(s[j].1, backslash),
    ensures
        chars_le(s[i].0, s[j].0),
    decreases j - i,
{
    if i == j {
        lemma_chars_le_refl(s[i].0);
    } else {
        let m = j - 1;
        assert(cand_le(s[m], s[m + 1], backslash));
        if ends_in_separator(s[j].1, backslash) {
            lemma_dirs_before(s, backslash, m, j);
        } else if ends_in_separator(s[m].1, backslash) {
            lemma_dirs_before(s, backslash, i, m);
            assert(false);
        }
        lemma_same_kind_le(s, backslash, i, m);
        lemma_chars_le_trans(s[i].0, s[m].0, s[j].0);
    }
}

/// Within directories, and within files, completion candidates come in
/// dictionary order of the names shown.
pub proof fn law_names_ordered_within_kind(s: Seq<(Seq<char>, Seq<char>)>, backslash: bool)
    ensures
        forall|i: int, j: int|
            0 <= i < j < sorted_candidates(s, backslash).len() && ends_in_separator(
                #[trigger] sorted_candidates(s, backslash)[i].1,
                backslash,
            ) == ends_in_separator(#[trigger] sorted_candidates(s, backslash)[j].1, backslash) ==> dictionary_before(
                sorted_candidates(s, backslash)[i].0,
                sorted_candidates(s, backslash)[j].0,
            ),
{
    law_sort_is_ordered(s, backslash);
    let r = sorted_candidates(s, backslash);
    assert forall|i: int, j: int|
        0 <= i < j < r.len() && ends_in_separator(#[trigger] r[i].1, backslash) == ends_in_separator(
            #[trigger] r[j].1,
            backslash,
        ) implies dictionary_before(r[i].0, r[j].0) by {
        lemma_same_kind_le(r, backslash, i, j);
        law_names_in_dictionary_order(r[i].0, r[j].0);
    }
}

} // verus!
