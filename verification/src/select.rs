//! Choosing a tagged file or directory: `cd -idx <tag>` (directories marked
//! by a tagged `.index` entry) and `open -tag <tag>` (any tagged entry),
//! with an optional 1-based selection among several matches.

use vstd::prelude::*;
use crate::completion::types::clone_strings;
use crate::managers::tag::{TagManager, tag_entries, pattern_hits};
use crate::numbers::{decimal, usize_to_string};
use crate::pattern::{TagPattern, regex_error};
use crate::text::{chars_of, chars_contain, contains_seq, views};

verus! {

/// What `str::to_lowercase` gives for `s` (full Unicode lower-casing).
pub uninterp spec fn lowercase(s: Seq<char>) -> Seq<char>;

/// Whether every character of `s` is ASCII.
pub open spec fn all_ascii(s: Seq<char>) -> bool {
    forall|i: int| 0 <= i < s.len() ==> (#[trigger] s[i] as u32) < 128
}

/// The ASCII lower-case form of a character: `A`-`Z` become `a`-`z`, every
/// other character stays.
pub open spec fn ascii_lower(c: char) -> char {
    if 'A' <= c && c <= 'Z' {
        ((c as u32) + 32) as char
    } else {
        c
    }
}

/// `str::to_lowercase`: claims that the result is the lower-casing of `s`
/// named [`lowercase`], which depends on `s` alone, and that on all-ASCII
/// text it lower-cases letter by letter, as std documents.
#[verifier::external_body]
pub(crate) fn to_lowercase(s: &str) -> (r: String)
    ensures
        r@ == lowercase(s@),
        all_ascii(s@) ==> r@ == s@.map_values(|c: char| ascii_lower(c)),
{
    s.to_lowercase()
}

/// Whether `s` ends with `suffix`.
pub open spec fn ends_with(s: Seq<char>, suffix: Seq<char>) -> bool {
    suffix.len() <= s.len() && s.skip(s.len() - suffix.len()) == suffix
}

/// Whether a tag key marks a directory: its lower-cased form holds `.index`
/// or ends with `index`.
pub open spec fn is_index_spec(path: Seq<char>) -> bool {
    contains_seq(lowercase(path), ".index"@) || ends_with(lowercase(path), "index"@)
}

/// Whether `s` ends with `suffix`.
pub(crate) fn chars_end_with(s: &Vec<char>, suffix: &Vec<char>) -> (r: bool)
    ensures
        r == ends_with(s@, suffix@),
{
    if suffix.len() > s.len() {
        return false;
    }
    let off = s.len() - suffix.len();
    let mut j: usize = 0;
    while j < suffix.len()
        invariant
            off + suffix.len() == s.len(),
            j <= suffix.len(),
            forall|m: int| 0 <= m < j ==> s@[off + m] == suffix@[m],
        decreases suffix.len() - j,
    {
        if s[off + j] != suffix[j] {
            assert(s@.skip(off as int)[j as int] != suffix@[j as int]);
            return false;
        }
        j = j + 1;
    }
    assert(s@.skip(off as int) =~= suffix@);
    true
}

/// Whether a tag key marks a directory (see [`is_index_spec`]).
pub fn is_index_key(path: &str) -> (r: bool)
    ensures
        r == is_index_spec(path@),
{
    let low = to_lowercase(path);
    let cs = chars_of(low.as_str());
    let mut dot_index: Vec<char> = Vec::new();
    dot_index.push('.');
    let mut index: Vec<char> = Vec::new();
    index.push('i');
    index.push('n');
    index.push('d');
    index.push('e');
    index.push('x');
    dot_index.append(&mut index.clone());
    proof {
        reveal_strlit(".index");
        reveal_strlit("index");
    }
    assert(dot_index@ =~= ".index"@);
    assert(index@ =~= "index"@);
    chars_contain(&cs, &dot_index) || chars_end_with(&cs, &index)
}

/// Whether some tag in `tags` matches `pattern`.
fn any_tag_matches(tags: &Vec<String>, pattern: &TagPattern) -> (r: bool)
    ensures
        r == pattern_hits(pattern.source(), views(tags@)),
{
    let ghost ts = views(tags@);
    let mut j: usize = 0;
    while j < tags.len()
        invariant
            j <= tags@.len(),
            ts == views(tags@),
            forall|b: int| 0 <= b < j ==> !crate::pattern::regex_match(pattern.source(), #[trigger] ts[b]),
        decreases tags.len() - j,
    {
        if pattern.is_match(tags[j].as_str()) {
            assert(crate::pattern::regex_match(pattern.source(), ts[j as int]));
            return true;
        }
        j = j + 1;
    }
    false
}

/// The entries (in table order) that are index keys with a tag matching
/// `pattern`.
pub open spec fn index_matches(
    e: Seq<(Seq<char>, Seq<Seq<char>>)>,
    pattern: Seq<char>,
) -> Seq<(Seq<char>, Seq<Seq<char>>)> {
    e.filter(|p: (Seq<char>, Seq<Seq<char>>)| is_index_spec(p.0) && pattern_hits(pattern, p.1))
}

/// The entries (in table order) with a tag matching `pattern`.
pub open spec fn tag_matches(
    e: Seq<(Seq<char>, Seq<Seq<char>>)>,
    pattern: Seq<char>,
) -> Seq<(Seq<char>, Seq<Seq<char>>)> {
    e.filter(|p: (Seq<char>, Seq<Seq<char>>)| pattern_hits(pattern, p.1))
}

/// The entries of `tm` with a tag matching `pattern`, restricted to index
/// keys when `only_index` is set.
pub fn find_matching(tm: &TagManager, pattern: &TagPattern, only_index: bool) -> (r: Vec<(String, Vec<String>)>)
    ensures
        tag_entries(r@) == if only_index {
            index_matches(tm.entries(), pattern.source())
        } else {
            tag_matches(tm.entries(), pattern.source())
        },
{
    let all = tm.list_all();
    let ghost e = tm.entries();
    let ghost want = if only_index {
        index_matches(e, pattern.source())
    } else {
        tag_matches(e, pattern.source())
    };
    let mut out: Vec<(String, Vec<String>)> = Vec::new();
    let mut i: usize = 0;
    while i < all.len()
        invariant
            i <= all@.len(),
            e == tag_entries(all@),
            want == (if only_index {
                index_matches(e, pattern.source())
            } else {
                tag_matches(e, pattern.source())
            }),
            tag_entries(out@) == (if only_index {
                index_matches(e.take(i as int), pattern.source())
            } else {
                tag_matches(e.take(i as int), pattern.source())
            }),
        decreases all.len() - i,
    {
        reveal_with_fuel(Seq::filter, 1);
        assert(e.take(i + 1).drop_last() == e.take(i as int));
        assert(e.take(i + 1).last() == e[i as int]);
        assert(e[i as int] == (all@[i as int].0@, views(all@[i as int].1@)));
        let hit = any_tag_matches(&all[i].1, pattern);
        let keep = if only_index {
            is_index_key(all[i].0.as_str()) && hit
        } else {
            hit
        };
        if keep {
            let ghost before = out@;
            out.push((all[i].0.clone(), clone_strings(&all[i].1)));
            assert(tag_entries(out@) =~= tag_entries(before).push(e[i as int]));
        }
        i = i + 1;
    }
    assert(e.take(all.len() as int) == e);
    out
}

/// The outcome of choosing among matching entries.
pub enum PlanSpec {
    /// Refused, with this message.
    Fail(Seq<char>),
    /// This entry (key and tags) is chosen.
    Go(Seq<char>, Seq<Seq<char>>),
    /// The user must pick one of these.
    Ask(Seq<(Seq<char>, Seq<Seq<char>>)>),
}

/// Choosing among `found`: none is refused with `none_msg`; a single match
/// is taken; otherwise a 1-based `selection` picks one (out of range is
/// refused), and without one the user is asked.
pub open spec fn choose_from(
    found: Seq<(Seq<char>, Seq<Seq<char>>)>,
    selection: Option<usize>,
    none_msg: Seq<char>,
) -> PlanSpec {
    if found.len() == 0 {
        PlanSpec::Fail(none_msg)
    } else if found.len() == 1 {
        PlanSpec::Go(found[0].0, found[0].1)
    } else {
        match selection {
            Some(s) => if s < 1 || s > found.len() {
                PlanSpec::Fail("Invalid selection. Please enter a number between 1 and "@ + decimal(found.len()))
            } else {
                PlanSpec::Go(found[s - 1].0, found[s - 1].1)
            },
            None => PlanSpec::Ask(found),
        }
    }
}

/// `cd -idx <tag>`: the index keys with a tag matching the regex `tag`.
pub open spec fn cd_index_plan(
    e: Seq<(Seq<char>, Seq<Seq<char>>)>,
    tag: Option<Seq<char>>,
    selection: Option<usize>,
) -> PlanSpec {
    match tag {
        None => PlanSpec::Fail("Usage: cd -idx <tag>"@),
        Some(t) => match regex_error(t) {
            Some(m) => PlanSpec::Fail(m),
            None => choose_from(index_matches(e, t), selection, "No directories found with .index file matching tag: "@ + t),
        },
    }
}

/// `open -tag <tag>`: the entries with a tag matching the regex `tag`.
pub open spec fn open_tag_plan(
    e: Seq<(Seq<char>, Seq<Seq<char>>)>,
    tag: Option<Seq<char>>,
    selection: Option<usize>,
) -> PlanSpec {
    match tag {
        None => PlanSpec::Fail("Usage: open -tag <tag>"@),
        Some(t) => match regex_error(t) {
            Some(m) => PlanSpec::Fail(m),
            None => choose_from(tag_matches(e, t), selection, "No files found matching tag: "@ + t),
        },
    }
}

/// A chosen entry, or the entries to choose from.
pub enum TagPick {
    Go(String, Vec<String>),
    Ask(Vec<(String, Vec<String>)>),
}

/// The outcome of a pick, as a value.
pub open spec fn pick_view(r: Result<TagPick, String>) -> PlanSpec {
    match r {
        Ok(TagPick::Go(k, t)) => PlanSpec::Go(k@, views(t@)),
        Ok(TagPick::Ask(v)) => PlanSpec::Ask(tag_entries(v@)),
        Err(m) => PlanSpec::Fail(m@),
    }
}

/// Chooses among `found` (see [`choose_from`]).
fn choose_pick(found: Vec<(String, Vec<String>)>, selection: Option<usize>, none_msg: String) -> (r: Result<TagPick, String>)
    ensures
        pick_view(r) == choose_from(tag_entries(found@), selection, none_msg@),
{
    let ghost f = tag_entries(found@);
    let n = found.len();
    if n == 0 {
        return Err(none_msg);
    }
    if n == 1 {
        let k = found[0].0.clone();
        let t = clone_strings(&found[0].1);
        return Ok(TagPick::Go(k, t));
    }
    match selection {
        Some(s) => {
            if s < 1 || s > n {
                let mut m = "Invalid selection. Please enter a number between 1 and ".to_owned();
                m.append(usize_to_string(n).as_str());
                Err(m)
            } else {
                let k = found[s - 1].0.clone();
                let t = clone_strings(&found[s - 1].1);
                Ok(TagPick::Go(k, t))
            }
        },
        None => Ok(TagPick::Ask(found)),
    }
}

/// Plans `cd -idx <tag>` on the tag table (see [`cd_index_plan`]); the
/// chosen key names the `.index` entry, whose parent is the directory.
pub fn plan_cd_index(tm: &TagManager, tag: Option<&str>, selection: Option<usize>) -> (r: Result<TagPick, String>)
    ensures
        pick_view(r) == cd_index_plan(tm.entries(), match tag {
            Some(t) => Some(t@),
            None => None,
        }, selection),
{
    match tag {
        None => Err("Usage: cd -idx <tag>".to_owned()),
        Some(t) => match TagPattern::new(t) {
            Err(m) => Err(m),
            Ok(p) => {
                let found = find_matching(tm, &p, true);
                let mut msg = "No directories found with .index file matching tag: ".to_owned();
                msg.append(t);
                choose_pick(found, selection, msg)
            },
        },
    }
}

/// Plans `open -tag <tag>` on the tag table (see [`open_tag_plan`]).
pub fn plan_open_tag(tm: &TagManager, tag: Option<&str>, selection: Option<usize>) -> (r: Result<TagPick, String>)
    ensures
        pick_view(r) == open_tag_plan(tm.entries(), match tag {
            Some(t) => Some(t@),
            None => None,
        }, selection),
{
    match tag {
        None => Err("Usage: open -tag <tag>".to_owned()),
        Some(t) => match TagPattern::new(t) {
            Err(m) => Err(m),
            Ok(p) => {
                let found = find_matching(tm, &p, false);
                let mut msg = "No files found matching tag: ".to_owned();
                msg.append(t);
                choose_pick(found, selection, msg)
            },
        },
    }
}

} // verus!
