//! The order of path completion candidates: directories first, then by
//! name, keeping the listing order among equals.

use vstd::prelude::*;
use crate::quote_context::Pair;
use crate::text::chars_of;

verus! {

/// Whether `a` comes before `b` or equals it, character by character
/// (`str`'s order).
pub open spec fn chars_le(a: Seq<char>, b: Seq<char>) -> bool
    decreases a.len(),
{
    if a.len() == 0 {
        true
    } else if b.len() == 0 {
        false
    } else if a[0] != b[0] {
        a[0] < b[0]
    } else {
        chars_le(a.drop_first(), b.drop_first())
    }
}

/// `s` without its trailing double quotes.
pub open spec fn trim_end_quotes(s: Seq<char>) -> Seq<char>
    decreases s.len(),
{
    if s.len() > 0 && s.last() == '"' {
        trim_end_quotes(s.drop_last())
    } else {
        s
    }
}

/// Whether a replacement names a directory: without its trailing double
/// quotes it ends with `/`, or with `\` when `backslash` is set.
pub open spec fn is_dir_replacement(repl: Seq<char>, backslash: bool) -> bool {
    let t = trim_end_quotes(repl);
    t.len() > 0 && (t.last() == '/' || (backslash && t.last() == '\\'))
}

/// Whether candidate `a` (display, replacement) may come before `b`:
/// directories before files, then by display name.
pub open spec fn cand_le(a: (Seq<char>, Seq<char>), b: (Seq<char>, Seq<char>), backslash: bool) -> bool {
    let da = is_dir_replacement(a.1, backslash);
    let db = is_dir_replacement(b.1, backslash);
    if da && !db {
        true
    } else if !da && db {
        false
    } else {
        chars_le(a.0, b.0)
    }
}

/// `x` inserted into `s` after every candidate that may come before it.
pub open spec fn insert_sorted(
    s: Seq<(Seq<char>, Seq<char>)>,
    x: (Seq<char>, Seq<char>),
    backslash: bool,
) -> Seq<(Seq<char>, Seq<char>)>
    decreases s.len(),
{
    if s.len() == 0 {
        seq![x]
    } else if cand_le(s.last(), x, backslash) {
        s.push(x)
    } else {
        insert_sorted(s.drop_last(), x, backslash).push(s.last())
    }
}

/// The candidates in order (a stable sort by [`cand_le`]).
pub open spec fn sorted_candidates(s: Seq<(Seq<char>, Seq<char>)>, backslash: bool) -> Seq<(Seq<char>, Seq<char>)>
    decreases s.len(),
{
    if s.len() == 0 {
        Seq::empty()
    } else {
        insert_sorted(sorted_candidates(s.drop_last(), backslash), s.last(), backslash)
    }
}

/// The views of candidates.
pub open spec fn cands_view(v: Seq<Pair>) -> Seq<(Seq<char>, Seq<char>)> {
    v.map_values(|p: Pair| (p.display@, p.replacement@))
}

/// A copy of a candidate.
pub fn clone_pair(p: &Pair) -> (r: Pair)
    ensures
        r.display@ == p.display@,
        r.replacement@ == p.replacement@,
{
    Pair { display: p.display.clone(), replacement: p.replacement.clone() }
}

/// Whether `a` comes before `b` or equals it.
fn chars_le_exec(a: &Vec<char>, b: &Vec<char>) -> (r: bool)
    ensures
        r == chars_le(a@, b@),
{
    let mut i: usize = 0;
    assert(a@.skip(0) == a@);
    assert(b@.skip(0) == b@);
    while i < a.len()
        invariant
            i <= a@.len(),
            i <= b@.len(),
            chars_le(a@, b@) == chars_le(a@.skip(i as int), b@.skip(i as int)),
        decreases a.len() - i,
    {
        if i >= b.len() {
            return false;
        }
        assert(a@.skip(i as int).drop_first() == a@.skip(i + 1));
        assert(b@.skip(i as int).drop_first() == b@.skip(i + 1));
        assert(a@.skip(i as int)[0] == a@[i as int]);
        assert(b@.skip(i as int)[0] == b@[i as int]);
        if a[i] != b[i] {
            return a[i] < b[i];
        }
        i = i + 1;
    }
    true
}

/// Whether a replacement names a directory (see [`is_dir_replacement`]).
fn is_dir_exec(repl: &str, backslash: bool) -> (r: bool)
    ensures
        r == is_dir_replacement(repl@, backslash),
{
    let cs = chars_of(repl);
    let mut n = cs.len();
    assert(cs@.take(n as int) == cs@);
    while n > 0 && cs[n - 1] == '"'
        invariant
            n <= cs@.len(),
            trim_end_quotes(cs@) == trim_end_quotes(cs@.take(n as int)),
        decreases n,
    {
        assert(cs@.take(n as int).drop_last() == cs@.take(n - 1));
        n = n - 1;
    }
    assert(trim_end_quotes(cs@.take(n as int)) == cs@.take(n as int));
    n > 0 && (cs[n - 1] == '/' || (backslash && cs[n - 1] == '\\'))
}

/// Whether candidate `a` may come before `b` (see [`cand_le`]).
fn cand_le_exec(a: &Pair, b: &Pair, backslash: bool) -> (r: bool)
    ensures
        r == cand_le((a.display@, a.replacement@), (b.display@, b.replacement@), backslash),
{
    let da = is_dir_exec(a.replacement.as_str(), backslash);
    let db = is_dir_exec(b.replacement.as_str(), backslash);
    if da && !db {
        true
    } else if !da && db {
        false
    } else {
        let x = chars_of(a.display.as_str());
        let y = chars_of(b.display.as_str());
        chars_le_exec(&x, &y)
    }
}

proof fn lemma_insert_at(s: Seq<(Seq<char>, Seq<char>)>, x: (Seq<char>, Seq<char>), backslash: bool, j: int)
    requires
        0 <= j <= s.len(),
        j == 0 || cand_le(s[j - 1], x, backslash),
        forall|k: int| j <= k < s.len() ==> !cand_le(#[trigger] s[k], x, backslash),
    ensures
        insert_sorted(s, x, backslash) == s.take(j).push(x) + s.skip(j),
    decreases s.len(),
{
    if s.len() == 0 {
        assert(s.take(j).push(x) + s.skip(j) =~= seq![x]);
    } else if j == s.len() {
        assert(s.take(j) == s);
        assert(s.take(j).push(x) + s.skip(j) =~= s.push(x));
    } else {
        assert(!cand_le(s[s.len() - 1], x, backslash));
        lemma_insert_at(s.drop_last(), x, backslash, j);
        assert(s.drop_last().take(j) == s.take(j));
        assert((s.take(j).push(x) + s.drop_last().skip(j)).push(s.last()) =~= s.take(j).push(x) + s.skip(j));
    }
}

/// The candidates in order (see [`sorted_candidates`]).
pub fn sort_candidates(v: Vec<Pair>, backslash: bool) -> (r: Vec<Pair>)
    ensures
        cands_view(r@) == sorted_candidates(cands_view(v@), backslash),
{
    let ghost src = cands_view(v@);
    let mut out: Vec<Pair> = Vec::new();
    let mut i: usize = 0;
    while i < v.len()
        invariant
            i <= v@.len(),
            src == cands_view(v@),
            cands_view(out@) == sorted_candidates(src.take(i as int), backslash),
        decreases v.len() - i,
    {
        let x = clone_pair(&v[i]);
        assert(src.take(i + 1).drop_last() == src.take(i as int));
        assert(src.take(i + 1).last() == src[i as int]);
        let ghost xv = (x.display@, x.replacement@);
        assert(xv == src[i as int]);
        let ghost s = cands_view(out@);
        let mut j: usize = out.len();
        while j > 0 && !cand_le_exec(&out[j - 1], &x, backslash)
            invariant
                j <= out@.len(),
                s == cands_view(out@),
                xv == (x.display@, x.replacement@),
                forall|k: int| j <= k < s.len() ==> !cand_le(#[trigger] s[k], xv, backslash),
            decreases j,
        {
            j = j - 1;
        }
        proof {
            lemma_insert_at(s, xv, backslash, j as int);
        }
        out.insert(j, x);
        assert(cands_view(out@) =~= s.take(j as int).push(xv) + s.skip(j as int));
        i = i + 1;
    }
    assert(src.take(v.len() as int) == src);
    out
}

proof fn lemma_insert_multiset(s: Seq<(Seq<char>, Seq<char>)>, x: (Seq<char>, Seq<char>), backslash: bool)
    ensures
        insert_sorted(s, x, backslash).to_multiset() == s.to_multiset().insert(x),
    decreases s.len(),
{
    broadcast use vstd::seq_lib::group_to_multiset_ensures;
    if s.len() == 0 {
        assert(seq![x] == Seq::<(Seq<char>, Seq<char>)>::empty().push(x));
    } else if cand_le(s.last(), x, backslash) {
    } else {
        lemma_insert_multiset(s.drop_last(), x, backslash);
        assert(s.drop_last().push(s.last()) == s);
        assert(s.to_multiset() == s.drop_last().to_multiset().insert(s.last()));
        assert(insert_sorted(s, x, backslash).to_multiset() =~= s.to_multiset().insert(x));
    }
}

/// Sorting keeps every candidate, as often as it occurs.
pub proof fn law_sort_is_permutation(s: Seq<(Seq<char>, Seq<char>)>, backslash: bool)
    ensures
        sorted_candidates(s, backslash).to_multiset() == s.to_multiset(),
    decreases s.len(),
{
    broadcast use vstd::seq_lib::group_to_multiset_ensures;
    if s.len() > 0 {
        law_sort_is_permutation(s.drop_last(), backslash);
        lemma_insert_multiset(sorted_candidates(s.drop_last(), backslash), s.last(), backslash);
        assert(s.drop_last().push(s.last()) == s);
    }
}

proof fn lemma_chars_le_total(a: Seq<char>, b: Seq<char>)
    ensures
        chars_le(a, b) || chars_le(b, a),
    decreases a.len(),
{
    if a.len() > 0 && b.len() > 0 && a[0] == b[0] {
        lemma_chars_le_total(a.drop_first(), b.drop_first());
    }
}

proof fn lemma_cand_le_total(a: (Seq<char>, Seq<char>), b: (Seq<char>, Seq<char>), backslash: bool)
    ensures
        cand_le(a, b, backslash) || cand_le(b, a, backslash),
{
    lemma_chars_le_total(a.0, b.0);
}

/// Whether each candidate may come before the next.
pub open spec fn is_ordered(s: Seq<(Seq<char>, Seq<char>)>, backslash: bool) -> bool {
    forall|i: int| 0 <= i < s.len() - 1 ==> #[trigger] cand_le(s[i], s[i + 1], backslash)
}

proof fn lemma_insert_ordered(s: Seq<(Seq<char>, Seq<char>)>, x: (Seq<char>, Seq<char>), backslash: bool)
    requires
        is_ordered(s, backslash),
    ensures
        is_ordered(insert_sorted(s, x, backslash), backslash),
        insert_sorted(s, x, backslash).len() == s.len() + 1,
        s.len() > 0 ==> insert_sorted(s, x, backslash).last() == s.last() || insert_sorted(s, x, backslash).last() == x,
    decreases s.len(),
{
    if s.len() == 0 {
    } else if cand_le(s.last(), x, backslash) {
        let r = s.push(x);
        assert forall|i: int| 0 <= i < r.len() - 1 implies #[trigger] cand_le(r[i], r[i + 1], backslash) by {
            if i < s.len() - 1 {
                assert(cand_le(s[i], s[i + 1], backslash));
            }
        }
    } else {
        let p = s.drop_last();
        assert(is_ordered(p, backslash)) by {
            assert forall|i: int| 0 <= i < p.len() - 1 implies #[trigger] cand_le(p[i], p[i + 1], backslash) by {
                assert(cand_le(s[i], s[i + 1], backslash));
            }
        }
        lemma_insert_ordered(p, x, backslash);
        let q = insert_sorted(p, x, backslash);
        let r = q.push(s.last());
        lemma_cand_le_total(s.last(), x, backslash);
        assert forall|i: int| 0 <= i < r.len() - 1 implies #[trigger] cand_le(r[i], r[i + 1], backslash) by {
            if i < q.len() - 1 {
                assert(cand_le(q[i], q[i + 1], backslash));
            } else {
                if p.len() > 0 && q.last() == p.last() {
                    let k = s.len() - 2;
                    assert(cand_le(s[k], s[k + 1], backslash));
                    assert(s[k + 1] == s.last());
                    assert(p.last() == s[k]);
                }
            }
        }
    }
}

/// Sorted candidates are in order: each may come before the next.
pub proof fn law_sort_is_ordered(s: Seq<(Seq<char>, Seq<char>)>, backslash: bool)
    ensures
        is_ordered(sorted_candidates(s, backslash), backslash),
        sorted_candidates(s, backslash).len() == s.len(),
    decreases s.len(),
{
    if s.len() > 0 {
        law_sort_is_ordered(s.drop_last(), backslash);
        lemma_insert_ordered(sorted_candidates(s.drop_last(), backslash), s.last(), backslash);
    }
}

} // verus!
