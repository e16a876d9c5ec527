//! Tag keys of `.index` placeholders that do not exist on disk: the parts of
//! the absolute path, with `.` parts dropped and each `..` removing the
//! name before it.

use vstd::prelude::*;

verus! {

/// One part of a path.
#[derive(Debug, Clone, PartialEq, Eq)]
pub enum PathPart {
    /// The root, or a drive prefix; never removed.
    Root(String),
    /// `.`.
    Current,
    /// `..`.
    Parent,
    /// A name.
    Name(String),
}

/// The value of a path part.
pub enum PartView {
    Root(Seq<char>),
    Current,
    Parent,
    Name(Seq<char>),
}

/// The value of a path part.
pub open spec fn part_view(p: PathPart) -> PartView {
    match p {
        PathPart::Root(s) => PartView::Root(s@),
        PathPart::Current => PartView::Current,
        PathPart::Parent => PartView::Parent,
        PathPart::Name(s) => PartView::Name(s@),
    }
}

/// The values of path parts.
pub open spec fn parts_view(v: Seq<PathPart>) -> Seq<PartView> {
    v.map_values(|p: PathPart| part_view(p))
}

/// Takes one more part into the parts kept so far: `.` changes nothing,
/// `..` removes a last name (a root stays), anything else is appended.
pub open spec fn lexical_step(acc: Seq<PartView>, p: PartView) -> Seq<PartView> {
    match p {
        PartView::Current => acc,
        PartView::Parent => if acc.len() > 0 && acc.last() is Name {
            acc.drop_last()
        } else {
            acc
        },
        _ => acc.push(p),
    }
}

/// The parts kept after taking `parts` in order into `acc`.
pub open spec fn lexical_from(acc: Seq<PartView>, parts: Seq<PartView>) -> Seq<PartView>
    decreases parts.len(),
{
    if parts.len() == 0 {
        acc
    } else {
        lexical_from(lexical_step(acc, parts[0]), parts.drop_first())
    }
}

/// The lexical normal form of a path's parts.
pub open spec fn lexical_parts_spec(parts: Seq<PartView>) -> Seq<PartView> {
    lexical_from(Seq::empty(), parts)
}

/// A copy of a path part.
fn clone_part(p: &PathPart) -> (r: PathPart)
    ensures
        part_view(r) == part_view(*p),
{
    match p {
        PathPart::Root(s) => PathPart::Root(s.clone()),
        PathPart::Current => PathPart::Current,
        PathPart::Parent => PathPart::Parent,
        PathPart::Name(s) => PathPart::Name(s.clone()),
    }
}

/// The lexical normal form of a path's parts (see [`lexical_parts_spec`]).
pub fn lexical_parts(parts: &Vec<PathPart>) -> (r: Vec<PathPart>)
    ensures
        parts_view(r@) == lexical_parts_spec(parts_view(parts@)),
{
    let ghost pv = parts_view(parts@);
    let mut out: Vec<PathPart> = Vec::new();
    let mut i: usize = 0;
    assert(parts_view(out@) =~= Seq::<PartView>::empty());
    assert(pv.skip(0) =~= pv);
    while i < parts.len()
        invariant
            i <= parts@.len(),
            pv == parts_view(parts@),
            lexical_parts_spec(pv) == lexical_from(parts_view(out@), pv.skip(i as int)),
        decreases parts.len() - i,
    {
        let ghost acc = parts_view(out@);
        let ghost rest = pv.skip(i as int);
        assert(rest[0] == part_view(parts@[i as int]));
        assert(rest.drop_first() =~= pv.skip(i + 1));
        match &parts[i] {
            PathPart::Current => {},
            PathPart::Parent => {
                let n = out.len();
                if n > 0 {
                    let is_name = match &out[n - 1] {
                        PathPart::Name(_) => true,
                        _ => false,
                    };
                    if is_name {
                        out.pop();
                        assert(parts_view(out@) =~= acc.drop_last());
                    }
                }
            },
            p => {
                let q = clone_part(p);
                out.push(q);
                assert(parts_view(out@) =~= acc.push(part_view(parts@[i as int])));
            },
        }
        assert(parts_view(out@) == lexical_step(acc, rest[0]));
        i = i + 1;
    }
    assert(pv.skip(parts@.len() as int) =~= Seq::<PartView>::empty());
    out
}

/// Taking `a` then `b` is taking `a + b`.
pub proof fn lemma_lexical_concat(acc: Seq<PartView>, a: Seq<PartView>, b: Seq<PartView>)
    ensures
        lexical_from(acc, a + b) == lexical_from(lexical_from(acc, a), b),
    decreases a.len(),
{
    if a.len() > 0 {
        assert((a + b).drop_first() =~= a.drop_first() + b);
        assert((a + b)[0] == a[0]);
        lemma_lexical_concat(lexical_step(acc, a[0]), a.drop_first(), b);
    } else {
        assert(a + b =~= b);
    }
}

/// A `.` part changes no key: `x/./y` and `x/y` give the same key.
pub proof fn law_current_part_is_dropped(a: Seq<PartView>, b: Seq<PartView>)
    ensures
        lexical_parts_spec(a + seq![PartView::Current] + b) == lexical_parts_spec(a + b),
{
    let e = Seq::<PartView>::empty();
    lemma_lexical_concat(e, a, seq![PartView::Current] + b);
    assert(a + seq![PartView::Current] + b =~= a + (seq![PartView::Current] + b));
    assert((seq![PartView::Current] + b).drop_first() =~= b);
    assert((seq![PartView::Current] + b)[0] == PartView::Current);
    lemma_lexical_concat(e, a, b);
}

/// A name followed by `..` changes no key: `x/sub/../y` and `x/y` give the
/// same key.
pub proof fn law_name_then_parent_cancel(a: Seq<PartView>, n: Seq<char>, b: Seq<PartView>)
    ensures
        lexical_parts_spec(a + seq![PartView::Name(n), PartView::Parent] + b) == lexical_parts_spec(a + b),
{
    let e = Seq::<PartView>::empty();
    let tail = seq![PartView::Name(n), PartView::Parent] + b;
    assert(a + seq![PartView::Name(n), PartView::Parent] + b =~= a + tail);
    lemma_lexical_concat(e, a, tail);
    lemma_lexical_concat(e, a, b);
    let x = lexical_from(e, a);
    assert(tail[0] == PartView::Name(n));
    assert(tail.drop_first()[0] == PartView::Parent);
    assert(tail.drop_first().drop_first() =~= b);
    let y = x.push(PartView::Name(n));
    assert(lexical_from(x, tail) == lexical_from(lexical_step(x, tail[0]), tail.drop_first()));
    assert(lexical_step(x, tail[0]) == y);
    assert(lexical_from(y, tail.drop_first()) == lexical_from(
        lexical_step(y, tail.drop_first()[0]),
        tail.drop_first().drop_first(),
    ));
    assert(y.last() == PartView::Name(n));
    assert(y.drop_last() =~= x);
    assert(lexical_step(y, PartView::Parent) == x);
}

/// Two spellings of one placeholder give one key: `x/./y` and `x/sub/../y`
/// normalise to the same parts (those of `x/y`).
pub proof fn law_placeholder_spellings_agree(a: Seq<PartView>, sub: Seq<char>, b: Seq<PartView>)
    ensures
        lexical_parts_spec(a + seq![PartView::Current] + b) == lexical_parts_spec(
            a + seq![PartView::Name(sub), PartView::Parent] + b,
        ),
        lexical_parts_spec(a + seq![PartView::Current] + b) == lexical_parts_spec(a + b),
{
    law_current_part_is_dropped(a, b);
    law_name_then_parent_cancel(a, sub, b);
}

} // verus!
