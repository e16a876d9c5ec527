//! Association lists keyed by strings: the map they stand for, and the
//! facts about lookup, update and removal that the managers rely on.

use vstd::prelude::*;

verus! {

/// The map an association list stands for (a later entry for a key
/// overrides an earlier one).
pub open spec fn to_map<V>(e: Seq<(Seq<char>, V)>) -> Map<Seq<char>, V>
    decreases e.len(),
{
    if e.len() == 0 {
        Map::empty()
    } else {
        to_map(e.drop_last()).insert(e.last().0, e.last().1)
    }
}

/// No key occurs twice.
pub open spec fn distinct_keys<V>(e: Seq<(Seq<char>, V)>) -> bool {
    forall|i: int, j: int| 0 <= i < j < e.len() ==> #[trigger] e[i].0 != #[trigger] e[j].0
}

/// A key is in the map exactly when some entry has it; with distinct keys,
/// each entry's value is the map's value for its key.
pub proof fn lemma_to_map<V>(e: Seq<(Seq<char>, V)>)
    ensures
        forall|k: Seq<char>|
            #[trigger] to_map(e).dom().contains(k) <==> exists|i: int|
                0 <= i < e.len() && #[trigger] e[i].0 == k,
        distinct_keys(e) ==> forall|i: int| 0 <= i < e.len() ==> #[trigger] to_map(e)[e[i].0] == e[i].1,
        to_map(e).dom().finite(),
    decreases e.len(),
{
    if e.len() > 0 {
        let p = e.drop_last();
        lemma_to_map(p);
        assert forall|k: Seq<char>| #[trigger] to_map(e).dom().contains(k) <==> exists|i: int|
            0 <= i < e.len() && #[trigger] e[i].0 == k by {
            if to_map(e).dom().contains(k) {
                if k == e.last().0 {
                    assert(e[e.len() - 1].0 == k);
                } else {
                    let i = choose|i: int| 0 <= i < p.len() && #[trigger] p[i].0 == k;
                    assert(e[i].0 == k);
                }
            }
            if exists|i: int| 0 <= i < e.len() && #[trigger] e[i].0 == k {
                let i = choose|i: int| 0 <= i < e.len() && #[trigger] e[i].0 == k;
                if i < e.len() - 1 {
                    assert(p[i].0 == k);
                }
            }
        }
        if distinct_keys(e) {
            assert(distinct_keys(p));
            assert forall|i: int| 0 <= i < e.len() implies #[trigger] to_map(e)[e[i].0] == e[i].1 by {
                if i < e.len() - 1 {
                    assert(p[i].0 != e.last().0);
                    assert(p[i] == e[i]);
                }
            }
        }
    }
}

/// The map of an association list with distinct keys after setting entry
/// `i` to a new value under the same key.
pub proof fn lemma_to_map_update<V>(e: Seq<(Seq<char>, V)>, i: int, v: V)
    requires
        distinct_keys(e),
        0 <= i < e.len(),
    ensures
        distinct_keys(e.update(i, (e[i].0, v))),
        to_map(e.update(i, (e[i].0, v))) == to_map(e).insert(e[i].0, v),
{
    let f = e.update(i, (e[i].0, v));
    assert(distinct_keys(f)) by {
        assert forall|a: int, b: int| 0 <= a < b < f.len() implies #[trigger] f[a].0 != #[trigger] f[b].0 by {
            assert(f[a].0 == e[a].0);
            assert(f[b].0 == e[b].0);
        }
    }
    lemma_to_map(e);
    lemma_to_map(f);
    assert forall|k: Seq<char>| #[trigger] to_map(f).dom().contains(k) <==> to_map(e).insert(e[i].0, v).dom().contains(k) by {
        if to_map(f).dom().contains(k) {
            let j = choose|j: int| 0 <= j < f.len() && #[trigger] f[j].0 == k;
            assert(e[j].0 == k);
        }
        if to_map(e).dom().contains(k) {
            let j = choose|j: int| 0 <= j < e.len() && #[trigger] e[j].0 == k;
            assert(f[j].0 == k);
        }
        if k == e[i].0 {
            assert(f[i].0 == k);
        }
    }
    assert forall|k: Seq<char>| #[trigger] to_map(f).dom().contains(k) implies to_map(f)[k] == to_map(e).insert(e[i].0, v)[k] by {
        let j = choose|j: int| 0 <= j < f.len() && #[trigger] f[j].0 == k;
        assert(to_map(f)[f[j].0] == f[j].1);
        if j != i {
            assert(to_map(e)[e[j].0] == e[j].1);
        }
    }
    assert(to_map(f) =~= to_map(e).insert(e[i].0, v));
}

/// The map of an association list with distinct keys after removing entry
/// `i`.
pub proof fn lemma_to_map_remove<V>(e: Seq<(Seq<char>, V)>, i: int)
    requires
        distinct_keys(e),
        0 <= i < e.len(),
    ensures
        distinct_keys(e.remove(i)),
        to_map(e.remove(i)) == to_map(e).remove(e[i].0),
{
    let f = e.remove(i);
    assert(distinct_keys(f)) by {
        assert forall|a: int, b: int| 0 <= a < b < f.len() implies #[trigger] f[a].0 != #[trigger] f[b].0 by {
            let a2 = if a < i { a } else { a + 1 };
            let b2 = if b < i { b } else { b + 1 };
            assert(f[a] == e[a2]);
            assert(f[b] == e[b2]);
        }
    }
    lemma_to_map(e);
    lemma_to_map(f);
    assert forall|k: Seq<char>| #[trigger] to_map(f).dom().contains(k) <==> to_map(e).remove(e[i].0).dom().contains(k) by {
        if to_map(f).dom().contains(k) {
            let j = choose|j: int| 0 <= j < f.len() && #[trigger] f[j].0 == k;
            let j2 = if j < i { j } else { j + 1 };
            assert(e[j2].0 == k);
            assert(j2 != i);
        }
        if to_map(e).dom().contains(k) && k != e[i].0 {
            let j = choose|j: int| 0 <= j < e.len() && #[trigger] e[j].0 == k;
            assert(j != i);
            let j2 = if j < i { j } else { j - 1 };
            assert(f[j2].0 == k);
        }
    }
    assert forall|k: Seq<char>| #[trigger] to_map(f).dom().contains(k) implies to_map(f)[k] == to_map(e).remove(e[i].0)[k] by {
        let j = choose|j: int| 0 <= j < f.len() && #[trigger] f[j].0 == k;
        let j2 = if j < i { j } else { j + 1 };
        assert(f[j] == e[j2]);
        assert(to_map(f)[f[j].0] == f[j].1);
        assert(to_map(e)[e[j2].0] == e[j2].1);
    }
    assert(to_map(f) =~= to_map(e).remove(e[i].0));
}

/// Appending an entry under a new key keeps the keys distinct.
pub proof fn lemma_push_new_key<V>(e: Seq<(Seq<char>, V)>, k: Seq<char>, v: V)
    requires
        distinct_keys(e),
        !to_map(e).dom().contains(k),
    ensures
        distinct_keys(e.push((k, v))),
        to_map(e.push((k, v))) == to_map(e).insert(k, v),
{
    lemma_to_map(e);
    let f = e.push((k, v));
    assert(f.drop_last() == e);
    assert forall|a: int, b: int| 0 <= a < b < f.len() implies #[trigger] f[a].0 != #[trigger] f[b].0 by {
        if b == f.len() - 1 {
            assert(e[a].0 == f[a].0);
        } else {
            assert(f[a] == e[a] && f[b] == e[b]);
        }
    }
}

} // verus!
