//! A short-lived cache of directory listings, used by path completion.
//! Times are milliseconds on a monotonic clock read by the caller.

use vstd::prelude::*;
use crate::managers::entries::{distinct_keys, lemma_push_new_key, lemma_to_map, lemma_to_map_update, to_map};
use crate::text::str_eq;

verus! {

/// How long a listing stays valid, in milliseconds.
pub const CACHE_TTL_MS: u64 = 5000;

/// The entries of one directory (name, and whether it is a directory) and
/// when they were read.
pub struct DirCache {
    pub entries: Vec<(String, bool)>,
    pub timestamp: u64,
}

/// The view of a listing.
pub open spec fn listing_view(e: Seq<(String, bool)>) -> Seq<(Seq<char>, bool)> {
    e.map_values(|p: (String, bool)| (p.0@, p.1))
}

/// A cached listing as a value: its entries and its timestamp.
pub open spec fn dir_cache_view(d: DirCache) -> (Seq<(Seq<char>, bool)>, u64) {
    (listing_view(d.entries@), d.timestamp)
}

/// The abstract cache: `None` until first consulted, then a map from
/// directory paths to listings.
pub type CacheView = Option<Map<Seq<char>, (Seq<(Seq<char>, bool)>, u64)>>;

/// Milliseconds from `then` to `now`, zero when `now` is earlier.
pub open spec fn elapsed_ms(then: u64, now: u64) -> int {
    if now <= then {
        0
    } else {
        now - then
    }
}

/// What a lookup of `path` at time `now` gives: the listing, when one is
/// cached and younger than [`CACHE_TTL_MS`].
pub open spec fn cache_lookup(c: CacheView, path: Seq<char>, now: u64) -> Option<Seq<(Seq<char>, bool)>> {
    match c {
        Some(m) => if m.dom().contains(path) && elapsed_ms(m[path].1, now) < CACHE_TTL_MS {
            Some(m[path].0)
        } else {
            None
        },
        None => None,
    }
}

/// The cache after storing a listing of `path` read at `now`; a cache not
/// yet consulted stays as it is.
pub open spec fn cache_store(c: CacheView, path: Seq<char>, entries: Seq<(Seq<char>, bool)>, now: u64) -> CacheView {
    match c {
        Some(m) => Some(m.insert(path, (entries, now))),
        None => None,
    }
}

/// The cache after it is consulted: set up empty on first use.
pub open spec fn cache_opened(c: CacheView) -> CacheView {
    match c {
        Some(m) => Some(m),
        None => Some(Map::empty()),
    }
}

/// The cache of directory listings.
pub struct DirCacheTable {
    table: Option<Vec<(String, DirCache)>>,
}

/// The views of the cached entries.
pub open spec fn table_entries(v: Seq<(String, DirCache)>) -> Seq<(Seq<char>, (Seq<(Seq<char>, bool)>, u64))> {
    v.map_values(|p: (String, DirCache)| (p.0@, dir_cache_view(p.1)))
}

impl View for DirCacheTable {
    type V = CacheView;

    closed spec fn view(&self) -> CacheView {
        match self.table {
            Some(v) => Some(to_map(table_entries(v@))),
            None => None,
        }
    }
}

/// A copy of a listing.
fn clone_listing(e: &Vec<(String, bool)>) -> (r: Vec<(String, bool)>)
    ensures
        listing_view(r@) == listing_view(e@),
{
    let mut out: Vec<(String, bool)> = Vec::new();
    let mut i: usize = 0;
    while i < e.len()
        invariant
            i <= e.len(),
            listing_view(out@) == listing_view(e@).take(i as int),
        decreases e.len() - i,
    {
        let ghost before = listing_view(out@);
        out.push((e[i].0.clone(), e[i].1));
        assert(listing_view(out@) =~= before.push(listing_view(e@)[i as int]));
        assert(listing_view(e@).take(i + 1) =~= listing_view(e@).take(i as int).push(listing_view(e@)[i as int]));
        i = i + 1;
    }
    assert(listing_view(e@).take(e.len() as int) == listing_view(e@));
    out
}

/// Where `path` is cached in `v`, if anywhere.
fn position_of(v: &Vec<(String, DirCache)>, path: &str) -> (r: Option<usize>)
    ensures
        r matches Some(i) ==> i < v@.len() && v@[i as int].0@ == path@,
        r is None ==> forall|j: int| 0 <= j < v@.len() ==> v@[j].0@ != path@,
{
    let mut i: usize = 0;
    while i < v.len()
        invariant
            i <= v@.len(),
            forall|j: int| 0 <= j < i ==> v@[j].0@ != path@,
        decreases v.len() - i,
    {
        if str_eq(v[i].0.as_str(), path) {
            return Some(i);
        }
        i = i + 1;
    }
    None
}

impl DirCacheTable {
    #[verifier::type_invariant]
    spec fn inv(self) -> bool {
        match self.table {
            Some(v) => distinct_keys(table_entries(v@)),
            None => true,
        }
    }

    /// A cache not yet consulted.
    pub fn new() -> (r: Self)
        ensures
            r@ == None::<Map<Seq<char>, (Seq<(Seq<char>, bool)>, u64)>>,
    {
        DirCacheTable { table: None }
    }

    /// The cached listing of `path` when it is younger than the time to live
    /// at `now_ms`; the first call sets the cache up.
    pub fn get_cached_dir_entries(&mut self, path: &str, now_ms: u64) -> (r: Option<Vec<(String, bool)>>)
        ensures
            final(self)@ == cache_opened(old(self)@),
            match r {
                Some(e) => cache_lookup(old(self)@, path@, now_ms) == Some(listing_view(e@)),
                None => cache_lookup(old(self)@, path@, now_ms) is None,
            },
    {
        proof {
            use_type_invariant(&*self);
        }
        if self.table.is_none() {
            let empty: Vec<(String, DirCache)> = Vec::new();
            assert(table_entries(empty@) =~= Seq::empty());
            self.table = Some(empty);
            return None;
        }
        match &self.table {
            Some(v) => {
                proof {
                    lemma_to_map(table_entries(v@));
                }
                match position_of(v, path) {
                    Some(i) => {
                        assert(table_entries(v@)[i as int].0 == path@);
                        let then = v[i].1.timestamp;
                        let age: u64 = if now_ms <= then { 0 } else { now_ms - then };
                        if age < CACHE_TTL_MS {
                            Some(clone_listing(&v[i].1.entries))
                        } else {
                            None
                        }
                    },
                    None => {
                        proof {
                            if to_map(table_entries(v@)).dom().contains(path@) {
                                let j = choose|j: int| 0 <= j < table_entries(v@).len() && #[trigger] table_entries(v@)[j].0 == path@;
                                assert(v@[j].0@ == path@);
                            }
                        }
                        None
                    },
                }
            },
            None => None,
        }
    }

    /// Stores the listing of `path`, read at `now_ms`; does nothing while the
    /// cache has not been consulted yet.
    pub fn cache_dir_entries(&mut self, path: &str, entries: Vec<(String, bool)>, now_ms: u64)
        ensures
            final(self)@ == cache_store(old(self)@, path@, listing_view(entries@), now_ms),
    {
        proof {
            use_type_invariant(&*self);
        }
        let mut t: Option<Vec<(String, DirCache)>> = None;
        std::mem::swap(&mut t, &mut self.table);
        match t {
            Some(mut v) => {
                let ghost e = table_entries(v@);
                let ghost val = (listing_view(entries@), now_ms);
                let item = DirCache { entries, timestamp: now_ms };
                assert(dir_cache_view(item) == val);
                proof {
                    lemma_to_map(e);
                }
                match position_of(&v, path) {
                    Some(i) => {
                        assert(e[i as int].0 == path@);
                        proof {
                            lemma_to_map_update(e, i as int, val);
                        }
                        let key = path.to_owned();
                        v.set(i, (key, item));
                        assert(table_entries(v@) =~= e.update(i as int, (e[i as int].0, val)));
                    },
                    None => {
                        proof {
                            if to_map(e).dom().contains(path@) {
                                let j = choose|j: int| 0 <= j < e.len() && #[trigger] e[j].0 == path@;
                                assert(v@[j].0@ == path@);
                            }
                            lemma_push_new_key(e, path@, val);
                        }
                        v.push((path.to_owned(), item));
                        assert(table_entries(v@) =~= e.push((path@, val)));
                    },
                }
                self.table = Some(v);
            },
            None => {},
        }
    }
}

/// A listing stored at time `t` is what a lookup of the same path gives at
/// any time `t2` less than the time to live after `t` (or before it).
pub proof fn lemma_store_then_lookup(
    c: CacheView,
    path: Seq<char>,
    entries: Seq<(Seq<char>, bool)>,
    t: u64,
    t2: u64,
)
    requires
        c is Some,
        elapsed_ms(t, t2) < CACHE_TTL_MS,
    ensures
        cache_lookup(cache_store(c, path, entries, t), path, t2) == Some(entries),
{
}

/// A listing older than the time to live is never given back.
pub proof fn lemma_expired_lookup(c: CacheView, path: Seq<char>, entries: Seq<(Seq<char>, bool)>, t: u64, t2: u64)
    requires
        elapsed_ms(t, t2) >= CACHE_TTL_MS,
    ensures
        cache_lookup(cache_store(c, path, entries, t), path, t2) is None,
{
}

/// Storing into a cache that has not been consulted has no effect, so a
/// lookup there finds nothing.
pub proof fn lemma_unopened_cache_stays_empty(path: Seq<char>, entries: Seq<(Seq<char>, bool)>, t: u64, t2: u64)
    ensures
        cache_store(None, path, entries, t) is None,
        cache_lookup(cache_store(None, path, entries, t), path, t2) is None,
{
}

/// Storing one path leaves the lookups of every other path as they were.
pub proof fn lemma_store_keeps_other_paths(
    c: CacheView,
    path: Seq<char>,
    other: Seq<char>,
    entries: Seq<(Seq<char>, bool)>,
    t: u64,
    t2: u64,
)
    requires
        path != other,
    ensures
        cache_lookup(cache_store(c, path, entries, t), other, t2) == cache_lookup(c, other, t2),
{
}

} // verus!
