//! Path aliases: `@name` stands for a stored path.

use vstd::prelude::*;
use crate::completion::types::pairs_view;
use crate::text::{chars_of, push_char, str_eq, string_of_range};
use super::entries::{distinct_keys, lemma_push_new_key, lemma_to_map, lemma_to_map_remove, lemma_to_map_update, to_map};

verus! {

/// Why an alias operation was refused.
#[derive(Debug, Clone, PartialEq, Eq)]
pub enum AliasError {
    /// The alias name is empty.
    EmptyAlias,
    /// The path is empty.
    EmptyPath,
    /// The path does not exist (the path as given).
    PathNotFound(String),
    /// No alias has this name.
    UnknownAlias(String),
}

/// The message shown for an alias error.
pub open spec fn alias_error_message(e: AliasError) -> Seq<char> {
    match e {
        AliasError::EmptyAlias => "Alias cannot be empty"@,
        AliasError::EmptyPath => "Path cannot be empty"@,
        AliasError::PathNotFound(p) => "Path does not exist or is not accessible: "@ + p@,
        AliasError::UnknownAlias(a) => "Alias '"@ + a@ + "' does not exist"@,
    }
}

impl AliasError {
    /// The message shown for this error.
    pub fn message(&self) -> (r: String)
        ensures
            r@ == alias_error_message(*self),
    {
        match self {
            AliasError::EmptyAlias => "Alias cannot be empty".to_owned(),
            AliasError::EmptyPath => "Path cannot be empty".to_owned(),
            AliasError::PathNotFound(p) => {
                let mut s = "Path does not exist or is not accessible: ".to_owned();
                s.append(p.as_str());
                s
            },
            AliasError::UnknownAlias(a) => {
                let mut s = "Alias '".to_owned();
                s.append(a.as_str());
                s.append("' does not exist");
                s
            },
        }
    }
}

/// Index of the first `/` or `\` in `s`.
pub open spec fn first_separator(s: Seq<char>) -> Option<int>
    decreases s.len(),
{
    if s.len() == 0 {
        None
    } else {
        match first_separator(s.drop_last()) {
            Some(i) => Some(i),
            None => if s.last() == '/' || s.last() == '\\' {
                Some(s.len() - 1)
            } else {
                None
            },
        }
    }
}

/// What a path argument resolves to: `@name` becomes the path stored under
/// `name`, `@name/rest` (or `@name\rest`) becomes that path, `/` and `rest`;
/// a path that does not start with `@`, or names no alias, stays as it is.
pub open spec fn resolve_spec(aliases: Map<Seq<char>, Seq<char>>, path: Seq<char>) -> Seq<char> {
    if path.len() > 0 && path[0] == '@' {
        let body = path.drop_first();
        match first_separator(body) {
            Some(i) => {
                let name = body.take(i);
                if aliases.dom().contains(name) {
                    aliases[name] + seq!['/'] + body.skip(i + 1)
                } else {
                    path
                }
            },
            None => if aliases.dom().contains(body) {
                aliases[body]
            } else {
                path
            },
        }
    } else {
        path
    }
}

/// The alias table: names and the paths they stand for, in the order they
/// were first defined.
pub struct AliasManager {
    aliases: Vec<(String, String)>,
}

impl View for AliasManager {
    type V = Map<Seq<char>, Seq<char>>;

    closed spec fn view(&self) -> Map<Seq<char>, Seq<char>> {
        to_map(pairs_view(self.aliases@))
    }
}

impl AliasManager {
    #[verifier::type_invariant]
    spec fn inv(self) -> bool {
        distinct_keys(pairs_view(self.aliases@))
    }

    /// The entries, in definition order.
    pub closed spec fn entries(&self) -> Seq<(Seq<char>, Seq<char>)> {
        pairs_view(self.aliases@)
    }

    /// An empty table.
    pub fn new() -> (r: Self)
        ensures
            r@ == Map::<Seq<char>, Seq<char>>::empty(),
    {
        let r = AliasManager { aliases: Vec::new() };
        assert(pairs_view(r.aliases@) =~= Seq::empty());
        r
    }

    /// A table holding the given entries (a later entry for a name replaces an
    /// earlier one).
    pub fn from_entries(entries: Vec<(String, String)>) -> (r: Self)
        ensures
            r@ == to_map(pairs_view(entries@)),
    {
        let mut m = AliasManager::new();
        let mut i: usize = 0;
        while i < entries.len()
            invariant
                i <= entries.len(),
                m@ == to_map(pairs_view(entries@).take(i as int)),
            decreases entries.len() - i,
        {
            assert(pairs_view(entries@).take(i + 1).drop_last() == pairs_view(entries@).take(i as int));
            let (k, v) = (entries[i].0.clone(), entries[i].1.clone());
            m.set(k, v);
            i = i + 1;
        }
        assert(pairs_view(entries@).take(entries.len() as int) == pairs_view(entries@));
        m
    }

    fn index_of(&self, alias: &str) -> (r: Option<usize>)
        ensures
            r matches Some(i) ==> i < self.aliases@.len() && self.aliases@[i as int].0@ == alias@,
            r is None ==> !self@.dom().contains(alias@),
    {
        proof {
            use_type_invariant(self);
            lemma_to_map(pairs_view(self.aliases@));
        }
        let mut i: usize = 0;
        while i < self.aliases.len()
            invariant
                i <= self.aliases@.len(),
                forall|j: int| 0 <= j < i ==> self.aliases@[j].0@ != alias@,
            decreases self.aliases.len() - i,
        {
            if str_eq(self.aliases[i].0.as_str(), alias) {
                return Some(i);
            }
            i = i + 1;
        }
        proof {
            if self@.dom().contains(alias@) {
                let j = choose|j: int| 0 <= j < pairs_view(self.aliases@).len() && #[trigger] pairs_view(self.aliases@)[j].0 == alias@;
                assert(self.aliases@[j].0@ == alias@);
            }
        }
        None
    }

    fn set(&mut self, alias: String, path: String)
        ensures
            final(self)@ == old(self)@.insert(alias@, path@),
    {
        proof {
            use_type_invariant(&*self);
        }
        match self.index_of(alias.as_str()) {
            Some(i) => {
                let ghost e = pairs_view(self.aliases@);
                proof {
                    lemma_to_map_update(e, i as int, path@);
                }
                let key = self.aliases[i].0.clone();
                let ghost pv = path@;
                let mut v: Vec<(String, String)> = Vec::new();
                std::mem::swap(&mut v, &mut self.aliases);
                v.set(i, (key, path));
                assert(pairs_view(v@) =~= e.update(i as int, (e[i as int].0, pv)));
                self.aliases = v;
            },
            None => {
                let ghost e = pairs_view(self.aliases@);
                let ghost kv = alias@;
                let ghost pv = path@;
                proof {
                    lemma_push_new_key(e, alias@, path@);
                }
                let mut v: Vec<(String, String)> = Vec::new();
                std::mem::swap(&mut v, &mut self.aliases);
                v.push((alias, path));
                assert(pairs_view(v@) =~= e.push((kv, pv)));
                self.aliases = v;
            },
        }
    }

    /// Defines or redefines `alias` as `path`. `path_exists` tells whether the
    /// path exists on disk. Refused when the alias is empty, else when the
    /// path is empty, else when the path does not exist; the table is then
    /// unchanged.
    pub fn add(&mut self, alias: &str, path: &str, path_exists: bool) -> (r: Result<(), AliasError>)
        ensures
            alias@.len() == 0 ==> r == Err::<(), AliasError>(AliasError::EmptyAlias),
            alias@.len() > 0 && path@.len() == 0 ==> r == Err::<(), AliasError>(AliasError::EmptyPath),
            alias@.len() > 0 && path@.len() > 0 && !path_exists ==> (r matches Err(
                AliasError::PathNotFound(p),
            ) && p@ == path@),
            alias@.len() > 0 && path@.len() > 0 && path_exists ==> r is Ok,
            r is Ok ==> final(self)@ == old(self)@.insert(alias@, path@),
            r is Err ==> final(self)@ == old(self)@,
    {
        if alias.is_empty() {
            return Err(AliasError::EmptyAlias);
        }
        if path.is_empty() {
            return Err(AliasError::EmptyPath);
        }
        if !path_exists {
            return Err(AliasError::PathNotFound(path.to_owned()));
        }
        self.set(alias.to_owned(), path.to_owned());
        Ok(())
    }

    /// Removes `alias`; refused, with the table unchanged, when no alias has
    /// that name.
    pub fn remove(&mut self, alias: &str) -> (r: Result<(), AliasError>)
        ensures
            old(self)@.dom().contains(alias@) <==> r is Ok,
            r is Ok ==> final(self)@ == old(self)@.remove(alias@),
            r is Err ==> final(self)@ == old(self)@ && (r matches Err(AliasError::UnknownAlias(a))
                && a@ == alias@),
    {
        proof {
            use_type_invariant(&*self);
            lemma_to_map(pairs_view(self.aliases@));
        }
        match self.index_of(alias) {
            Some(i) => {
                let ghost e = pairs_view(self.aliases@);
                proof {
                    lemma_to_map_remove(e, i as int);
                }
                let mut v: Vec<(String, String)> = Vec::new();
                std::mem::swap(&mut v, &mut self.aliases);
                v.remove(i);
                assert(pairs_view(v@) =~= e.remove(i as int));
                self.aliases = v;
                Ok(())
            },
            None => Err(AliasError::UnknownAlias(alias.to_owned())),
        }
    }

    /// The path stored under `alias`.
    pub fn get(&self, alias: &str) -> (r: Option<&String>)
        ensures
            r is Some <==> self@.dom().contains(alias@),
            r matches Some(p) ==> p@ == self@[alias@],
    {
        proof {
            use_type_invariant(self);
            lemma_to_map(pairs_view(self.aliases@));
        }
        match self.index_of(alias) {
            Some(i) => {
                assert(pairs_view(self.aliases@)[i as int].0 == alias@);
                Some(&self.aliases[i].1)
            },
            None => None,
        }
    }

    /// All entries, in definition order.
    pub fn list(&self) -> (r: &Vec<(String, String)>)
        ensures
            to_map(pairs_view(r@)) == self@,
            distinct_keys(pairs_view(r@)),
            pairs_view(r@) == self.entries(),
    {
        proof {
            use_type_invariant(self);
        }
        &self.aliases
    }

    /// Resolves an alias reference at the start of `path` (see
    /// [`resolve_spec`]).
    pub fn resolve_path(&self, path: &str) -> (r: String)
        ensures
            r@ == resolve_spec(self@, path@),
    {
        let cs = chars_of(path);
        if cs.len() == 0 || cs[0] != '@' {
            return path.to_owned();
        }
        let ghost body = path@.drop_first();
        let mut i: usize = 1;
        while i < cs.len() && cs[i] != '/' && cs[i] != '\\'
            invariant
                1 <= i <= cs.len(),
                cs@ == path@,
                first_separator(body.take(i - 1)) is None,
                body == path@.drop_first(),
                body.len() == cs@.len() - 1,
            decreases cs.len() - i,
        {
            assert(body[i - 1] == cs@[i as int]);
            assert(body.take(i as int).drop_last() == body.take(i - 1));
            assert(body.take(i as int).last() == cs@[i as int]);
            i = i + 1;
        }
        if i < cs.len() {
            proof {
                assert(body.take(i as int).drop_last() == body.take(i - 1));
                lemma_first_sep_prefix(body, i - 1);
            }
            let name = string_of_range(&cs, 1, i);
            assert(name@ == body.take(i - 1));
            match self.get(name.as_str()) {
                Some(target) => {
                    let mut out = target.clone();
                    push_char(&mut out, '/');
                    let rest = string_of_range(&cs, i + 1, cs.len());
                    assert(rest@ == body.skip(i as int));
                    out.append(rest.as_str());
                    out
                },
                None => path.to_owned(),
            }
        } else {
            assert(body.take(i - 1) == body);
            let name = string_of_range(&cs, 1, cs.len());
            assert(name@ == body);
            match self.get(name.as_str()) {
                Some(target) => target.clone(),
                None => path.to_owned(),
            }
        }
    }

    /// Each argument resolved by [`AliasManager::resolve_path`], in order.
    pub fn resolve_all_paths(&self, args: &[&str]) -> (r: Vec<String>)
        ensures
            r@.len() == args@.len(),
            forall|i: int| 0 <= i < args@.len() ==> #[trigger] r@[i]@ == resolve_spec(self@, args@[i]@),
    {
        let mut out: Vec<String> = Vec::new();
        let mut i: usize = 0;
        while i < args.len()
            invariant
                i <= args@.len(),
                out@.len() == i,
                forall|j: int| 0 <= j < i ==> #[trigger] out@[j]@ == resolve_spec(self@, args@[j]@),
            decreases args.len() - i,
        {
            out.push(self.resolve_path(args[i]));
            i = i + 1;
        }
        out
    }
}

proof fn lemma_first_sep_prefix(s: Seq<char>, i: int)
    requires
        0 <= i < s.len(),
        first_separator(s.take(i)) is None,
        s[i] == '/' || s[i] == '\\',
    ensures
        first_separator(s) == Some(i),
    decreases s.len(),
{
    if i < s.len() - 1 {
        assert(s.drop_last().take(i) == s.take(i));
        lemma_first_sep_prefix(s.drop_last(), i);
    } else {
        assert(s.drop_last() == s.take(i));
    }
}

/// Saving and loading keep the table: a table rebuilt (with
/// [`AliasManager::from_entries`]) from the entries that
/// [`AliasManager::list`] gives holds exactly the aliases of the saved one,
/// so every name resolves as before.
pub proof fn law_alias_reload_keeps_table(
    saved: AliasManager,
    listed: Seq<(Seq<char>, Seq<char>)>,
    reloaded: AliasManager,
)
    requires
        listed == saved.entries(),
        reloaded@ == to_map(listed),
    ensures
        reloaded@ == saved@,
{
}

} // verus!
