//! File tags: each file key carries a list of tag names.

use vstd::prelude::*;
use crate::completion::types::clone_strings;
use crate::pattern::{TagPattern, regex_match};
use crate::text::{chars_of, is_ws, is_whitespace_char, str_eq, string_of_range, views, starts_with, chars_start_with};
use super::entries::{distinct_keys, lemma_push_new_key, lemma_to_map, lemma_to_map_remove, lemma_to_map_update, to_map};

verus! {

/// How a path argument stands on disk, as found by the caller.
#[derive(Debug, Clone, PartialEq, Eq)]
pub enum TagTarget {
    /// The path does not exist (and is not a `.index` placeholder).
    Missing,
    /// The path is a directory.
    Directory,
    /// The path's normalized key.
    Key(String),
    /// Normalizing the path failed with this message.
    Unresolvable(String),
}

/// Why a tag operation was refused.
#[derive(Debug, Clone, PartialEq, Eq)]
pub enum TagError {
    /// The file does not exist (path as given).
    FileNotFound(String),
    /// Tags were to be added to a directory.
    CannotTagDirectory(String),
    /// Tags were to be removed from a directory.
    CannotUntagDirectory(String),
    /// The path could not be normalized.
    Unresolvable(String),
    /// A tag is empty.
    EmptyTag,
    /// A tag holds whitespace, `,`, `;`, `/` or `\`.
    InvalidTag(String),
    /// The file carries no tags.
    NoTags(String),
    /// There is no backup to restore.
    BackupMissing,
}

/// The message shown for a tag error.
pub open spec fn tag_error_message(e: TagError) -> Seq<char> {
    match e {
        TagError::FileNotFound(p) => "File does not exist: "@ + p@,
        TagError::CannotTagDirectory(p) => "Cannot add tags to directory: "@ + p@
            + ". Tags can only be added to files."@,
        TagError::CannotUntagDirectory(p) => "Cannot remove tags from directory: "@ + p@
            + ". Tags can only be removed from files."@,
        TagError::Unresolvable(m) => m@,
        TagError::EmptyTag => "Tag cannot be empty."@,
        TagError::InvalidTag(t) => "Tag contains invalid characters: "@ + t@,
        TagError::NoTags(p) => "No tags found for this file: "@ + p@,
        TagError::BackupMissing => "Backup file does not exist, cannot restore."@,
    }
}

impl TagError {
    /// The message shown for this error.
    pub fn message(&self) -> (r: String)
        ensures
            r@ == tag_error_message(*self),
    {
        match self {
            TagError::FileNotFound(p) => {
                let mut s = "File does not exist: ".to_owned();
                s.append(p.as_str());
                s
            },
            TagError::CannotTagDirectory(p) => {
                let mut s = "Cannot add tags to directory: ".to_owned();
                s.append(p.as_str());
                s.append(". Tags can only be added to files.");
                s
            },
            TagError::CannotUntagDirectory(p) => {
                let mut s = "Cannot remove tags from directory: ".to_owned();
                s.append(p.as_str());
                s.append(". Tags can only be removed from files.");
                s
            },
            TagError::Unresolvable(m) => m.clone(),
            TagError::EmptyTag => "Tag cannot be empty.".to_owned(),
            TagError::InvalidTag(t) => {
                let mut s = "Tag contains invalid characters: ".to_owned();
                s.append(t.as_str());
                s
            },
            TagError::NoTags(p) => {
                let mut s = "No tags found for this file: ".to_owned();
                s.append(p.as_str());
                s
            },
            TagError::BackupMissing => "Backup file does not exist, cannot restore.".to_owned(),
        }
    }
}

/// Characters a tag may not hold.
pub open spec fn is_forbidden_tag_char(c: char) -> bool {
    is_ws(c) || c == ',' || c == ';' || c == '/' || c == '\\'
}

/// A tag is well formed when it is not empty and holds no forbidden
/// character.
pub open spec fn valid_tag(t: Seq<char>) -> bool {
    t.len() > 0 && forall|i: int| 0 <= i < t.len() ==> !is_forbidden_tag_char(#[trigger] t[i])
}

/// Index of the first tag that is not well formed.
pub open spec fn first_invalid_tag(tags: Seq<Seq<char>>) -> Option<int>
    decreases tags.len(),
{
    if tags.len() == 0 {
        None
    } else {
        match first_invalid_tag(tags.drop_last()) {
            Some(i) => Some(i),
            None => if !valid_tag(tags.last()) {
                Some(tags.len() - 1)
            } else {
                None
            },
        }
    }
}

/// `existing` with each of `new` appended, in order, unless already present.
pub open spec fn add_unique(existing: Seq<Seq<char>>, new: Seq<Seq<char>>) -> Seq<Seq<char>>
    decreases new.len(),
{
    if new.len() == 0 {
        existing
    } else {
        let e = add_unique(existing, new.drop_last());
        if e.contains(new.last()) {
            e
        } else {
            e.push(new.last())
        }
    }
}

/// Every tag used in the entries, each once, in order of first use.
pub open spec fn tags_in_use(e: Seq<(Seq<char>, Seq<Seq<char>>)>) -> Seq<Seq<char>>
    decreases e.len(),
{
    if e.len() == 0 {
        Seq::empty()
    } else {
        add_unique(tags_in_use(e.drop_last()), e.last().1)
    }
}

/// `existing` without any tag that occurs in `removed`.
pub open spec fn without_tags(existing: Seq<Seq<char>>, removed: Seq<Seq<char>>) -> Seq<Seq<char>> {
    existing.filter(|t: Seq<char>| !removed.contains(t))
}

/// Whether the pattern matches at least one of `tags`.
pub open spec fn pattern_hits(pattern: Seq<char>, tags: Seq<Seq<char>>) -> bool {
    exists|j: int| 0 <= j < tags.len() && #[trigger] regex_match(pattern, tags[j])
}

/// Whether every pattern matches at least one of `tags`.
pub open spec fn all_patterns_match(patterns: Seq<Seq<char>>, tags: Seq<Seq<char>>) -> bool {
    forall|i: int| 0 <= i < patterns.len() ==> #[trigger] pattern_hits(patterns[i], tags)
}

/// The sources of a sequence of patterns.
pub open spec fn sources(p: Seq<TagPattern>) -> Seq<Seq<char>> {
    p.map_values(|x: TagPattern| x.source())
}

/// The views of the tag entries.
pub open spec fn tag_entries(v: Seq<(String, Vec<String>)>) -> Seq<(Seq<char>, Seq<Seq<char>>)> {
    v.map_values(|p: (String, Vec<String>)| (p.0@, views(p.1@)))
}

/// The tag entries whose tags satisfy every pattern, in order.
pub open spec fn entries_matching(
    e: Seq<(Seq<char>, Seq<Seq<char>>)>,
    patterns: Seq<Seq<char>>,
) -> Seq<(Seq<char>, Seq<Seq<char>>)> {
    e.filter(|p: (Seq<char>, Seq<Seq<char>>)| all_patterns_match(patterns, p.1))
}

/// Windows path keys in extended form (`\\?\C:\x`, `\\?\UNC\srv\x`,
/// `UNC\srv\x`) rewritten to the usual form (`C:\x`, `\\srv\x`); other keys,
/// and every key when `windows` is false, are unchanged.
pub open spec fn unc_to_normal(path: Seq<char>, windows: bool) -> Seq<char> {
    if !windows {
        path
    } else if starts_with(path, seq!['\\', '\\', '?', '\\', 'U', 'N', 'C', '\\']) {
        seq!['\\', '\\'] + path.skip(8)
    } else if starts_with(path, seq!['U', 'N', 'C', '\\']) {
        seq!['\\', '\\'] + path.skip(4)
    } else if starts_with(path, seq!['\\', '\\', '?', '\\']) {
        path.skip(4)
    } else {
        path
    }
}

/// The tag table: file keys and their tags, in the order keys were first
/// tagged.
pub struct TagManager {
    tags: Vec<(String, Vec<String>)>,
}

impl View for TagManager {
    type V = Map<Seq<char>, Seq<Seq<char>>>;

    closed spec fn view(&self) -> Map<Seq<char>, Seq<Seq<char>>> {
        to_map(tag_entries(self.tags@))
    }
}

/// Whether a tag is well formed.
pub fn is_valid_tag(tag: &str) -> (r: bool)
    ensures
        r == valid_tag(tag@),
{
    let cs = chars_of(tag);
    if cs.len() == 0 {
        return false;
    }
    let mut i: usize = 0;
    while i < cs.len()
        invariant
            i <= cs.len(),
            cs@ == tag@,
            forall|j: int| 0 <= j < i ==> !is_forbidden_tag_char(#[trigger] cs@[j]),
        decreases cs.len() - i,
    {
        let c = cs[i];
        if is_whitespace_char(c) || c == ',' || c == ';' || c == '/' || c == '\\' {
            return false;
        }
        i = i + 1;
    }
    true
}

/// Whether `v` holds `s`.
fn strings_contain(v: &Vec<String>, s: &str) -> (r: bool)
    ensures
        r == views(v@).contains(s@),
{
    let mut i: usize = 0;
    while i < v.len()
        invariant
            i <= v.len(),
            forall|j: int| 0 <= j < i ==> views(v@)[j] != s@,
        decreases v.len() - i,
    {
        if str_eq(v[i].as_str(), s) {
            assert(views(v@)[i as int] == s@);
            return true;
        }
        i = i + 1;
    }
    false
}

/// `existing` with each of `new` appended unless already present.
fn add_unique_tags(existing: &Vec<String>, new: &[&str]) -> (r: Vec<String>)
    ensures
        views(r@) == add_unique(views(existing@), new@.map_values(|t: &str| t@)),
{
    let ghost nv = new@.map_values(|t: &str| t@);
    let mut out = clone_strings(existing);
    let mut i: usize = 0;
    while i < new.len()
        invariant
            i <= new@.len(),
            nv == new@.map_values(|t: &str| t@),
            views(out@) == add_unique(views(existing@), nv.take(i as int)),
        decreases new.len() - i,
    {
        assert(nv.take(i + 1).drop_last() == nv.take(i as int));
        assert(nv.take(i + 1).last() == new@[i as int]@);
        if !strings_contain(&out, new[i]) {
            let ghost before = out@;
            out.push(new[i].to_owned());
            assert(views(out@) =~= views(before).push(new@[i as int]@));
        }
        i = i + 1;
    }
    assert(nv.take(new@.len() as int) == nv);
    out
}

impl TagManager {
    #[verifier::type_invariant]
    spec fn inv(self) -> bool {
        distinct_keys(tag_entries(self.tags@))
    }

    /// The entries, in order.
    pub closed spec fn entries(&self) -> Seq<(Seq<char>, Seq<Seq<char>>)> {
        tag_entries(self.tags@)
    }

    /// An empty table.
    pub fn new() -> (r: Self)
        ensures
            r@ == Map::<Seq<char>, Seq<Seq<char>>>::empty(),
    {
        let r = TagManager { tags: Vec::new() };
        assert(tag_entries(r.tags@) =~= Seq::empty());
        r
    }

    /// A table holding the given entries (a later entry for a key replaces an
    /// earlier one).
    pub fn from_entries(entries: Vec<(String, Vec<String>)>) -> (r: Self)
        ensures
            r@ == to_map(tag_entries(entries@)),
    {
        let mut m = TagManager::new();
        let mut i: usize = 0;
        while i < entries.len()
            invariant
                i <= entries.len(),
                m@ == to_map(tag_entries(entries@).take(i as int)),
            decreases entries.len() - i,
        {
            assert(tag_entries(entries@).take(i + 1).drop_last() == tag_entries(entries@).take(i as int));
            let k = entries[i].0.clone();
            let v = clone_strings(&entries[i].1);
            m.set(k, v);
            i = i + 1;
        }
        assert(tag_entries(entries@).take(entries.len() as int) == tag_entries(entries@));
        m
    }

    fn index_of(&self, key: &str) -> (r: Option<usize>)
        ensures
            r matches Some(i) ==> i < self.tags@.len() && self.tags@[i as int].0@ == key@
                && self@.dom().contains(key@) && self@[key@] == views(self.tags@[i as int].1@),
            r is None ==> !self@.dom().contains(key@),
    {
        proof {
            use_type_invariant(self);
            lemma_to_map(tag_entries(self.tags@));
        }
        let mut i: usize = 0;
        while i < self.tags.len()
            invariant
                i <= self.tags@.len(),
                forall|j: int| 0 <= j < i ==> self.tags@[j].0@ != key@,
            decreases self.tags.len() - i,
        {
            if str_eq(self.tags[i].0.as_str(), key) {
                proof {
                    use_type_invariant(self);
                    lemma_to_map(tag_entries(self.tags@));
                }
                assert(tag_entries(self.tags@)[i as int].0 == key@);
                return Some(i);
            }
            i = i + 1;
        }
        proof {
            if self@.dom().contains(key@) {
                let j = choose|j: int| 0 <= j < tag_entries(self.tags@).len() && #[trigger] tag_entries(self.tags@)[j].0 == key@;
                assert(self.tags@[j].0@ == key@);
            }
        }
        None
    }

    fn set(&mut self, key: String, tags: Vec<String>)
        ensures
            final(self)@ == old(self)@.insert(key@, views(tags@)),
    {
        proof {
            use_type_invariant(&*self);
        }
        let ghost kv = key@;
        let ghost tv = views(tags@);
        let ghost e = tag_entries(self.tags@);
        match self.index_of(key.as_str()) {
            Some(i) => {
                proof {
                    lemma_to_map_update(e, i as int, tv);
                }
                let mut v: Vec<(String, Vec<String>)> = Vec::new();
                std::mem::swap(&mut v, &mut self.tags);
                v.set(i, (key, tags));
                assert(tag_entries(v@) =~= e.update(i as int, (e[i as int].0, tv)));
                self.tags = v;
            },
            None => {
                proof {
                    lemma_push_new_key(e, kv, tv);
                }
                let mut v: Vec<(String, Vec<String>)> = Vec::new();
                std::mem::swap(&mut v, &mut self.tags);
                v.push((key, tags));
                assert(tag_entries(v@) =~= e.push((kv, tv)));
                self.tags = v;
            },
        }
    }

    fn delete(&mut self, i: usize)
        requires
            i < old(self).entries().len(),
        ensures
            final(self)@ == old(self)@.remove(old(self).entries()[i as int].0),
    {
        proof {
            use_type_invariant(&*self);
        }
        let ghost e = tag_entries(self.tags@);
        proof {
            lemma_to_map_remove(e, i as int);
        }
        let mut v: Vec<(String, Vec<String>)> = Vec::new();
        std::mem::swap(&mut v, &mut self.tags);
        v.remove(i);
        assert(tag_entries(v@) =~= e.remove(i as int));
        self.tags = v;
    }

    /// Adds `tags` to the file at `file_path`, whose standing on disk is
    /// `target`. Refused, with the table unchanged, when the file is missing,
    /// is a directory or cannot be normalized (in that order), then when a tag
    /// is empty or holds a forbidden character (the first such tag decides).
    /// Otherwise each tag not yet on the file is appended, in order.
    #[verifier::loop_isolation(false)]
    pub fn add_tags(&mut self, file_path: &str, target: TagTarget, tags: &[&str]) -> (r: Result<(), TagError>)
        ensures
            match target {
                TagTarget::Missing => r matches Err(TagError::FileNotFound(p)) && p@ == file_path@,
                TagTarget::Directory => r matches Err(TagError::CannotTagDirectory(p)) && p@ == file_path@,
                TagTarget::Unresolvable(m) => r matches Err(TagError::Unresolvable(m2)) && m2@ == m@,
                TagTarget::Key(k) => match first_invalid_tag(tags@.map_values(|t: &str| t@)) {
                    Some(i) => if tags@[i]@.len() == 0 {
                        r == Err::<(), TagError>(TagError::EmptyTag)
                    } else {
                        r matches Err(TagError::InvalidTag(t)) && t@ == tags@[i]@
                    },
                    None => r is Ok && final(self)@ == old(self)@.insert(
                        k@,
                        add_unique(
                            if old(self)@.dom().contains(k@) { old(self)@[k@] } else { Seq::empty() },
                            tags@.map_values(|t: &str| t@),
                        ),
                    ),
                },
            },
            r is Err ==> final(self)@ == old(self)@,
    {
        match target {
            TagTarget::Missing => Err(TagError::FileNotFound(file_path.to_owned())),
            TagTarget::Directory => Err(TagError::CannotTagDirectory(file_path.to_owned())),
            TagTarget::Unresolvable(m) => Err(TagError::Unresolvable(m)),
            TagTarget::Key(k) => {
                let ghost tv = tags@.map_values(|t: &str| t@);
                let mut i: usize = 0;
                while i < tags.len()
                    invariant
                        i <= tags@.len(),
                        tv == tags@.map_values(|t: &str| t@),
                        first_invalid_tag(tv.take(i as int)) is None,
                    decreases tags.len() - i,
                {
                    assert(tv.take(i + 1).drop_last() == tv.take(i as int));
                    assert(tv.take(i + 1).last() == tags@[i as int]@);
                    if !is_valid_tag(tags[i]) {
                        proof {
                            lemma_first_invalid_prefix(tv, i as int);
                        }
                        if tags[i].is_empty() {
                            return Err(TagError::EmptyTag);
                        } else {
                            return Err(TagError::InvalidTag(tags[i].to_owned()));
                        }
                    }
                    i = i + 1;
                }
                assert(tv.take(tags@.len() as int) == tv);
                let existing: Vec<String> = match self.index_of(k.as_str()) {
                    Some(j) => clone_strings(&self.tags[j].1),
                    None => Vec::new(),
                };
                assert(views(existing@) == (if self@.dom().contains(k@) { self@[k@] } else { Seq::empty() }));
                let updated = add_unique_tags(&existing, tags);
                self.set(k, updated);
                Ok(())
            },
        }
    }

    /// Removes each of `tags` from the file at `file_path`. Refused, with the
    /// table unchanged, when the file is missing, is a directory or cannot be
    /// normalized, or when the file carries no tags. A file left without tags
    /// leaves the table.
    pub fn remove_tags(&mut self, file_path: &str, target: TagTarget, tags: &[&str]) -> (r: Result<(), TagError>)
        ensures
            match target {
                TagTarget::Missing => r matches Err(TagError::FileNotFound(p)) && p@ == file_path@,
                TagTarget::Directory => r matches Err(TagError::CannotUntagDirectory(p)) && p@ == file_path@,
                TagTarget::Unresolvable(m) => r matches Err(TagError::Unresolvable(m2)) && m2@ == m@,
                TagTarget::Key(k) => if old(self)@.dom().contains(k@) {
                    r is Ok && {
                        let left = without_tags(old(self)@[k@], tags@.map_values(|t: &str| t@));
                        if left.len() == 0 {
                            final(self)@ == old(self)@.remove(k@)
                        } else {
                            final(self)@ == old(self)@.insert(k@, left)
                        }
                    }
                } else {
                    r matches Err(TagError::NoTags(p)) && p@ == file_path@
                },
            },
            r is Err ==> final(self)@ == old(self)@,
    {
        match target {
            TagTarget::Missing => Err(TagError::FileNotFound(file_path.to_owned())),
            TagTarget::Directory => Err(TagError::CannotUntagDirectory(file_path.to_owned())),
            TagTarget::Unresolvable(m) => Err(TagError::Unresolvable(m)),
            TagTarget::Key(k) => {
                match self.index_of(k.as_str()) {
                    Some(j) => {
                        let ghost removed = tags@.map_values(|t: &str| t@);
                        let ghost old_tags = views(self.tags@[j as int].1@);
                        let mut left: Vec<String> = Vec::new();
                        let mut m: usize = 0;
                        let n = self.tags[j].1.len();
                        while m < n
                            invariant
                                j < self.tags@.len(),
                                n == self.tags@[j as int].1@.len(),
                                m <= n,
                                old_tags == views(self.tags@[j as int].1@),
                                removed == tags@.map_values(|t: &str| t@),
                                views(left@) == old_tags.take(m as int).filter(|t: Seq<char>| !removed.contains(t)),
                            decreases n - m,
                        {
                            let t = &self.tags[j].1[m];
                            assert(old_tags.take(m + 1).drop_last() == old_tags.take(m as int));
                            assert(old_tags.take(m + 1).last() == t@);
                            reveal_with_fuel(Seq::filter, 1);
                            if !slice_contains(tags, t.as_str()) {
                                let ghost before = left@;
                                left.push(t.clone());
                                assert(views(left@) =~= views(before).push(t@));
                            }
                            m = m + 1;
                        }
                        assert(old_tags.take(n as int) == old_tags);
                        if left.len() == 0 {
                            self.delete(j);
                        } else {
                            self.set(k, left);
                        }
                        Ok(())
                    },
                    None => Err(TagError::NoTags(file_path.to_owned())),
                }
            },
        }
    }

    /// Removes every tag from the file at `file_path`. Refused, with the table
    /// unchanged, when the file is missing, is a directory or cannot be
    /// normalized, or when it carries no tags.
    pub fn remove_all_tags(&mut self, file_path: &str, target: TagTarget) -> (r: Result<(), TagError>)
        ensures
            match target {
                TagTarget::Missing => r matches Err(TagError::FileNotFound(p)) && p@ == file_path@,
                TagTarget::Directory => r matches Err(TagError::CannotUntagDirectory(p)) && p@ == file_path@,
                TagTarget::Unresolvable(m) => r matches Err(TagError::Unresolvable(m2)) && m2@ == m@,
                TagTarget::Key(k) => if old(self)@.dom().contains(k@) {
                    r is Ok && final(self)@ == old(self)@.remove(k@)
                } else {
                    r matches Err(TagError::NoTags(p)) && p@ == file_path@
                },
            },
            r is Err ==> final(self)@ == old(self)@,
    {
        match target {
            TagTarget::Missing => Err(TagError::FileNotFound(file_path.to_owned())),
            TagTarget::Directory => Err(TagError::CannotUntagDirectory(file_path.to_owned())),
            TagTarget::Unresolvable(m) => Err(TagError::Unresolvable(m)),
            TagTarget::Key(k) => {
                match self.index_of(k.as_str()) {
                    Some(j) => {
                        assert(self.entries()[j as int].0 == k@);
                        self.delete(j);
                        Ok(())
                    },
                    None => Err(TagError::NoTags(file_path.to_owned())),
                }
            },
        }
    }

    /// The tags of the file whose normalized key is `key`; none when the path
    /// could not be normalized (`None`) or carries no tags.
    pub fn get_tags(&self, key: Option<&str>) -> (r: Vec<String>)
        ensures
            views(r@) == match key {
                Some(k) => if self@.dom().contains(k@) { self@[k@] } else { Seq::empty() },
                None => Seq::<Seq<char>>::empty(),
            },
    {
        match key {
            Some(k) => match self.index_of(k) {
                Some(j) => clone_strings(&self.tags[j].1),
                None => {
                    let r: Vec<String> = Vec::new();
                    assert(views(r@) =~= Seq::empty());
                    r
                },
            },
            None => {
                let r: Vec<String> = Vec::new();
                assert(views(r@) =~= Seq::empty());
                r
            },
        }
    }

    /// Every tag used on some file, each once, in order of first use.
    pub fn get_all_tags(&self) -> (r: Vec<String>)
        ensures
            views(r@) == tags_in_use(self.entries()),
            views(r@).no_duplicates(),
            forall|t: Seq<char>| views(r@).contains(t) <==> exists|k: Seq<char>|
                #[trigger] self@.dom().contains(k) && self@[k].contains(t),
    {
        proof {
            use_type_invariant(self);
            lemma_to_map(tag_entries(self.tags@));
        }
        let ghost e = tag_entries(self.tags@);
        let mut out: Vec<String> = Vec::new();
        let mut i: usize = 0;
        while i < self.tags.len()
            invariant
                i <= self.tags@.len(),
                e == tag_entries(self.tags@),
                views(out@) == tags_in_use(e.take(i as int)),
                views(out@).no_duplicates(),
                forall|t: Seq<char>| views(out@).contains(t) <==> exists|a: int|
                    0 <= a < i && #[trigger] e[a].1.contains(t),
            decreases self.tags.len() - i,
        {
            let list = &self.tags[i].1;
            assert(e[i as int].1 == views(list@));
            let mut m: usize = 0;
            while m < list.len()
                invariant
                    i < self.tags@.len(),
                    list == &self.tags@[i as int].1,
                    e == tag_entries(self.tags@),
                    e[i as int].1 == views(list@),
                    m <= list.len(),
                    views(out@) == add_unique(tags_in_use(e.take(i as int)), views(list@).take(m as int)),
                    views(out@).no_duplicates(),
                    forall|t: Seq<char>| views(out@).contains(t) <==> (exists|a: int|
                        0 <= a < i && #[trigger] e[a].1.contains(t)) || views(list@).take(m as int).contains(t),
                decreases list.len() - m,
            {
                let ghost before = out@;
                let ghost tm = views(list@).take(m as int);
                let ghost x = list@[m as int]@;
                assert(views(list@).take(m + 1) == tm.push(x));
                assert(tm.push(x).drop_last() =~= tm);
                let found = strings_contain(&out, list[m].as_str());
                if !found {
                    out.push(list[m].clone());
                    assert(views(out@) =~= views(before).push(x));
                }
                assert forall|t: Seq<char>| views(out@).contains(t) <==> (exists|a: int|
                    0 <= a < i && #[trigger] e[a].1.contains(t)) || tm.push(x).contains(t) by {
                    assert(views(before).contains(t) <==> (exists|a: int|
                        0 <= a < i && #[trigger] e[a].1.contains(t)) || tm.contains(t));
                    if tm.push(x).contains(t) && !tm.contains(t) {
                        let w = choose|w: int| 0 <= w < tm.push(x).len() && tm.push(x)[w] == t;
                        assert(t == x);
                    }
                    if tm.contains(t) {
                        let w = choose|w: int| 0 <= w < tm.len() && tm[w] == t;
                        assert(tm.push(x)[w] == t);
                    }
                    if t == x {
                        assert(tm.push(x)[tm.len() as int] == t);
                        if !found {
                            assert(views(out@)[views(before).len() as int] == t);
                        }
                    }
                    if views(out@).contains(t) && !views(before).contains(t) {
                        let w = choose|w: int| 0 <= w < views(out@).len() && views(out@)[w] == t;
                        assert(t == x);
                    }
                    if views(before).contains(t) {
                        let w = choose|w: int| 0 <= w < views(before).len() && views(before)[w] == t;
                        assert(views(out@)[w] == t);
                    }
                }
                m = m + 1;
            }
            assert(views(list@).take(list.len() as int) == views(list@));
            assert(e.take(i + 1).drop_last() =~= e.take(i as int));
            assert(e.take(i + 1).last() == e[i as int]);
            assert forall|t: Seq<char>| views(out@).contains(t) <==> exists|a: int|
                0 <= a < i + 1 && #[trigger] e[a].1.contains(t) by {
                if views(out@).contains(t) && !(exists|a: int| 0 <= a < i && #[trigger] e[a].1.contains(t)) {
                    assert(e[i as int].1.contains(t));
                }
            }
            i = i + 1;
        }
        assert(e.take(e.len() as int) =~= e);
        assert forall|t: Seq<char>| views(out@).contains(t) <==> exists|k: Seq<char>|
            #[trigger] self@.dom().contains(k) && self@[k].contains(t) by {
            if views(out@).contains(t) {
                let a = choose|a: int| 0 <= a < e.len() && #[trigger] e[a].1.contains(t);
                assert(self@.dom().contains(e[a].0));
            }
            if exists|k: Seq<char>| #[trigger] self@.dom().contains(k) && self@[k].contains(t) {
                let k = choose|k: Seq<char>| #[trigger] self@.dom().contains(k) && self@[k].contains(t);
                let a = choose|a: int| 0 <= a < e.len() && #[trigger] e[a].0 == k;
                assert(self@[e[a].0] == e[a].1);
                assert(e[a].1.contains(t));
            }
        }
        out
    }

    /// All entries, in order.
    pub fn list_all(&self) -> (r: &Vec<(String, Vec<String>)>)
        ensures
            tag_entries(r@) == self.entries(),
            to_map(self.entries()) == self@,
            distinct_keys(self.entries()),
    {
        proof {
            use_type_invariant(self);
        }
        &self.tags
    }

    /// Whether the file with key `key` carries, for every pattern, a tag the
    /// pattern matches; false when the path could not be normalized (`None`)
    /// or carries no tags.
    pub fn file_matches_tags(&self, key: Option<&str>, tag_patterns: &[TagPattern]) -> (r: bool)
        ensures
            r == match key {
                Some(k) => self@.dom().contains(k@) && all_patterns_match(sources(tag_patterns@), self@[k@]),
                None => false,
            },
    {
        match key {
            Some(k) => match self.index_of(k) {
                Some(j) => tags_match_all(&self.tags[j].1, tag_patterns),
                None => false,
            },
            None => false,
        }
    }

    /// The entries whose tags satisfy every pattern, in table order.
    pub fn find_files_by_tags(&self, tag_patterns: &[TagPattern]) -> (r: Vec<(String, Vec<String>)>)
        ensures
            tag_entries(r@) == entries_matching(self.entries(), sources(tag_patterns@)),
    {
        let ghost e = self.entries();
        let ghost ps = sources(tag_patterns@);
        let mut out: Vec<(String, Vec<String>)> = Vec::new();
        let mut i: usize = 0;
        while i < self.tags.len()
            invariant
                i <= self.tags@.len(),
                e == self.entries(),
                e == tag_entries(self.tags@),
                ps == sources(tag_patterns@),
                tag_entries(out@) == entries_matching(e.take(i as int), ps),
            decreases self.tags.len() - i,
        {
            reveal_with_fuel(Seq::filter, 1);
            assert(e.take(i + 1).drop_last() == e.take(i as int));
            assert(e.take(i + 1).last() == e[i as int]);
            if tags_match_all(&self.tags[i].1, tag_patterns) {
                let ghost before = out@;
                let k = self.tags[i].0.clone();
                let v = clone_strings(&self.tags[i].1);
                out.push((k, v));
                assert(tag_entries(out@) =~= tag_entries(before).push(e[i as int]));
            }
            i = i + 1;
        }
        assert(e.take(self.tags.len() as int) == e);
        out
    }

    /// Replaces the table by a backup read by the caller; refused, with the
    /// table unchanged, when there is no backup.
    pub fn restore(&mut self, backup: Option<Vec<(String, Vec<String>)>>) -> (r: Result<(), TagError>)
        ensures
            match backup {
                Some(b) => r is Ok && final(self)@ == to_map(tag_entries(b@)),
                None => r == Err::<(), TagError>(TagError::BackupMissing) && final(self)@ == old(self)@,
            },
    {
        match backup {
            Some(b) => {
                *self = TagManager::from_entries(b);
                Ok(())
            },
            None => Err(TagError::BackupMissing),
        }
    }

    /// Rewrites every key in Windows extended form to its usual form (see
    /// [`unc_to_normal`]); tells whether any key changed. When two keys
    /// become one, the later entry's tags are kept.
    pub fn migrate_unc_paths(&mut self, windows: bool) -> (r: bool)
        ensures
            r == exists|i: int|
                0 <= i < old(self).entries().len() && #[trigger] unc_to_normal(old(self).entries()[i].0, windows)
                    != old(self).entries()[i].0,
            final(self)@ == to_map(old(self).entries().map_values(
                |p: (Seq<char>, Seq<Seq<char>>)| (unc_to_normal(p.0, windows), p.1),
            )),
    {
        let ghost e = self.entries();
        let ghost f = e.map_values(|p: (Seq<char>, Seq<Seq<char>>)| (unc_to_normal(p.0, windows), p.1));
        let mut fresh = TagManager::new();
        let mut changed = false;
        let mut i: usize = 0;
        while i < self.tags.len()
            invariant
                i <= self.tags@.len(),
                e == self.entries(),
                e == tag_entries(self.tags@),
                f == e.map_values(|p: (Seq<char>, Seq<Seq<char>>)| (unc_to_normal(p.0, windows), p.1)),
                fresh@ == to_map(f.take(i as int)),
                changed == exists|a: int| 0 <= a < i && #[trigger] unc_to_normal(e[a].0, windows) != e[a].0,
            decreases self.tags.len() - i,
        {
            assert(f.take(i + 1).drop_last() == f.take(i as int));
            let new_key = convert_unc_path_to_normal(self.tags[i].0.as_str(), windows);
            assert(e[i as int].0 == self.tags@[i as int].0@);
            assert(unc_to_normal(e[i as int].0, windows) == new_key@);
            if !str_eq(new_key.as_str(), self.tags[i].0.as_str()) {
                changed = true;
            }
            let v = clone_strings(&self.tags[i].1);
            fresh.set(new_key, v);
            i = i + 1;
        }
        assert(f.take(self.tags.len() as int) == f);
        *self = fresh;
        changed
    }
}

/// Whether `v` holds `s`.
fn slice_contains(v: &[&str], s: &str) -> (r: bool)
    ensures
        r == v@.map_values(|t: &str| t@).contains(s@),
{
    let ghost vv = v@.map_values(|t: &str| t@);
    let mut i: usize = 0;
    while i < v.len()
        invariant
            i <= v@.len(),
            vv == v@.map_values(|t: &str| t@),
            forall|j: int| 0 <= j < i ==> vv[j] != s@,
        decreases v.len() - i,
    {
        if str_eq(v[i], s) {
            assert(vv[i as int] == s@);
            return true;
        }
        i = i + 1;
    }
    false
}

/// Whether every pattern matches one of `tags`.
fn tags_match_all(tags: &Vec<String>, patterns: &[TagPattern]) -> (r: bool)
    ensures
        r == all_patterns_match(sources(patterns@), views(tags@)),
{
    let ghost ps = sources(patterns@);
    let ghost ts = views(tags@);
    let mut i: usize = 0;
    while i < patterns.len()
        invariant
            i <= patterns@.len(),
            ps == sources(patterns@),
            ts == views(tags@),
            forall|a: int| 0 <= a < i ==> #[trigger] pattern_hits(ps[a], ts),
        decreases patterns.len() - i,
    {
        let mut found = false;
        let mut j: usize = 0;
        while j < tags.len()
            invariant
                i < patterns@.len(),
                j <= tags@.len(),
                ps == sources(patterns@),
                ts == views(tags@),
                found == exists|b: int| 0 <= b < j && #[trigger] regex_match(ps[i as int], ts[b]),
            decreases tags.len() - j,
        {
            if patterns[i].is_match(tags[j].as_str()) {
                assert(regex_match(ps[i as int], ts[j as int]));
                found = true;
            }
            j = j + 1;
        }
        if !found {
            assert(!pattern_hits(ps[i as int], ts));
            return false;
        }
        i = i + 1;
    }
    true
}

/// The usual form of a Windows extended-form key (see [`unc_to_normal`]).
pub fn convert_unc_path_to_normal(path: &str, windows: bool) -> (r: String)
    ensures
        r@ == unc_to_normal(path@, windows),
{
    if !windows {
        return path.to_owned();
    }
    let cs = chars_of(path);
    let mut p1: Vec<char> = Vec::new();
    p1.push('\\');
    p1.push('\\');
    p1.push('?');
    p1.push('\\');
    let mut p_unc: Vec<char> = Vec::new();
    p_unc.push('U');
    p_unc.push('N');
    p_unc.push('C');
    p_unc.push('\\');
    let mut p2: Vec<char> = p1.clone();
    p2.append(&mut p_unc.clone());
    assert(p1@ =~= seq!['\\', '\\', '?', '\\']);
    assert(p_unc@ =~= seq!['U', 'N', 'C', '\\']);
    assert(p2@ =~= seq!['\\', '\\', '?', '\\', 'U', 'N', 'C', '\\']);
    if chars_start_with(&cs, &p2) {
        let mut out = "\\\\".to_owned();
        proof {
            reveal_strlit("\\\\");
        }
        out.append(string_of_range(&cs, 8, cs.len()).as_str());
        assert(path@.skip(8) == cs@.subrange(8, cs@.len() as int));
        out
    } else if chars_start_with(&cs, &p_unc) {
        let mut out = "\\\\".to_owned();
        proof {
            reveal_strlit("\\\\");
        }
        out.append(string_of_range(&cs, 4, cs.len()).as_str());
        assert(path@.skip(4) == cs@.subrange(4, cs@.len() as int));
        out
    } else if chars_start_with(&cs, &p1) {
        let out = string_of_range(&cs, 4, cs.len());
        assert(path@.skip(4) == cs@.subrange(4, cs@.len() as int));
        out
    } else {
        path.to_owned()
    }
}

/// A key as the tag list shows it: on Windows without a leading `\\?\`;
/// elsewhere unchanged.
pub open spec fn listed_path(path: Seq<char>, windows: bool) -> Seq<char> {
    if windows && starts_with(path, seq!['\\', '\\', '?', '\\']) {
        path.skip(4)
    } else {
        path
    }
}

/// A key as the tag list shows it (see [`listed_path`]).
pub fn clean_windows_path(path: &str, windows: bool) -> (r: String)
    ensures
        r@ == listed_path(path@, windows),
{
    let cs = chars_of(path);
    let mut p: Vec<char> = Vec::new();
    p.push('\\');
    p.push('\\');
    p.push('?');
    p.push('\\');
    assert(p@ =~= seq!['\\', '\\', '?', '\\']);
    if windows && chars_start_with(&cs, &p) {
        let out = string_of_range(&cs, 4, cs.len());
        assert(path@.skip(4) == cs@.subrange(4, cs@.len() as int));
        out
    } else {
        path.to_owned()
    }
}

/// Whether a file name is the `.index` placeholder that carries a
/// directory's tags.
pub fn is_index_name(name: &str) -> (r: bool)
    ensures
        r == (name@ == ".index"@),
{
    str_eq(name, ".index")
}

proof fn lemma_first_invalid_prefix(tags: Seq<Seq<char>>, i: int)
    requires
        0 <= i < tags.len(),
        first_invalid_tag(tags.take(i)) is None,
        !valid_tag(tags[i]),
    ensures
        first_invalid_tag(tags) == Some(i),
    decreases tags.len(),
{
    if i < tags.len() - 1 {
        assert(tags.drop_last().take(i) == tags.take(i));
        lemma_first_invalid_prefix(tags.drop_last(), i);
    } else {
        assert(tags.drop_last() == tags.take(i));
    }
}

/// Saving and loading keep the table: a table rebuilt (with
/// [`TagManager::from_entries`]) from the entries that
/// [`TagManager::list_all`] gives holds exactly the tags of the saved one, so
/// every file reads back the tags it had.
pub proof fn law_tag_reload_keeps_table(
    saved: TagManager,
    listed: Seq<(Seq<char>, Seq<Seq<char>>)>,
    reloaded: TagManager,
)
    requires
        listed == saved.entries(),
        reloaded@ == to_map(listed),
    ensures
        reloaded@ == saved@,
{
}

/// How a path argument of a tag command stands, before its key is made.
#[derive(Debug, Clone, Copy, PartialEq, Eq)]
pub enum TargetCheck {
    /// Nothing is there, and it is no `.index` placeholder.
    Missing,
    /// It is a directory.
    Directory,
    /// It gets a key: an existing file, or a placeholder.
    NeedsKey,
}

/// How a path argument stands: missing (unless it is a placeholder) is
/// decided first, then a directory; anything else gets a key.
pub open spec fn target_check_spec(exists: bool, is_placeholder: bool, is_dir: bool) -> TargetCheck {
    if !exists && !is_placeholder {
        TargetCheck::Missing
    } else if is_dir {
        TargetCheck::Directory
    } else {
        TargetCheck::NeedsKey
    }
}

/// How a path argument stands (see [`target_check_spec`]).
pub fn target_check(exists: bool, is_placeholder: bool, is_dir: bool) -> (r: TargetCheck)
    ensures
        r == target_check_spec(exists, is_placeholder, is_dir),
{
    if !exists && !is_placeholder {
        TargetCheck::Missing
    } else if is_dir {
        TargetCheck::Directory
    } else {
        TargetCheck::NeedsKey
    }
}

} // verus!
