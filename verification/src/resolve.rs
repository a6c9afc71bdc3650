//! Identifier resolution: lookup tables from an entity's natural key to
//! the identifier the store assigned it, built from the rows read back
//! after the corresponding insert phase committed. A lookup miss means an
//! entity that should have been inserted was not: callers must treat it
//! as fatal.

use vstd::prelude::*;

verus! {

/// A lookup table from a single-string natural key (an owner name, a
/// language name) to its assigned identifier. When the same key appears
/// in several rows, the earliest row wins.
pub struct NameResolver {
    entries: Vec<(String, i32)>,
}

/// The mapping an entry list stands for: earlier entries win.
pub open spec fn name_map_of(s: Seq<(String, i32)>) -> Map<Seq<char>, i32>
    decreases s.len(),
{
    if s.len() == 0 {
        Map::empty()
    } else {
        name_map_of(s.subrange(1, s.len() as int)).insert(s[0].0@, s[0].1)
    }
}

proof fn lemma_name_map_found(s: Seq<(String, i32)>, i: int)
    requires
        0 <= i < s.len(),
        forall|j: int| 0 <= j < i ==> (#[trigger] s[j]).0@ != s[i].0@,
    ensures
        name_map_of(s).contains_key(s[i].0@),
        name_map_of(s)[s[i].0@] == s[i].1,
    decreases s.len(),
{
    let rest = s.subrange(1, s.len() as int);
    if i == 0 {
    } else {
        assert(s[0].0@ != s[i].0@);
        assert forall|j: int| 0 <= j < i - 1 implies (#[trigger] rest[j]).0@ != rest[i - 1].0@ by {
            assert(rest[j] == s[j + 1]);
        }
        assert(rest[i - 1] == s[i]);
        lemma_name_map_found(rest, i - 1);
    }
}

proof fn lemma_name_map_missing(s: Seq<(String, i32)>, k: Seq<char>)
    requires
        forall|j: int| 0 <= j < s.len() ==> (#[trigger] s[j]).0@ != k,
    ensures
        !name_map_of(s).contains_key(k),
    decreases s.len(),
{
    if s.len() > 0 {
        let rest = s.subrange(1, s.len() as int);
        assert forall|j: int| 0 <= j < rest.len() implies (#[trigger] rest[j]).0@ != k by {
            assert(rest[j] == s[j + 1]);
        }
        lemma_name_map_missing(rest, k);
    }
}

impl NameResolver {
    /// The key-to-identifier mapping this resolver answers from.
    pub closed spec fn as_map(self) -> Map<Seq<char>, i32> {
        name_map_of(self.entries@)
    }

    /// Builds the resolver from the (name, id) rows read from the store.
    pub fn from_rows(rows: Vec<(String, i32)>) -> (r: NameResolver)
        ensures
            r.as_map() == name_map_of(rows@),
    {
        NameResolver { entries: rows }
    }

    /// The identifier assigned to this key, or `None` when the key was
    /// never persisted.
    pub fn lookup(&self, key: &String) -> (r: Option<i32>)
        ensures
            r is Some <==> self.as_map().contains_key(key@),
            r is Some ==> r.unwrap() == self.as_map()[key@],
    {
        let mut i: usize = 0;
        while i < self.entries.len()
            invariant
                i <= self.entries@.len(),
                forall|j: int| 0 <= j < i ==> (#[trigger] self.entries@[j]).0@ != key@,
            decreases self.entries@.len() - i,
        {
            if self.entries[i].0 == *key {
                proof {
                    lemma_name_map_found(self.entries@, i as int);
                }
                return Some(self.entries[i].1);
            }
            i = i + 1;
        }
        proof {
            lemma_name_map_missing(self.entries@, key@);
        }
        None
    }
}

/// A lookup table from a repository's (name, owner) pair to its assigned
/// identifier. When the same pair appears in several rows, the earliest
/// row wins.
pub struct RepoResolver {
    entries: Vec<(String, String, i32)>,
}

/// The mapping an entry list stands for: earlier entries win. Keys are
/// (repository name, owner name) pairs.
pub open spec fn repo_map_of(s: Seq<(String, String, i32)>) -> Map<(Seq<char>, Seq<char>), i32>
    decreases s.len(),
{
    if s.len() == 0 {
        Map::empty()
    } else {
        repo_map_of(s.subrange(1, s.len() as int)).insert((s[0].0@, s[0].1@), s[0].2)
    }
}

proof fn lemma_repo_map_found(s: Seq<(String, String, i32)>, i: int)
    requires
        0 <= i < s.len(),
        forall|j: int|
            0 <= j < i ==> ((#[trigger] s[j]).0@, s[j].1@) != (s[i].0@, s[i].1@),
    ensures
        repo_map_of(s).contains_key((s[i].0@, s[i].1@)),
        repo_map_of(s)[(s[i].0@, s[i].1@)] == s[i].2,
    decreases s.len(),
{
    let rest = s.subrange(1, s.len() as int);
    if i == 0 {
    } else {
        assert((s[0].0@, s[0].1@) != (s[i].0@, s[i].1@));
        assert forall|j: int|
            0 <= j < i - 1 implies ((#[trigger] rest[j]).0@, rest[j].1@) != (
            rest[i - 1].0@,
            rest[i - 1].1@,
        ) by {
            assert(rest[j] == s[j + 1]);
            assert(rest[i - 1] == s[i]);
        }
        assert(rest[i - 1] == s[i]);
        lemma_repo_map_found(rest, i - 1);
    }
}

proof fn lemma_repo_map_missing(s: Seq<(String, String, i32)>, k: (Seq<char>, Seq<char>))
    requires
        forall|j: int| 0 <= j < s.len() ==> ((#[trigger] s[j]).0@, s[j].1@) != k,
    ensures
        !repo_map_of(s).contains_key(k),
    decreases s.len(),
{
    if s.len() > 0 {
        let rest = s.subrange(1, s.len() as int);
        assert forall|j: int|
            0 <= j < rest.len() implies ((#[trigger] rest[j]).0@, rest[j].1@) != k by {
            assert(rest[j] == s[j + 1]);
        }
        lemma_repo_map_missing(rest, k);
    }
}

impl RepoResolver {
    /// The key-to-identifier mapping this resolver answers from.
    pub closed spec fn as_map(self) -> Map<(Seq<char>, Seq<char>), i32> {
        repo_map_of(self.entries@)
    }

    /// Builds the resolver from the (name, owner, id) rows read from the
    /// store's join of repositories with their owners.
    pub fn from_rows(rows: Vec<(String, String, i32)>) -> (r: RepoResolver)
        ensures
            r.as_map() == repo_map_of(rows@),
    {
        RepoResolver { entries: rows }
    }

    /// The identifier assigned to this (name, owner) pair, or `None`
    /// when the pair was never persisted.
    pub fn lookup(&self, name: &String, owner: &String) -> (r: Option<i32>)
        ensures
            r is Some <==> self.as_map().contains_key((name@, owner@)),
            r is Some ==> r.unwrap() == self.as_map()[(name@, owner@)],
    {
        let mut i: usize = 0;
        while i < self.entries.len()
            invariant
                i <= self.entries@.len(),
                forall|j: int|
                    0 <= j < i ==> ((#[trigger] self.entries@[j]).0@, self.entries@[j].1@) != (
                        name@,
                        owner@,
                    ),
            decreases self.entries@.len() - i,
        {
            if self.entries[i].0 == *name && self.entries[i].1 == *owner {
                proof {
                    lemma_repo_map_found(self.entries@, i as int);
                }
                return Some(self.entries[i].2);
            }
            i = i + 1;
        }
        proof {
            lemma_repo_map_missing(self.entries@, (name@, owner@));
        }
        None
    }
}

} // verus!
