//! The relational loader's row building: repository rows with resolved
//! owner identifiers, and repository-language association rows with
//! resolved repository and language identifiers. A resolver miss is a
//! data-consistency violation and surfaces as an error, never as a
//! made-up identifier.

use vstd::prelude::*;
use crate::model::Language;
use crate::model::Repository;
use crate::resolve::NameResolver;
use crate::resolve::RepoResolver;

verus! {

/// A consistency failure: an entity that should already have been
/// persisted has no assigned identifier.
#[derive(Clone, Copy, Debug, PartialEq, Eq, Structural)]
pub enum LoadError {
    MissingOwner,
    MissingRepository,
    MissingLanguage,
}

/// One row of the repository relation, ready to be rendered into a bulk
/// insert statement.
#[derive(Debug, PartialEq, Eq)]
pub struct RepositoryRow {
    pub owner_id: i32,
    pub name: String,
    pub stars: usize,
    pub is_fork: bool,
    pub is_archived: bool,
    pub disk_usage_kb: usize,
    pub description: Option<String>,
    pub primary_language: Option<String>,
    pub default_branch_commit_count: Option<usize>,
    pub license: Option<String>,
}

/// One row of the repository-language association relation.
#[derive(Debug, PartialEq, Eq)]
pub struct AssociationRow {
    pub repository_id: i32,
    pub language_id: i32,
    pub language_size: usize,
}

/// Every record's owner has an assigned identifier.
pub open spec fn owners_present(rs: Seq<Repository>, users: Map<Seq<char>, i32>) -> bool {
    forall|i: int| 0 <= i < rs.len() ==> users.contains_key((#[trigger] rs[i]).owner@)
}

/// `row` carries the record's fields unchanged, with the owner replaced
/// by the identifier the resolver assigns to it.
pub open spec fn repository_row_matches(
    users: Map<Seq<char>, i32>,
    r: Repository,
    row: RepositoryRow,
) -> bool {
    &&& users.contains_key(r.owner@)
    &&& row.owner_id == users[r.owner@]
    &&& row.name == r.name
    &&& row.stars == r.stars
    &&& row.is_fork == r.is_fork
    &&& row.is_archived == r.is_archived
    &&& row.disk_usage_kb == r.disk_usage_kb
    &&& row.description == r.description
    &&& row.primary_language == r.primary_language
    &&& row.default_branch_commit_count == r.default_branch_commit_count
    &&& row.license == r.license
}

pub(crate) fn clone_optional_field(v: &Option<String>) -> (r: Option<String>)
    ensures
        r == *v,
{
    match v {
        None => None,
        Some(s) => Some(s.clone()),
    }
}

/// Builds one repository row per record, in order, resolving each owner
/// to its identifier. Returns the rows exactly when every owner is
/// resolvable; a missing owner is the only error.
pub fn build_repository_rows(repositories: &Vec<Repository>, users: &NameResolver) -> (res: Result<
    Vec<RepositoryRow>,
    LoadError,
>)
    ensures
        res is Ok <==> owners_present(repositories@, users.as_map()),
        res is Ok ==> res.unwrap()@.len() == repositories@.len(),
        res is Ok ==> forall|i: int|
            0 <= i < repositories@.len() ==> repository_row_matches(
                users.as_map(),
                repositories@[i],
                #[trigger] res.unwrap()@[i],
            ),
        res is Err ==> res == Result::<Vec<RepositoryRow>, LoadError>::Err(
            LoadError::MissingOwner,
        ),
{
    let mut out: Vec<RepositoryRow> = Vec::new();
    let mut i: usize = 0;
    while i < repositories.len()
        invariant
            i <= repositories@.len(),
            out@.len() == i,
            forall|j: int|
                0 <= j < i ==> users.as_map().contains_key((#[trigger] repositories@[j]).owner@),
            forall|j: int|
                0 <= j < i ==> repository_row_matches(
                    users.as_map(),
                    repositories@[j],
                    #[trigger] out@[j],
                ),
        decreases repositories@.len() - i,
    {
        let r = &repositories[i];
        match users.lookup(&r.owner) {
            None => {
                proof {
                    assert(!users.as_map().contains_key(repositories@[i as int].owner@));
                }
                return Err(LoadError::MissingOwner);
            },
            Some(owner_id) => {
                out.push(
                    RepositoryRow {
                        owner_id,
                        name: r.name.clone(),
                        stars: r.stars,
                        is_fork: r.is_fork,
                        is_archived: r.is_archived,
                        disk_usage_kb: r.disk_usage_kb,
                        description: clone_optional_field(&r.description),
                        primary_language: clone_optional_field(&r.primary_language),
                        default_branch_commit_count: r.default_branch_commit_count,
                        license: clone_optional_field(&r.license),
                    },
                );
            },
        }
        i = i + 1;
    }
    Ok(out)
}

/// The association rows one record contributes: one row per language,
/// each carrying the repository's identifier, the language's identifier,
/// and the language's byte size.
pub open spec fn assoc_rows_for(
    r: Repository,
    rm: Map<(Seq<char>, Seq<char>), i32>,
    lm: Map<Seq<char>, i32>,
) -> Seq<AssociationRow> {
    r.languages@.map_values(
        |l: Language|
            AssociationRow {
                repository_id: rm[(r.name@, r.owner@)],
                language_id: lm[l.name@],
                language_size: l.size,
            },
    )
}

/// The association rows of a whole record list, in order.
pub open spec fn assoc_rows_spec(
    rs: Seq<Repository>,
    rm: Map<(Seq<char>, Seq<char>), i32>,
    lm: Map<Seq<char>, i32>,
) -> Seq<AssociationRow> {
    rs.map_values(|r: Repository| assoc_rows_for(r, rm, lm)).flatten()
}

/// The record's own identifier and all its language identifiers are
/// assigned.
pub open spec fn assoc_keys_present_for(
    r: Repository,
    rm: Map<(Seq<char>, Seq<char>), i32>,
    lm: Map<Seq<char>, i32>,
) -> bool {
    &&& rm.contains_key((r.name@, r.owner@))
    &&& forall|j: int|
        0 <= j < r.languages@.len() ==> lm.contains_key((#[trigger] r.languages@[j]).name@)
}

/// Every record's identifier and every referenced language identifier is
/// assigned.
pub open spec fn assoc_keys_present(
    rs: Seq<Repository>,
    rm: Map<(Seq<char>, Seq<char>), i32>,
    lm: Map<Seq<char>, i32>,
) -> bool {
    forall|i: int| 0 <= i < rs.len() ==> assoc_keys_present_for(#[trigger] rs[i], rm, lm)
}

/// Builds the repository-language association rows in order. Returns the
/// rows exactly when every (name, owner) pair and every language name is
/// resolvable. Every returned row's identifiers are values the resolvers
/// assigned: each one resolves to a persisted repository and language
/// row.
pub fn build_association_rows(
    repositories: &Vec<Repository>,
    repo_ids: &RepoResolver,
    language_ids: &NameResolver,
) -> (res: Result<Vec<AssociationRow>, LoadError>)
    ensures
        res is Ok <==> assoc_keys_present(repositories@, repo_ids.as_map(), language_ids.as_map()),
        res is Ok ==> res.unwrap()@ == assoc_rows_spec(
            repositories@,
            repo_ids.as_map(),
            language_ids.as_map(),
        ),
        res is Ok ==> forall|x: int|
            0 <= x < res.unwrap()@.len() ==> repo_ids.as_map().contains_value(
                (#[trigger] res.unwrap()@[x]).repository_id,
            ) && language_ids.as_map().contains_value(res.unwrap()@[x].language_id),
        res is Err ==> res == Result::<Vec<AssociationRow>, LoadError>::Err(
            LoadError::MissingRepository,
        ) || res == Result::<Vec<AssociationRow>, LoadError>::Err(LoadError::MissingLanguage),
        res == Result::<Vec<AssociationRow>, LoadError>::Err(LoadError::MissingRepository)
            ==> exists|i: int|
            0 <= i < repositories@.len() && !repo_ids.as_map().contains_key(
                ((#[trigger] repositories@[i]).name@, repositories@[i].owner@),
            ),
        res == Result::<Vec<AssociationRow>, LoadError>::Err(LoadError::MissingLanguage)
            ==> exists|i: int, j: int|
            0 <= i < repositories@.len() && 0 <= j < (#[trigger] repositories@[i]).languages@.len()
                && !language_ids.as_map().contains_key(
                (#[trigger] repositories@[i].languages@[j]).name@,
            ),
{
    let ghost rm = repo_ids.as_map();
    let ghost lm = language_ids.as_map();
    let ghost rows_of = repositories@.map_values(|x: Repository| assoc_rows_for(x, rm, lm));
    let mut out: Vec<AssociationRow> = Vec::new();
    let mut i: usize = 0;
    while i < repositories.len()
        invariant
            i <= repositories@.len(),
            rm == repo_ids.as_map(),
            lm == language_ids.as_map(),
            rows_of == repositories@.map_values(|x: Repository| assoc_rows_for(x, rm, lm)),
            out@ == rows_of.subrange(0, i as int).flatten(),
            forall|h: int| 0 <= h < i ==> assoc_keys_present_for(#[trigger] repositories@[h], rm, lm),
            forall|x: int|
                0 <= x < out@.len() ==> rm.contains_value((#[trigger] out@[x]).repository_id)
                    && lm.contains_value(out@[x].language_id),
        decreases repositories@.len() - i,
    {
        let r = &repositories[i];
        let rid = match repo_ids.lookup(&r.name, &r.owner) {
            None => {
                proof {
                    assert(!rm.contains_key((repositories@[i as int].name@,
                        repositories@[i as int].owner@)));
                    assert(!assoc_keys_present_for(repositories@[i as int], rm, lm));
                }
                return Err(LoadError::MissingRepository);
            },
            Some(v) => v,
        };
        proof {
            assert(rm.contains_value(rid));
        }
        let ghost row_seq = assoc_rows_for(repositories@[i as int], rm, lm);
        let ghost flat_pre = out@;
        let langs = &r.languages;
        let mut k: usize = 0;
        while k < langs.len()
            invariant
                i < repositories@.len(),
                k <= langs@.len(),
                langs@ == repositories@[i as int].languages@,
                rm == repo_ids.as_map(),
                lm == language_ids.as_map(),
                rm.contains_key((repositories@[i as int].name@, repositories@[i as int].owner@)),
                rid == rm[(repositories@[i as int].name@, repositories@[i as int].owner@)],
                row_seq == assoc_rows_for(repositories@[i as int], rm, lm),
                out@ == flat_pre + row_seq.subrange(0, k as int),
                forall|j: int|
                    0 <= j < k ==> lm.contains_key((#[trigger] langs@[j]).name@),
                forall|x: int|
                    0 <= x < out@.len() ==> rm.contains_value((#[trigger] out@[x]).repository_id)
                        && lm.contains_value(out@[x].language_id),
            decreases langs@.len() - k,
        {
            let l = &langs[k];
            let lid = match language_ids.lookup(&l.name) {
                None => {
                    proof {
                        assert(!lm.contains_key(repositories@[i as int].languages@[k as int].name@));
                        assert(!assoc_keys_present_for(repositories@[i as int], rm, lm));
                    }
                    return Err(LoadError::MissingLanguage);
                },
                Some(v) => v,
            };
            let ghost pre = out@;
            out.push(
                AssociationRow { repository_id: rid, language_id: lid, language_size: l.size },
            );
            proof {
                assert(lm.contains_value(lid));
                assert(row_seq.len() == langs@.len());
                assert(out@.last() == row_seq[k as int]);
                assert(out@ =~= flat_pre + row_seq.subrange(0, k + 1 as int));
            }
            k = k + 1;
        }
        proof {
            let prefix = rows_of.subrange(0, i as int);
            assert(row_seq.subrange(0, langs@.len() as int) =~= row_seq);
            prefix.lemma_flatten_push(row_seq);
            assert(rows_of.subrange(0, i + 1 as int) =~= prefix.push(row_seq));
            assert(out@ == rows_of.subrange(0, i + 1 as int).flatten());
            assert(assoc_keys_present_for(repositories@[i as int], rm, lm));
        }
        i = i + 1;
    }
    proof {
        assert(rows_of.subrange(0, i as int) =~= rows_of);
    }
    Ok(out)
}

} // verus!
