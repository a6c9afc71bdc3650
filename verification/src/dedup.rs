//! Deduplication of repository records by identity key.
//!
//! Two records sharing (owner, name) are the same repository; exactly one
//! of them survives, taken whole from the input. Which one survives and
//! in what order the survivors stand is deliberately left open: all
//! downstream consumption is set-like.

use vstd::prelude::*;
use crate::model::Repository;
use crate::model::repo_key;
use crate::model::repo_sanitized;
use crate::model::seq_has_repo_key;

verus! {

/// Every repository key of `s` appears in it only once.
pub open spec fn repo_keys_unique(s: Seq<Repository>) -> bool {
    forall|i: int, j: int| 0 <= i < j < s.len() ==> repo_key(s[i]) != repo_key(s[j])
}

/// Does some already-kept repository carry this identity key?
fn contains_repo_key(out: &Vec<Repository>, owner: &String, name: &String) -> (b: bool)
    ensures
        b == seq_has_repo_key(out@, (owner@, name@)),
{
    let mut i: usize = 0;
    while i < out.len()
        invariant
            i <= out@.len(),
            forall|j: int| 0 <= j < i ==> repo_key(#[trigger] out@[j]) != (owner@, name@),
        decreases out@.len() - i,
    {
        if out[i].owner == *owner && out[i].name == *name {
            proof {
                assert(repo_key(out@[i as int]) == (owner@, name@));
            }
            return true;
        }
        i = i + 1;
    }
    false
}

/// Collapses the records to one survivor per (owner, name) identity key.
///
/// The survivors are input records taken whole (never a blend of two
/// records), no two survivors share a key, every input key is still
/// represented, and an input that already held no duplicate keys comes
/// back unchanged. Together with the key uniqueness of the result, that
/// last clause makes deduplication idempotent: re-running it on its own
/// output is a no-op. The output is never longer than the input.
pub fn dedup_repositories(repositories: Vec<Repository>) -> (r: Vec<Repository>)
    ensures
        r@.len() <= repositories@.len(),
        forall|i: int| 0 <= i < r@.len() ==> repositories@.contains(#[trigger] r@[i]),
        repo_keys_unique(r@),
        forall|k: (Seq<char>, Seq<char>)|
            seq_has_repo_key(r@, k) <==> seq_has_repo_key(repositories@, k),
        repo_keys_unique(repositories@) ==> r@ == repositories@,
{
    let ghost all = repositories@;
    let mut rest = repositories;
    let mut out: Vec<Repository> = Vec::new();
    let ghost mut done: Seq<Repository> = Seq::empty();
    proof {
        assert(all =~= done + rest@);
    }
    while rest.len() > 0
        invariant
            all == done + rest@,
            out@.len() <= done.len(),
            forall|i: int| 0 <= i < out@.len() ==> done.contains(#[trigger] out@[i]),
            repo_keys_unique(out@),
            forall|k: (Seq<char>, Seq<char>)|
                seq_has_repo_key(out@, k) <==> seq_has_repo_key(done, k),
            repo_keys_unique(all) ==> out@ == done,
        decreases rest@.len(),
    {
        let ghost pre_done = done;
        let ghost pre_out = out@;
        let ghost pre_rest = rest@;
        let x = rest.remove(0);
        let ghost gx = x;
        let dup = contains_repo_key(&out, &x.owner, &x.name);
        proof {
            done = pre_done.push(gx);
            assert(pre_done + pre_rest =~= done + rest@);
            assert(gx == all[pre_done.len() as int]);
            assert(pre_done =~= all.subrange(0, pre_done.len() as int));
        }
        if !dup {
            out.push(x);
            proof {
                assert(out@ == pre_out.push(gx));
                assert forall|i: int|
                    0 <= i < out@.len() implies done.contains(#[trigger] out@[i]) by {
                    if i < pre_out.len() {
                        let w = choose|w: int| 0 <= w < pre_done.len() && pre_done[w] == pre_out[i];
                        assert(done[w] == out@[i]);
                    } else {
                        assert(done.last() == out@[i]);
                    }
                }
                assert forall|k: (Seq<char>, Seq<char>)|
                    seq_has_repo_key(out@, k) <==> seq_has_repo_key(done, k) by {
                    if seq_has_repo_key(out@, k) {
                        let w = choose|w: int| 0 <= w < out@.len() && repo_key(out@[w]) == k;
                        if w < pre_out.len() {
                            let v = choose|v: int|
                                0 <= v < pre_done.len() && repo_key(pre_done[v]) == k;
                            assert(repo_key(done[v]) == k);
                        } else {
                            assert(repo_key(done.last()) == k);
                        }
                    }
                    if seq_has_repo_key(done, k) {
                        let w = choose|w: int| 0 <= w < done.len() && repo_key(done[w]) == k;
                        if w < pre_done.len() {
                            assert(repo_key(pre_done[w]) == k);
                            assert(seq_has_repo_key(pre_done, k));
                            assert(seq_has_repo_key(pre_out, k));
                            let v = choose|v: int|
                                0 <= v < pre_out.len() && repo_key(pre_out[v]) == k;
                            assert(repo_key(out@[v]) == k);
                        } else {
                            assert(repo_key(out@[out@.len() - 1]) == k);
                        }
                    }
                }
            }
        } else {
            proof {
                assert(seq_has_repo_key(pre_out, (gx.owner@, gx.name@)));
                assert forall|k: (Seq<char>, Seq<char>)|
                    seq_has_repo_key(out@, k) <==> seq_has_repo_key(done, k) by {
                    if seq_has_repo_key(done, k) {
                        let w = choose|w: int| 0 <= w < done.len() && repo_key(done[w]) == k;
                        if w < pre_done.len() {
                            assert(seq_has_repo_key(pre_done, k));
                        } else {
                            assert(repo_key(gx) == k);
                            assert(seq_has_repo_key(pre_out, k));
                        }
                    }
                    if seq_has_repo_key(out@, k) {
                        let v = choose|v: int| 0 <= v < pre_done.len() && repo_key(pre_done[v]) == k;
                        assert(repo_key(done[v]) == k);
                    }
                }
                if repo_keys_unique(all) {
                    // A duplicate key in the kept records would name an earlier
                    // input record with the key of the current one.
                    let w = choose|w: int| 0 <= w < out@.len() && repo_key(out@[w]) == repo_key(gx);
                    assert(out@[w] == pre_done[w]);
                    assert(all[w] == pre_done[w]);
                    assert(repo_key(all[w]) == repo_key(all[pre_done.len() as int]));
                }
            }
        }
    }
    proof {
        assert(done =~= all);
    }
    out
}

/// The whole normalization step: sanitizes every record, then collapses
/// the sanitized records to one survivor per identity key. There is a
/// sequence `mid` of the sanitized records, in input order, from which
/// the result is the deduplication described by `dedup_repositories`.
pub fn prepare_repositories(raw: Vec<Repository>) -> (r: Vec<Repository>)
    ensures
        exists|mid: Seq<Repository>|
            {
                &&& #[trigger] mid.len() == raw@.len()
                &&& (forall|j: int|
                    0 <= j < mid.len() ==> repo_sanitized(raw@[j], #[trigger] mid[j]))
                &&& r@.len() <= mid.len()
                &&& (forall|i: int| 0 <= i < r@.len() ==> mid.contains(#[trigger] r@[i]))
                &&& repo_keys_unique(r@)
                &&& (forall|k: (Seq<char>, Seq<char>)|
                    seq_has_repo_key(r@, k) <==> seq_has_repo_key(mid, k))
            },
{
    let ghost all = raw@;
    let mut rest = raw;
    let mut sanitized: Vec<Repository> = Vec::new();
    while rest.len() > 0
        invariant
            sanitized@.len() + rest@.len() == all.len(),
            rest@ == all.subrange(sanitized@.len() as int, all.len() as int),
            forall|j: int|
                0 <= j < sanitized@.len() ==> repo_sanitized(all[j], #[trigger] sanitized@[j]),
        decreases rest@.len(),
    {
        let ghost pre = sanitized@;
        let x = rest.remove(0);
        proof {
            assert(x == all[pre.len() as int]);
            assert(rest@ =~= all.subrange(pre.len() + 1 as int, all.len() as int));
        }
        let s = x.with_sanitized_fields();
        sanitized.push(s);
    }
    let ghost mid = sanitized@;
    let r = dedup_repositories(sanitized);
    proof {
        assert(mid.len() == all.len() && (forall|j: int|
            0 <= j < mid.len() ==> repo_sanitized(all[j], #[trigger] mid[j])) && r@.len()
            <= mid.len() && (forall|i: int| 0 <= i < r@.len() ==> mid.contains(#[trigger] r@[i]))
            && repo_keys_unique(r@) && (forall|k: (Seq<char>, Seq<char>)|
            seq_has_repo_key(r@, k) <==> seq_has_repo_key(mid, k)));
    }
    r
}

} // verus!
