//! Entity extraction: the distinct projection of a record set onto a
//! string key — all distinct owner names, all distinct language names —
//! ready to be persisted in size-bounded batches.

use vstd::prelude::*;
use crate::model::Language;
use crate::model::Repository;

verus! {

/// The owner names of a record list.
pub open spec fn owner_names(rs: Seq<Repository>) -> Seq<Seq<char>> {
    rs.map_values(|r: Repository| r.owner@)
}

/// The language names of one language list.
pub open spec fn lang_names(ls: Seq<Language>) -> Seq<Seq<char>> {
    ls.map_values(|l: Language| l.name@)
}

/// Every language name of every record, in order of appearance.
pub open spec fn all_language_names(rs: Seq<Repository>) -> Seq<Seq<char>> {
    rs.map_values(|r: Repository| lang_names(r.languages@)).flatten()
}

/// The views of a string list.
pub open spec fn strings_view(v: Seq<String>) -> Seq<Seq<char>> {
    v.map_values(|s: String| s@)
}

/// No two entries are equal.
pub open spec fn names_distinct(ns: Seq<Seq<char>>) -> bool {
    forall|i: int, j: int| 0 <= i < j < ns.len() ==> ns[i] != ns[j]
}

/// `out` is the distinct projection of `src`: all distinct, drawn from
/// `src`, covering every value of `src`, and equal to `src` whenever
/// `src` already held no duplicate — which makes the projection
/// idempotent and never longer than its input.
pub open spec fn distinct_projection(src: Seq<Seq<char>>, out: Seq<Seq<char>>) -> bool {
    &&& out.len() <= src.len()
    &&& names_distinct(out)
    &&& forall|i: int| 0 <= i < out.len() ==> src.contains(#[trigger] out[i])
    &&& forall|j: int| 0 <= j < src.len() ==> out.contains(#[trigger] src[j])
    &&& names_distinct(src) ==> out == src
}

/// Is this value already among the kept ones?
fn contains_string(v: &Vec<String>, s: &String) -> (b: bool)
    ensures
        b == strings_view(v@).contains(s@),
{
    let mut i: usize = 0;
    while i < v.len()
        invariant
            i <= v@.len(),
            forall|j: int| 0 <= j < i ==> strings_view(v@)[j] != s@,
        decreases v@.len() - i,
    {
        if v[i] == *s {
            proof {
                assert(strings_view(v@)[i as int] == s@);
            }
            return true;
        }
        i = i + 1;
    }
    proof {
        if strings_view(v@).contains(s@) {
            let w = choose|w: int|
                0 <= w < strings_view(v@).len() && strings_view(v@)[w] == s@;
            assert(strings_view(v@)[w] != s@);
        }
    }
    false
}

/// Keeps the first occurrence of every value, in encounter order.
pub fn distinct_values(values: &Vec<String>) -> (r: Vec<String>)
    ensures
        distinct_projection(strings_view(values@), strings_view(r@)),
{
    let ghost src = strings_view(values@);
    let mut out: Vec<String> = Vec::new();
    let mut i: usize = 0;
    while i < values.len()
        invariant
            i <= values@.len(),
            src == strings_view(values@),
            out@.len() <= i,
            names_distinct(strings_view(out@)),
            forall|p: int|
                0 <= p < out@.len() ==> src.contains(#[trigger] strings_view(out@)[p]),
            forall|j: int| 0 <= j < i ==> strings_view(out@).contains(#[trigger] src[j]),
            names_distinct(src) ==> strings_view(out@) == src.subrange(0, i as int),
        decreases values@.len() - i,
    {
        let ghost pre = out@;
        let kept = contains_string(&out, &values[i]);
        if !kept {
            out.push(values[i].clone());
            proof {
                assert(strings_view(out@) =~= strings_view(pre).push(src[i as int]));
                let last = pre.len() as int;
                assert(strings_view(out@)[last] == src[i as int]);
                assert(strings_view(out@).contains(src[i as int]));
                assert forall|p: int|
                    0 <= p < out@.len() implies src.contains(
                    #[trigger] strings_view(out@)[p],
                ) by {
                    if p < pre.len() {
                        assert(strings_view(out@)[p] == strings_view(pre)[p]);
                    } else {
                        assert(strings_view(out@)[p] == src[i as int]);
                    }
                }
                assert forall|j: int|
                    0 <= j < i + 1 implies strings_view(out@).contains(#[trigger] src[j]) by {
                    if j < i {
                        let w = choose|w: int|
                            0 <= w < strings_view(pre).len() && strings_view(pre)[w] == src[j];
                        assert(strings_view(out@)[w] == src[j]);
                    }
                }
                if names_distinct(src) {
                    assert(strings_view(out@) =~= src.subrange(0, i + 1 as int));
                }
            }
        } else {
            proof {
                assert(strings_view(out@).contains(src[i as int]));
                if names_distinct(src) {
                    // A distinct source never collides: the found copy would be
                    // an earlier source entry equal to the current one.
                    let w = choose|w: int|
                        0 <= w < strings_view(out@).len() && strings_view(out@)[w] == src[i as int];
                    assert(strings_view(out@)[w] == src.subrange(0, i as int)[w]);
                    assert(src[w] == src[i as int]);
                }
            }
        }
        i = i + 1;
    }
    proof {
        if names_distinct(src) {
            assert(src.subrange(0, i as int) =~= src);
        }
    }
    out
}

/// The distinct owner names of a record set, in encounter order.
pub fn distinct_owner_names(repositories: &Vec<Repository>) -> (r: Vec<String>)
    ensures
        distinct_projection(owner_names(repositories@), strings_view(r@)),
{
    let mut collected: Vec<String> = Vec::new();
    let mut i: usize = 0;
    while i < repositories.len()
        invariant
            i <= repositories@.len(),
            strings_view(collected@) == owner_names(repositories@).subrange(0, i as int),
        decreases repositories@.len() - i,
    {
        let ghost pre = collected@;
        collected.push(repositories[i].owner.clone());
        proof {
            assert(strings_view(pre).len() == pre.len());
            assert(collected@ == pre.push(collected@.last()));
            assert(collected@.last() == repositories@[i as int].owner);
            assert(collected@.len() == i + 1);
            assert forall|p: int|
                0 <= p < i + 1 implies strings_view(collected@)[p] == owner_names(
                repositories@,
            ).subrange(0, i + 1 as int)[p] by {
                if p < i {
                    assert(collected@[p] == pre[p]);
                    assert(strings_view(pre)[p] == owner_names(repositories@).subrange(
                        0,
                        i as int,
                    )[p]);
                }
            }
            assert(strings_view(collected@) =~= owner_names(repositories@).subrange(
                0,
                i + 1 as int,
            ));
        }
        i = i + 1;
    }
    proof {
        assert(owner_names(repositories@).subrange(0, i as int) =~= owner_names(repositories@));
    }
    distinct_values(&collected)
}

/// The distinct language names over every record's language list, in
/// encounter order.
pub fn distinct_language_names(repositories: &Vec<Repository>) -> (r: Vec<String>)
    ensures
        distinct_projection(all_language_names(repositories@), strings_view(r@)),
{
    let ghost rows = repositories@.map_values(|x: Repository| lang_names(x.languages@));
    let mut collected: Vec<String> = Vec::new();
    let mut i: usize = 0;
    while i < repositories.len()
        invariant
            i <= repositories@.len(),
            rows == repositories@.map_values(|x: Repository| lang_names(x.languages@)),
            strings_view(collected@) == rows.subrange(0, i as int).flatten(),
        decreases repositories@.len() - i,
    {
        let langs = &repositories[i].languages;
        let ghost outer_pre = strings_view(collected@);
        let mut k: usize = 0;
        while k < langs.len()
            invariant
                i < repositories@.len(),
                k <= langs@.len(),
                langs@ == repositories@[i as int].languages@,
                strings_view(collected@) == outer_pre + lang_names(langs@).subrange(0, k as int),
            decreases langs@.len() - k,
        {
            let ghost pre = collected@;
            collected.push(langs[k].name.clone());
            proof {
                assert(strings_view(pre).len() == pre.len());
                assert(outer_pre.len() + lang_names(langs@).subrange(0, k as int).len()
                    == pre.len());
                assert(collected@ == pre.push(collected@.last()));
                assert(collected@.last() == langs@[k as int].name);
                let rhs = outer_pre + lang_names(langs@).subrange(0, k + 1 as int);
                assert(rhs.len() == outer_pre.len() + k + 1);
                assert forall|p: int|
                    0 <= p < collected@.len() implies strings_view(collected@)[p] == rhs[p] by {
                    assert(strings_view(collected@)[p] == collected@[p]@);
                    if p < pre.len() {
                        assert(collected@[p] == pre[p]);
                        assert(strings_view(pre)[p] == (outer_pre + lang_names(langs@).subrange(
                            0,
                            k as int,
                        ))[p]);
                        if p >= outer_pre.len() {
                            assert(rhs[p] == lang_names(langs@)[p - outer_pre.len()]);
                        }
                    } else {
                        assert(collected@[p] == langs@[k as int].name);
                        assert(rhs[p] == lang_names(langs@)[k as int]);
                    }
                }
                assert(strings_view(collected@) =~= outer_pre + lang_names(langs@).subrange(
                    0,
                    k + 1 as int,
                ));
            }
            k = k + 1;
        }
        proof {
            let prefix = rows.subrange(0, i as int);
            assert(lang_names(langs@).subrange(0, langs@.len() as int) =~= lang_names(langs@));
            prefix.lemma_flatten_push(lang_names(langs@));
            assert(rows.subrange(0, i + 1 as int) =~= prefix.push(lang_names(langs@)));
            assert(strings_view(collected@) == rows.subrange(0, i + 1 as int).flatten());
        }
        i = i + 1;
    }
    proof {
        assert(rows.subrange(0, i as int) =~= rows);
    }
    distinct_values(&collected)
}

} // verus!
