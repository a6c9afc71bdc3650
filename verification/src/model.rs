//! The record model: a repository with its per-language byte sizes.
//!
//! Identity is deliberately narrower than structural equality: a language
//! is identified by its name alone, a repository by its (owner, name)
//! pair. The identity keys stand as dedicated spec functions rather than
//! as an overloaded equality.

use vstd::prelude::*;
use crate::sanitize::lemma_sanitize_idempotent;
use crate::sanitize::sanitize_optional_string_field;
use crate::sanitize::sanitize_seq;
use crate::sanitize::sanitize_string_field;

verus! {

/// Largest byte size stored for a language: the maximum value of the
/// destination's 32-bit signed numeric column.
pub const MAX_LANGUAGE_SIZE: usize = 0x7fff_ffff;

/// A programming language together with the number of bytes written in it
/// inside one repository.
pub struct Language {
    pub name: String,
    pub size: usize,
}

/// One repository record as parsed from the raw dataset. Absent optional
/// fields are `None`, never a sentinel string or zero.
pub struct Repository {
    pub owner: String,
    pub name: String,
    pub stars: usize,
    pub is_fork: bool,
    pub is_archived: bool,
    pub languages: Vec<Language>,
    pub disk_usage_kb: usize,
    pub description: Option<String>,
    pub primary_language: Option<String>,
    pub default_branch_commit_count: Option<usize>,
    pub license: Option<String>,
}

/// The identity key of a repository: its (owner, name) pair.
pub open spec fn repo_key(r: Repository) -> (Seq<char>, Seq<char>) {
    (r.owner@, r.name@)
}

/// Some element of `s` carries the repository identity key `k`.
pub open spec fn seq_has_repo_key(s: Seq<Repository>, k: (Seq<char>, Seq<char>)) -> bool {
    exists|i: int| 0 <= i < s.len() && repo_key(s[i]) == k
}

/// Some language in `s` carries the name `n`.
pub open spec fn seq_has_lang_name(s: Seq<Language>, n: Seq<char>) -> bool {
    exists|i: int| 0 <= i < s.len() && s[i].name@ == n
}

/// A byte size clamped to the destination column's maximum.
pub open spec fn clamped_size(n: usize) -> usize {
    if n >= MAX_LANGUAGE_SIZE {
        MAX_LANGUAGE_SIZE
    } else {
        n
    }
}

/// `l` is the sanitized form of one of the input languages: its name is
/// that language's sanitized name, its size that language's clamped size.
pub open spec fn lang_from_input(input: Seq<Language>, l: Language) -> bool {
    exists|j: int|
        0 <= j < input.len() && l.name@ == sanitize_seq(#[trigger] input[j].name@) && l.size
            == clamped_size(input[j].size)
}

/// `out` relates to `input` as sanitization demands: names sanitized,
/// sizes clamped, duplicates by sanitized name collapsed to a single
/// survivor taken whole from the input.
pub open spec fn languages_sanitized(input: Seq<Language>, out: Seq<Language>) -> bool {
    &&& out.len() <= input.len()
    &&& forall|i: int, j: int| 0 <= i < j < out.len() ==> out[i].name@ != out[j].name@
    &&& forall|i: int| 0 <= i < out.len() ==> lang_from_input(input, #[trigger] out[i])
    &&& forall|j: int|
        0 <= j < input.len() ==> seq_has_lang_name(out, sanitize_seq(#[trigger] input[j].name@))
}

/// True when every element of `s` already has the sanitized name and the
/// clamped size it would get, and no two share a name.
pub open spec fn languages_clean(s: Seq<Language>) -> bool {
    &&& forall|i: int| 0 <= i < s.len() ==> sanitize_seq(#[trigger] s[i].name@) == s[i].name@
    &&& forall|i: int| 0 <= i < s.len() ==> clamped_size(#[trigger] s[i].size) == s[i].size
    &&& forall|i: int, j: int| 0 <= i < j < s.len() ==> s[i].name@ != s[j].name@
}

/// Does some already-kept language carry this name?
fn languages_contain_name(out: &Vec<Language>, name: &String) -> (b: bool)
    ensures
        b == seq_has_lang_name(out@, name@),
{
    let mut i: usize = 0;
    while i < out.len()
        invariant
            i <= out@.len(),
            forall|j: int| 0 <= j < i ==> out@[j].name@ != name@,
        decreases out@.len() - i,
    {
        if out[i].name == *name {
            return true;
        }
        i = i + 1;
    }
    false
}

/// Sanitizes every language name, clamps every size, and collapses
/// languages that share a sanitized name to one survivor.
#[verifier::rlimit(50)]
fn sanitize_languages(input: &Vec<Language>) -> (out: Vec<Language>)
    ensures
        languages_sanitized(input@, out@),
        languages_clean(out@),
        languages_clean(input@) ==> lang_views(out@) == lang_views(input@),
{
    let mut out: Vec<Language> = Vec::new();
    let mut i: usize = 0;
    while i < input.len()
        invariant
            i <= input@.len(),
            out@.len() <= i,
            forall|p: int, q: int| 0 <= p < q < out@.len() ==> out@[p].name@ != out@[q].name@,
            forall|p: int| 0 <= p < out@.len() ==> lang_from_input(input@, #[trigger] out@[p]),
            forall|j: int|
                0 <= j < i ==> seq_has_lang_name(out@, sanitize_seq(#[trigger] input@[j].name@)),
            forall|p: int| 0 <= p < out@.len() ==> sanitize_seq(#[trigger] out@[p].name@) == out@[p].name@,
            forall|p: int| 0 <= p < out@.len() ==> clamped_size(#[trigger] out@[p].size) == out@[p].size,
            languages_clean(input@) ==> out@.len() == i && lang_views(out@)
                == lang_views(input@.subrange(0, i as int)),
        decreases input@.len() - i,
    {
        let name = sanitize_string_field(&input[i].name);
        let size = if input[i].size >= MAX_LANGUAGE_SIZE {
            MAX_LANGUAGE_SIZE
        } else {
            input[i].size
        };
        proof {
            lemma_sanitize_idempotent(input@[i as int].name@);
            assert(size == clamped_size(input@[i as int].size));
        }
        let ghost pre = out@;
        if !languages_contain_name(&out, &name) {
            out.push(Language { name, size });
            proof {
                let last = pre.len() as int;
                assert(out@[last].name@ == sanitize_seq(input@[i as int].name@));
                assert(out@[last].size == clamped_size(input@[i as int].size));
                assert(lang_from_input(input@, out@[last]));
                assert forall|j: int|
                    0 <= j < i + 1 implies seq_has_lang_name(
                    out@,
                    sanitize_seq(#[trigger] input@[j].name@),
                ) by {
                    if j < i {
                        let w = choose|w: int|
                            0 <= w < pre.len() && pre[w].name@ == sanitize_seq(input@[j].name@);
                        assert(out@[w].name@ == sanitize_seq(input@[j].name@));
                    }
                }
                if languages_clean(input@) {
                    assert(sanitize_seq(input@[i as int].name@) == input@[i as int].name@);
                    assert(clamped_size(input@[i as int].size) == input@[i as int].size);
                    assert forall|k: int|
                        0 <= k < i + 1 implies lang_views(out@)[k] == lang_views(
                        input@.subrange(0, i + 1 as int),
                    )[k] by {
                        if k < i {
                            assert(out@[k] == pre[k]);
                            assert(lang_views(pre)[k] == lang_views(
                                input@.subrange(0, i as int),
                            )[k]);
                            assert(input@.subrange(0, i as int)[k] == input@[k]);
                            assert(input@.subrange(0, i + 1 as int)[k] == input@[k]);
                        } else {
                            assert(out@[k].name@ == input@[i as int].name@);
                            assert(out@[k].size == input@[i as int].size);
                            assert(input@.subrange(0, i + 1 as int)[k] == input@[i as int]);
                        }
                    }
                    assert(lang_views(out@) =~= lang_views(input@.subrange(0, i + 1 as int)));
                }
            }
        } else {
            proof {
                assert(seq_has_lang_name(out@, sanitize_seq(input@[i as int].name@)));
                if languages_clean(input@) {
                    // A clean input never collides: the found survivor is an
                    // earlier input language with the same name, against the
                    // input's own uniqueness.
                    let p = choose|p: int| 0 <= p < out@.len() && out@[p].name@ == name@;
                    assert(lang_views(out@)[p] == lang_views(input@.subrange(0, i as int))[p]);
                    assert(input@[p].name@ == name@);
                    assert(sanitize_seq(input@[i as int].name@) == input@[i as int].name@);
                    assert(input@[i as int].name@ == name@);
                }
            }
        }
        i = i + 1;
    }
    proof {
        if languages_clean(input@) {
            assert(input@.subrange(0, input@.len() as int) =~= input@);
        }
        assert(languages_sanitized(input@, out@));
    }
    out
}

/// The (name, size) views of a language list.
pub open spec fn lang_views(ls: Seq<Language>) -> Seq<(Seq<char>, usize)> {
    ls.map_values(|l: Language| (l.name@, l.size))
}

/// An optional text and its sanitized form: absent stays absent, a
/// present text is sanitized.
pub open spec fn optional_sanitized(orig: Option<String>, out: Option<String>) -> bool {
    &&& out is Some <==> orig is Some
    &&& out is Some ==> out.unwrap()@ == sanitize_seq(orig.unwrap()@)
}

/// `s` is the sanitized form of the record `orig`: free-text fields
/// sanitized, language sizes clamped, languages collapsed to one entry
/// per sanitized name, every other field unchanged.
pub open spec fn repo_sanitized(orig: Repository, s: Repository) -> bool {
    &&& s.owner@ == orig.owner@
    &&& s.name@ == sanitize_seq(orig.name@)
    &&& s.stars == orig.stars
    &&& s.is_fork == orig.is_fork
    &&& s.is_archived == orig.is_archived
    &&& s.disk_usage_kb == orig.disk_usage_kb
    &&& s.default_branch_commit_count == orig.default_branch_commit_count
    &&& optional_sanitized(orig.description, s.description)
    &&& optional_sanitized(orig.primary_language, s.primary_language)
    &&& optional_sanitized(orig.license, s.license)
    &&& languages_sanitized(orig.languages@, s.languages@)
    &&& languages_clean(s.languages@)
}

impl Repository {
    /// Returns the record with every free-text field sanitized, every
    /// language byte size clamped to the destination's maximum, and the
    /// language set collapsed to one entry per sanitized name. Owner,
    /// numeric and boolean fields are kept as they are.
    pub fn with_sanitized_fields(self) -> (r: Self)
        ensures
            repo_sanitized(self, r),
    {
        let languages = sanitize_languages(&self.languages);
        let name = sanitize_string_field(&self.name);
        let description = sanitize_optional_string_field(&self.description);
        let primary_language = sanitize_optional_string_field(&self.primary_language);
        let license = sanitize_optional_string_field(&self.license);
        Repository {
            name,
            description,
            primary_language,
            license,
            languages,
            ..self
        }
    }
}

} // verus!
