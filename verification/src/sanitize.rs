//! Text sanitization: every free-text field is stripped of the characters
//! that would corrupt a textual insert statement (backslash, single-quote)
//! or violate the destination text encoding (the NUL character).

use vstd::prelude::*;
use vstd::string::*;
use vstd::multiset::Multiset;

verus! {

/// A character that sanitization strips: backslash, single-quote, or NUL.
pub open spec fn is_removed_char(c: char) -> bool {
    c == '\\' || c == '\'' || c == '\u{0}'
}

/// The sanitized form of a text: the same characters in the same order,
/// with every backslash, single-quote and NUL removed and nothing else
/// changed.
pub open spec fn sanitize_seq(s: Seq<char>) -> Seq<char>
    decreases s.len(),
{
    if s.len() == 0 {
        Seq::empty()
    } else if is_removed_char(s.last()) {
        sanitize_seq(s.drop_last())
    } else {
        sanitize_seq(s.drop_last()).push(s.last())
    }
}

pub proof fn lemma_sanitize_push(s: Seq<char>, c: char)
    ensures
        sanitize_seq(s.push(c)) == if is_removed_char(c) {
            sanitize_seq(s)
        } else {
            sanitize_seq(s).push(c)
        },
{
    assert(s.push(c).drop_last() =~= s);
    assert(s.push(c).last() == c);
}

/// No removed character survives sanitization.
pub proof fn lemma_sanitize_no_removed(s: Seq<char>)
    ensures
        forall|i: int| 0 <= i < sanitize_seq(s).len() ==> !is_removed_char(sanitize_seq(s)[i]),
    decreases s.len(),
{
    if s.len() > 0 {
        lemma_sanitize_no_removed(s.drop_last());
        let d = sanitize_seq(s.drop_last());
        if !is_removed_char(s.last()) {
            assert(sanitize_seq(s) == d.push(s.last()));
            assert forall|i: int|
                0 <= i < sanitize_seq(s).len() implies !is_removed_char(sanitize_seq(s)[i]) by {
                if i < d.len() {
                    assert(sanitize_seq(s)[i] == d[i]);
                } else {
                    assert(sanitize_seq(s)[i] == s.last());
                }
            }
        }
    }
}

/// A text that holds no removed character is left unchanged.
pub proof fn lemma_sanitize_clean_identity(s: Seq<char>)
    requires
        forall|i: int| 0 <= i < s.len() ==> !is_removed_char(s[i]),
    ensures
        sanitize_seq(s) == s,
    decreases s.len(),
{
    if s.len() == 0 {
        assert(sanitize_seq(s) =~= s);
    } else {
        assert(!is_removed_char(s.last()));
        lemma_sanitize_clean_identity(s.drop_last());
        assert(sanitize_seq(s) =~= s);
    }
}

/// Sanitization is idempotent: sanitizing an already-sanitized text
/// returns the same text.
pub proof fn lemma_sanitize_idempotent(s: Seq<char>)
    ensures
        sanitize_seq(sanitize_seq(s)) == sanitize_seq(s),
{
    lemma_sanitize_no_removed(s);
    lemma_sanitize_clean_identity(sanitize_seq(s));
}

/// `a` appears inside `b` in order: `a` can be had from `b` by deleting
/// characters only.
pub open spec fn is_subsequence_of(a: Seq<char>, b: Seq<char>) -> bool
    decreases b.len(),
{
    if a.len() == 0 {
        true
    } else if b.len() == 0 {
        false
    } else if a.last() == b.last() {
        is_subsequence_of(a.drop_last(), b.drop_last())
    } else {
        is_subsequence_of(a, b.drop_last())
    }
}

/// Sanitization removes exactly the three removed characters and no
/// others: the output holds none of them, it is a subsequence of the
/// input, and every character that is not removed keeps its number of
/// occurrences.
pub proof fn lemma_sanitize_exact(s: Seq<char>)
    ensures
        forall|i: int| 0 <= i < sanitize_seq(s).len() ==> !is_removed_char(sanitize_seq(s)[i]),
        is_subsequence_of(sanitize_seq(s), s),
        forall|c: char|
            !is_removed_char(c) ==> sanitize_seq(s).to_multiset().count(c)
                == s.to_multiset().count(c),
        forall|c: char| is_removed_char(c) ==> sanitize_seq(s).to_multiset().count(c) == 0,
    decreases s.len(),
{
    broadcast use vstd::seq_lib::group_to_multiset_ensures;

    lemma_sanitize_no_removed(s);
    if s.len() == 0 {
        assert(sanitize_seq(s) =~= Seq::<char>::empty());
        assert(s.to_multiset() =~= Multiset::<char>::empty());
        assert(sanitize_seq(s).to_multiset() =~= Multiset::<char>::empty());
    } else {
        let butlast = s.drop_last();
        let c = s.last();
        lemma_sanitize_exact(butlast);
        assert(s =~= butlast.push(c));
        assert(s.to_multiset() == butlast.push(c).to_multiset());
        if is_removed_char(c) {
            assert(sanitize_seq(s) == sanitize_seq(butlast));
            lemma_subsequence_drop(sanitize_seq(butlast), butlast, c);
        } else {
            let d = sanitize_seq(butlast);
            assert(sanitize_seq(s) == d.push(c));
            assert(d.push(c).drop_last() =~= d);
            assert(s.drop_last() =~= butlast);
            assert(d.push(c).last() == c && s.last() == c);
            assert(is_subsequence_of(d, butlast));
        }
    }
}

/// Extending the containing text keeps a subsequence a subsequence.
proof fn lemma_subsequence_drop(a: Seq<char>, b: Seq<char>, c: char)
    requires
        is_subsequence_of(a, b),
    ensures
        is_subsequence_of(a, b.push(c)),
{
    assert(b.push(c).drop_last() =~= b);
    assert(b.push(c).last() == c);
    if a.len() > 0 && a.last() == c {
        lemma_subsequence_shrink(a.drop_last(), a, b);
    }
}

/// A prefix (by dropping the last element) of a subsequence is one too.
proof fn lemma_subsequence_shrink(a0: Seq<char>, a: Seq<char>, b: Seq<char>)
    requires
        a.len() > 0,
        a0 == a.drop_last(),
        is_subsequence_of(a, b),
    ensures
        is_subsequence_of(a0, b),
    decreases b.len(),
{
    if a0.len() == 0 {
    } else if b.len() == 0 {
    } else if a.last() == b.last() {
        // sub(a0, b.drop_last()) holds; settle each branch of sub(a0, b).
        if a0.last() == b.last() {
            lemma_subsequence_shrink(a0.drop_last(), a0, b.drop_last());
        }
    } else {
        lemma_subsequence_shrink(a0, a, b.drop_last());
        if a0.last() == b.last() {
            lemma_subsequence_shrink(a0.drop_last(), a0, b.drop_last());
        }
    }
}

/// Returns a copy of the field with every backslash, single-quote and NUL
/// character removed.
pub fn sanitize_string_field(field: &String) -> (r: String)
    ensures
        r@ == sanitize_seq(field@),
{
    let s: &str = field.as_str();
    let len: usize = s.unicode_len();
    let mut r: String = String::new();
    let mut i: usize = 0;
    while i < len
        invariant
            i <= len,
            len == s@.len(),
            s@ == field@,
            r@ == sanitize_seq(s@.subrange(0, i as int)),
        decreases len - i,
    {
        let c = s.get_char(i);
        proof {
            assert(s@.subrange(0, i + 1 as int) =~= s@.subrange(0, i as int).push(s@[i as int]));
            lemma_sanitize_push(s@.subrange(0, i as int), s@[i as int]);
        }
        if !(c == '\\' || c == '\'' || c == '\u{0}') {
            let piece = s.substring_char(i, i + 1);
            proof {
                assert(piece@ =~= seq![c]);
                assert(sanitize_seq(s@.subrange(0, i as int)).push(c) =~= r@ + piece@);
            }
            r.append(piece);
        }
        i = i + 1;
    }
    proof {
        assert(s@.subrange(0, len as int) =~= s@);
    }
    r
}

/// Sanitizes an optional field: an absent field stays absent, a present
/// field is sanitized.
pub fn sanitize_optional_string_field(field: &Option<String>) -> (r: Option<String>)
    ensures
        r is Some <==> field is Some,
        r is Some ==> r.unwrap()@ == sanitize_seq(field.unwrap()@),
{
    match field {
        None => None,
        Some(f) => Some(sanitize_string_field(f)),
    }
}

} // verus!
