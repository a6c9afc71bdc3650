//! Size-bounded batching: the destination accepts bulk multi-row
//! inserts, but each statement is capped at a maximum row count, so a
//! value list is split into ordered batches no larger than that cap.

use vstd::prelude::*;

verus! {

/// Largest number of rows placed into one bulk insert statement.
pub const MAX_INSERTS_PER_QUERY: usize = 512;

/// The views of a list of batches.
pub open spec fn batches_view<T>(bs: Seq<Vec<T>>) -> Seq<Seq<T>> {
    bs.map_values(|b: Vec<T>| b@)
}

/// How many batches a value list of length `n` fills at `limit` values
/// per batch: zero for an empty list, otherwise one batch per full
/// `limit` values plus one for a partial remainder.
pub open spec fn spec_batch_count(n: int, limit: int) -> int
    decreases n,
{
    if limit <= 0 {
        0
    } else if n <= 0 {
        0
    } else if n <= limit {
        1
    } else {
        1 + spec_batch_count(n - limit, limit)
    }
}

/// Partitions the values into ordered batches of at most `limit` values
/// each. Concatenating the batches in order reproduces the input exactly
/// — nothing is lost and nothing is duplicated across batches. Every
/// batch is non-empty, every batch but the last is full, and the number
/// of batches is exactly `spec_batch_count`.
pub fn chunk_values<T>(values: Vec<T>, limit: usize) -> (r: Vec<Vec<T>>)
    requires
        limit > 0,
    ensures
        batches_view(r@).flatten() == values@,
        forall|i: int| 0 <= i < r@.len() ==> 1 <= (#[trigger] r@[i])@.len() <= limit,
        forall|i: int| 0 <= i < r@.len() - 1 ==> (#[trigger] r@[i])@.len() == limit,
        r@.len() == spec_batch_count(values@.len() as int, limit as int),
{
    let ghost all = values@;
    let mut rest = values;
    let mut out: Vec<Vec<T>> = Vec::new();
    proof {
        assert(batches_view(out@) =~= Seq::<Seq<T>>::empty());
        assert(batches_view(out@).flatten() + rest@ =~= all);
    }
    while rest.len() > 0
        invariant
            limit > 0,
            batches_view(out@).flatten() + rest@ == all,
            forall|i: int| 0 <= i < out@.len() ==> 1 <= (#[trigger] out@[i])@.len() <= limit,
            rest@.len() > 0 ==> forall|i: int|
                0 <= i < out@.len() ==> (#[trigger] out@[i])@.len() == limit,
            forall|i: int| 0 <= i < out@.len() - 1 ==> (#[trigger] out@[i])@.len() == limit,
            out@.len() + spec_batch_count(rest@.len() as int, limit as int) == spec_batch_count(
                all.len() as int,
                limit as int,
            ),
        decreases rest@.len(),
    {
        let ghost pre_out = out@;
        let ghost pre_rest = rest@;
        let take = if rest.len() > limit {
            limit
        } else {
            rest.len()
        };
        let tail = rest.split_off(take);
        proof {
            assert(rest@ + tail@ =~= pre_rest);
        }
        out.push(rest);
        rest = tail;
        proof {
            let bv = batches_view(pre_out);
            let b = out@[out@.len() - 1]@;
            assert(batches_view(out@) =~= bv.push(b));
            bv.lemma_flatten_push(b);
            assert(batches_view(out@).flatten() == bv.flatten() + b);
            assert((bv.flatten() + b) + rest@ =~= bv.flatten() + (b + rest@));
            assert(b + rest@ == pre_rest);
            assert(batches_view(out@).flatten() + rest@ == all);
        }
    }
    proof {
        assert(batches_view(out@).flatten() + rest@ =~= batches_view(out@).flatten());
    }
    out
}

} // verus!
