//! Stable sorting of a bucket's transactions by timestamp.
//!
//! The detector scans each bucket in timestamp order; ties keep their
//! original insertion order, so the scan is a function of the stored
//! sequence alone.

use vstd::prelude::*;
use crate::transaction::Transaction;

verus! {

/// `s` is ordered by nondecreasing timestamp.
pub open spec fn sorted_by_ts(s: Seq<Transaction>) -> bool {
    forall|i: int, j: int| 0 <= i < j < s.len() ==> s[i].timestamp <= s[j].timestamp
}

/// Insert `x` into the sorted sequence `s`, after every element whose
/// timestamp is less than or equal to `x`'s (so equal timestamps keep
/// arrival order).
pub open spec fn insert_by_ts(s: Seq<Transaction>, x: Transaction) -> Seq<Transaction>
    decreases s.len(),
{
    if s.len() == 0 {
        seq![x]
    } else if s.last().timestamp <= x.timestamp {
        s.push(x)
    } else {
        insert_by_ts(s.drop_last(), x).push(s.last())
    }
}

/// The stable sort of `s` by timestamp: insert each element, left to right,
/// into the sorted image of what came before it.
pub open spec fn stable_sort_by_ts(s: Seq<Transaction>) -> Seq<Transaction>
    decreases s.len(),
{
    if s.len() == 0 {
        Seq::empty()
    } else {
        insert_by_ts(stable_sort_by_ts(s.drop_last()), s.last())
    }
}

pub proof fn lemma_insert_by_ts_len(s: Seq<Transaction>, x: Transaction)
    ensures
        insert_by_ts(s, x).len() == s.len() + 1,
    decreases s.len(),
{
    if s.len() > 0 && s.last().timestamp > x.timestamp {
        lemma_insert_by_ts_len(s.drop_last(), x);
    }
}

/// Sorting does not change the number of transactions.
pub proof fn lemma_stable_sort_len(s: Seq<Transaction>)
    ensures
        stable_sort_by_ts(s).len() == s.len(),
    decreases s.len(),
{
    if s.len() > 0 {
        lemma_stable_sort_len(s.drop_last());
        lemma_insert_by_ts_len(stable_sort_by_ts(s.drop_last()), s.last());
    }
}

pub proof fn lemma_insert_by_ts_sorted(s: Seq<Transaction>, x: Transaction)
    requires
        sorted_by_ts(s),
    ensures
        sorted_by_ts(insert_by_ts(s, x)),
    decreases s.len(),
{
    if s.len() == 0 {
    } else if s.last().timestamp <= x.timestamp {
        assert(sorted_by_ts(s.push(x)));
    } else {
        assert(sorted_by_ts(s.drop_last()));
        lemma_insert_by_ts_sorted(s.drop_last(), x);
        lemma_insert_by_ts_len(s.drop_last(), x);
        let r = insert_by_ts(s.drop_last(), x).push(s.last());
        let inner = insert_by_ts(s.drop_last(), x);
        assert forall|i: int, j: int| 0 <= i < j < r.len() implies r[i].timestamp
            <= r[j].timestamp by {
            if j < r.len() - 1 {
            } else {
                // r[j] is s.last(); every element of inner is either from
                // s.drop_last() or is x, both <= s.last().timestamp.
                lemma_insert_by_ts_membership(s.drop_last(), x, i);
            }
        }
    }
}

/// Every element of `insert_by_ts(s, x)` is an element of `s` or is `x`.
pub proof fn lemma_insert_by_ts_membership(s: Seq<Transaction>, x: Transaction, i: int)
    requires
        0 <= i < insert_by_ts(s, x).len(),
    ensures
        insert_by_ts(s, x)[i] == x || s.contains(insert_by_ts(s, x)[i]),
    decreases s.len(),
{
    if s.len() == 0 {
    } else if s.last().timestamp <= x.timestamp {
        if i < s.len() {
            assert(s.contains(s[i]));
        }
    } else {
        lemma_insert_by_ts_len(s.drop_last(), x);
        if i < insert_by_ts(s, x).len() - 1 {
            lemma_insert_by_ts_membership(s.drop_last(), x, i);
            if s.drop_last().contains(insert_by_ts(s.drop_last(), x)[i]) {
                let k = choose|k: int|
                    0 <= k < s.drop_last().len() && s.drop_last()[k] == insert_by_ts(
                        s.drop_last(),
                        x,
                    )[i];
                assert(s[k] == insert_by_ts(s, x)[i]);
            }
        } else {
            assert(s.contains(s.last()));
        }
    }
}

/// The stable sort is sorted.
pub proof fn lemma_stable_sort_sorted(s: Seq<Transaction>)
    ensures
        sorted_by_ts(stable_sort_by_ts(s)),
    decreases s.len(),
{
    if s.len() > 0 {
        lemma_stable_sort_sorted(s.drop_last());
        lemma_insert_by_ts_sorted(stable_sort_by_ts(s.drop_last()), s.last());
    }
}

/// Inserting `x` at the position `i` found by scanning a sorted `s` from the
/// right yields exactly the stable insertion.
pub proof fn lemma_insert_at_position(s: Seq<Transaction>, x: Transaction, i: int)
    requires
        sorted_by_ts(s),
        0 <= i <= s.len(),
        i > 0 ==> s[i - 1].timestamp <= x.timestamp,
        forall|k: int| i <= k < s.len() ==> s[k].timestamp > x.timestamp,
    ensures
        insert_by_ts(s, x) == s.insert(i, x),
    decreases s.len(),
{
    if s.len() == 0 {
        assert(insert_by_ts(s, x) =~= s.insert(0, x));
    } else if s.last().timestamp <= x.timestamp {
        assert(i == s.len());
        assert(s.push(x) =~= s.insert(s.len() as int, x));
    } else {
        assert(i < s.len());
        assert(sorted_by_ts(s.drop_last()));
        lemma_insert_at_position(s.drop_last(), x, i);
        assert(insert_by_ts(s.drop_last(), x).push(s.last()) =~= s.insert(i, x)) by {
            lemma_insert_by_ts_len(s.drop_last(), x);
        }
    }
}

/// Copy `txs` into a new vector sorted by timestamp ascending, stably: ties
/// keep their original relative order.
pub fn sort_by_timestamp(txs: &Vec<Transaction>) -> (r: Vec<Transaction>)
    ensures
        r@ == stable_sort_by_ts(txs@),
{
    let mut out: Vec<Transaction> = Vec::new();
    let mut j: usize = 0;
    while j < txs.len()
        invariant
            0 <= j <= txs@.len(),
            out@ == stable_sort_by_ts(txs@.take(j as int)),
        decreases txs@.len() - j,
    {
        let x = txs[j].clone();
        proof {
            lemma_stable_sort_sorted(txs@.take(j as int));
        }
        let mut i: usize = out.len();
        while i > 0 && out[i - 1].timestamp > x.timestamp
            invariant
                0 <= i <= out@.len(),
                forall|k: int| i <= k < out@.len() ==> out@[k].timestamp > x.timestamp,
            decreases i,
        {
            i = i - 1;
        }
        proof {
            lemma_insert_at_position(out@, x, i as int);
            assert(txs@.take(j + 1).drop_last() =~= txs@.take(j as int));
            assert(txs@.take(j + 1).last() == txs@[j as int]);
        }
        out.insert(i, x);
        j = j + 1;
    }
    proof {
        assert(txs@.take(txs@.len() as int) =~= txs@);
    }
    out
}

} // verus!
