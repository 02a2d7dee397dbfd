//! Searching and counting in sequences of flags.
use vstd::prelude::*;

verus! {

/// The first position at or after `from` whose flag is set.
pub open spec fn first_true(mask: Seq<bool>, from: int) -> Option<int>
    decreases mask.len() - from,
{
    if from < 0 || from >= mask.len() {
        None
    } else if mask[from] {
        Some(from)
    } else {
        first_true(mask, from + 1)
    }
}

/// `first_true` returns the least set position, or `None` when no flag is set.
pub proof fn lemma_first_true(mask: Seq<bool>, from: int)
    requires
        0 <= from,
    ensures
        match first_true(mask, from) {
            Some(i) => from <= i < mask.len() && mask[i] && forall|j: int|
                from <= j < i ==> !mask[j],
            None => forall|j: int| from <= j < mask.len() ==> !mask[j],
        },
    decreases mask.len() - from,
{
    if from < mask.len() && !mask[from] {
        lemma_first_true(mask, from + 1);
    }
}

/// A set position with no set position before it is what `first_true` finds.
pub proof fn lemma_first_true_is(mask: Seq<bool>, from: int, i: int)
    requires
        0 <= from <= i < mask.len(),
        mask[i],
        forall|j: int| from <= j < i ==> !mask[j],
    ensures
        first_true(mask, from) == Some(i),
    decreases i - from,
{
    if from < i {
        lemma_first_true_is(mask, from + 1, i);
    }
}

/// With no flag set from `from` on, `first_true` finds nothing.
pub proof fn lemma_first_true_none(mask: Seq<bool>, from: int)
    requires
        0 <= from,
        forall|j: int| from <= j < mask.len() ==> !mask[j],
    ensures
        first_true(mask, from) is None,
    decreases mask.len() - from,
{
    if from < mask.len() {
        lemma_first_true_none(mask, from + 1);
    }
}

/// The set positions among the first `k`, in increasing order.
pub open spec fn trues_upto(mask: Seq<bool>, k: int) -> Seq<int>
    decreases k,
{
    if k <= 0 {
        Seq::empty()
    } else if mask[k - 1] {
        trues_upto(mask, k - 1).push(k - 1)
    } else {
        trues_upto(mask, k - 1)
    }
}

/// All set positions, in increasing order.
pub open spec fn trues(mask: Seq<bool>) -> Seq<int> {
    trues_upto(mask, mask.len() as int)
}

/// What `trues_upto` holds: exactly the set positions below `k`, each below `k`.
pub proof fn lemma_trues_upto(mask: Seq<bool>, k: int)
    requires
        0 <= k <= mask.len(),
    ensures
        trues_upto(mask, k).len() <= k,
        forall|i: int|
            0 <= i < trues_upto(mask, k).len() ==> 0 <= #[trigger] trues_upto(mask, k)[i] < k
                && mask[trues_upto(mask, k)[i]],
        forall|j: int| 0 <= j < k && mask[j] ==> trues_upto(mask, k).contains(j),
    decreases k,
{
    if k > 0 {
        lemma_trues_upto(mask, k - 1);
        let prev = trues_upto(mask, k - 1);
        let cur = trues_upto(mask, k);
        if mask[k - 1] {
            assert(cur[prev.len() as int] == k - 1);
            assert forall|j: int| 0 <= j < k && mask[j] implies cur.contains(j) by {
                if j < k - 1 {
                    let w = choose|w: int| 0 <= w < prev.len() && prev[w] == j;
                    assert(cur[w] == j);
                }
            }
        }
    }
}

/// The set positions that `trues_upto` lists stand in increasing order.
pub proof fn lemma_trues_increasing(mask: Seq<bool>, k: int)
    requires
        0 <= k <= mask.len(),
    ensures
        forall|a: int, b: int|
            0 <= a < b < trues_upto(mask, k).len() ==> trues_upto(mask, k)[a] < trues_upto(
                mask,
                k,
            )[b],
    decreases k,
{
    if k > 0 {
        lemma_trues_increasing(mask, k - 1);
        lemma_trues_upto(mask, k - 1);
    }
}

/// The number of set flags.
pub open spec fn count_true(mask: Seq<bool>) -> nat
    decreases mask.len(),
{
    if mask.len() == 0 {
        0
    } else {
        count_true(mask.drop_last()) + if mask.last() {
            1nat
        } else {
            0nat
        }
    }
}

/// Clearing flags never raises the count; clearing a set flag lowers it.
pub proof fn lemma_count_true_mono(a: Seq<bool>, b: Seq<bool>)
    requires
        a.len() == b.len(),
        forall|i: int| 0 <= i < a.len() ==> (b[i] ==> a[i]),
    ensures
        count_true(b) <= count_true(a),
        (exists|i: int| 0 <= i < a.len() && a[i] && !b[i]) ==> count_true(b) < count_true(a),
    decreases a.len(),
{
    if a.len() > 0 {
        lemma_count_true_mono(a.drop_last(), b.drop_last());
        if exists|i: int| 0 <= i < a.len() && a[i] && !b[i] {
            let i = choose|i: int| 0 <= i < a.len() && a[i] && !b[i];
            if i < a.len() - 1 {
                assert(a.drop_last()[i] && !b.drop_last()[i]);
            }
        }
    }
}

} // verus!
