//! A rule is asked with what is known of the other orders. It answers with
//! its result, or with the order whose verdict it needs first.
use vstd::prelude::*;

verus! {

/// The answer of a rule: its result, or the place of the order whose
/// verdict must be found before the rule can say more.
#[derive(Debug)]
pub enum Step<T> {
    /// The rule's result.
    Done(T),
    /// The rule needs the verdict of the order at this place.
    Need(usize),
}

/// What is known of the orders' verdicts: `None` for an order whose verdict
/// the rule has not been told.
pub type Seen = Seq<Option<bool>>;

/// A rule asks only for the verdict of an order that it has not been told.
pub open spec fn asks_unseen<T>(seen: Seen, step: Step<T>) -> bool {
    step matches Step::Need(j) ==> j < seen.len() && seen[j as int] is None
}

/// The verdict of the order at `k`, if it is known.
pub open spec fn verdict_step(seen: Seen, k: int) -> Step<bool> {
    match seen[k] {
        Some(v) => Step::Done(v),
        None => Step::Need(k as usize),
    }
}

/// The verdict of the order at `k`, if it is known.
pub fn verdict_of(seen: &Vec<Option<bool>>, k: usize) -> (r: Step<bool>)
    requires
        k < seen@.len(),
    ensures
        r == verdict_step(seen@, k as int),
        asks_unseen(seen@, r),
{
    match seen[k] {
        Some(v) => Step::Done(v),
        None => Step::Need(k),
    }
}

/// The places, among the first `k`, whose answer is `true`; the first
/// need, where an answer among them is a need.
pub open spec fn all_hits_upto(steps: Seq<Step<bool>>, k: int) -> Step<Seq<usize>>
    decreases k,
{
    if k <= 0 {
        Step::Done(Seq::empty())
    } else {
        match all_hits_upto(steps, k - 1) {
            Step::Need(j) => Step::Need(j),
            Step::Done(h) => match steps[k - 1] {
                Step::Need(j) => Step::Need(j),
                Step::Done(b) => Step::Done(
                    if b {
                        h.push((k - 1) as usize)
                    } else {
                        h
                    },
                ),
            },
        }
    }
}

/// The places whose answer is `true`, in increasing order; the first need,
/// where an answer is a need.
pub open spec fn all_hits(steps: Seq<Step<bool>>) -> Step<Seq<usize>> {
    all_hits_upto(steps, steps.len() as int)
}

/// A need among the first `k` answers is the need of every longer run.
pub proof fn lemma_all_hits_need(steps: Seq<Step<bool>>, k: int, m: int)
    requires
        0 <= k <= m,
        all_hits_upto(steps, k) is Need,
    ensures
        all_hits_upto(steps, m) == all_hits_upto(steps, k),
    decreases m - k,
{
    if k < m {
        lemma_all_hits_need(steps, k, m - 1);
    }
}

/// What `all_hits_upto` holds where no answer is a need: the places below
/// `k` with the answer `true`, all of them, in increasing order. Where it
/// is a need, one of the answers is that need.
pub proof fn all_hits_characterized(steps: Seq<Step<bool>>, k: int)
    requires
        0 <= k <= steps.len(),
        k <= usize::MAX,
    ensures
        all_hits_upto(steps, k) matches Step::Done(h) ==> {
            &&& h.len() <= k
            &&& forall|w: int| 0 <= w < h.len() ==> (#[trigger] h[w]) < k && steps[h[w] as int]
                == Step::Done(true)
            &&& forall|j: int| 0 <= j < k ==> #[trigger] steps[j] is Done
            &&& forall|j: int|
                0 <= j < k && #[trigger] steps[j] == Step::Done(true) ==> h.contains(j as usize)
            &&& forall|a: int, b: int| 0 <= a < b < h.len() ==> h[a] < h[b]
        },
        all_hits_upto(steps, k) matches Step::Need(j) ==> exists|w: int|
            0 <= w < k && #[trigger] steps[w] == Step::<bool>::Need(j),
    decreases k,
{
    if k > 0 {
        all_hits_characterized(steps, k - 1);
        match all_hits_upto(steps, k - 1) {
            Step::Need(j) => {},
            Step::Done(prev) => {
                match steps[k - 1] {
                    Step::Need(j) => {},
                    Step::Done(b) => {
                        let h = all_hits_upto(steps, k)->Done_0;
                        if b {
                            assert(h[prev.len() as int] == (k - 1) as usize);
                            assert forall|j: int|
                                0 <= j < k && #[trigger] steps[j] == Step::Done(
                                    true,
                                ) implies h.contains(j as usize) by {
                                if j < k - 1 {
                                    let w = choose|w: int|
                                        0 <= w < prev.len() && prev[w] == j as usize;
                                    assert(h[w] == j as usize);
                                }
                            }
                        }
                    },
                }
            },
        }
    }
}

/// The first place, among the first `k`, whose answer is `true`; the first
/// need, where an answer before that place is a need.
pub open spec fn first_hit_upto(steps: Seq<Step<bool>>, k: int) -> Step<Option<usize>>
    decreases k,
{
    if k <= 0 {
        Step::Done(None)
    } else {
        match first_hit_upto(steps, k - 1) {
            Step::Need(j) => Step::Need(j),
            Step::Done(Some(x)) => Step::Done(Some(x)),
            Step::Done(None) => match steps[k - 1] {
                Step::Need(j) => Step::Need(j),
                Step::Done(b) => Step::Done(
                    if b {
                        Some((k - 1) as usize)
                    } else {
                        None
                    },
                ),
            },
        }
    }
}

/// The first place whose answer is `true`; the first need, where an
/// answer before that place is a need.
pub open spec fn first_hit(steps: Seq<Step<bool>>) -> Step<Option<usize>> {
    first_hit_upto(steps, steps.len() as int)
}

/// A need or a hit among the first `k` answers is that of every longer run.
pub proof fn lemma_first_hit_settled(steps: Seq<Step<bool>>, k: int, m: int)
    requires
        0 <= k <= m,
        first_hit_upto(steps, k) != Step::<Option<usize>>::Done(None),
    ensures
        first_hit_upto(steps, m) == first_hit_upto(steps, k),
    decreases m - k,
{
    if k < m {
        lemma_first_hit_settled(steps, k, m - 1);
    }
}

/// What `first_hit_upto` gives: a hit is a place with the answer `true`
/// before which every answer is `false`; without a hit or a need every
/// answer is `false`.
pub proof fn lemma_first_hit_upto(steps: Seq<Step<bool>>, k: int)
    requires
        0 <= k <= steps.len(),
        k <= usize::MAX,
    ensures
        first_hit_upto(steps, k) matches Step::Done(Some(x)) ==> x < k && steps[x as int]
            == Step::Done(true) && forall|j: int|
            0 <= j < x ==> #[trigger] steps[j] == Step::Done(false),
        first_hit_upto(steps, k) == Step::<Option<usize>>::Done(None) ==> forall|j: int|
            0 <= j < k ==> #[trigger] steps[j] == Step::Done(false),
        first_hit_upto(steps, k) matches Step::Need(j) ==> exists|w: int|
            0 <= w < k && #[trigger] steps[w] == Step::<bool>::Need(j),
    decreases k,
{
    if k > 0 {
        lemma_first_hit_upto(steps, k - 1);
    }
}

} // verus!
