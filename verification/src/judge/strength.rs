//! The strengths that the rules compare: with what a unit holds, attacks,
//! defends, and keeps others out.
use vstd::prelude::*;
use crate::geo::key::ProvinceKey;
use crate::judge::calc::{head_to_head_spec, is_head_to_head, path_exists, path_exists_spec};
use crate::judge::context::{ContextView, ResolverContext};
use crate::judge::step::{asks_unseen, first_hit, first_hit_upto, lemma_first_hit_settled, Seen,
    Step, verdict_of, verdict_step};
use crate::judge::support::{find_for, find_for_spec};
use crate::nation::Nation;

verus! {

/// The number, among the first `k` of the supports, of those that a nation
/// other than `nation` gave.
pub open spec fn count_foreign_upto(cx: ContextView, sup: Seq<usize>, nation: Seq<u8>, k: int)
    -> nat
    decreases k,
{
    if k <= 0 {
        0
    } else {
        count_foreign_upto(cx, sup, nation, k - 1) + if cx.orders[sup[k - 1] as int].nation
            != nation {
            1nat
        } else {
            0nat
        }
    }
}

/// The number of the supports that a nation other than `nation` gave.
pub open spec fn count_foreign(cx: ContextView, sup: Seq<usize>, nation: Seq<u8>) -> nat {
    count_foreign_upto(cx, sup, nation, sup.len() as int)
}

/// No more supports are foreign than there are supports.
pub proof fn lemma_count_foreign_bound(cx: ContextView, sup: Seq<usize>, nation: Seq<u8>, k: int)
    requires
        0 <= k,
    ensures
        count_foreign_upto(cx, sup, nation, k) <= k,
    decreases k,
{
    if k > 0 {
        lemma_count_foreign_bound(cx, sup, nation, k - 1);
    }
}

/// Whether the move at `k` lost a head-to-head battle: the unit in its
/// destination moved the other way along the border and succeeded.
pub open spec fn lost_head_to_head_spec(cx: ContextView, seen: Seen, k: int) -> Step<bool> {
    match cx.orders[k].move_dest() {
        None => Step::Done(false),
        Some(d) => match cx.occupier(d.province) {
            None => Step::Done(false),
            Some(h) => if h != k && head_to_head_spec(cx, k, h) {
                verdict_step(seen, h)
            } else {
                Step::Done(false)
            },
        },
    }
}

/// The strength with which the move at `k` keeps others out of its
/// destination: 0 without a path or after a lost head-to-head battle, else
/// one more than the supports that succeed.
pub open spec fn prevent_strength_spec(cx: ContextView, seen: Seen, k: int) -> Step<nat> {
    match path_exists_spec(cx, seen, k) {
        Step::Need(j) => Step::Need(j),
        Step::Done(false) => Step::Done(0),
        Step::Done(true) => match lost_head_to_head_spec(cx, seen, k) {
            Step::Need(j) => Step::Need(j),
            Step::Done(true) => Step::Done(0),
            Step::Done(false) => match find_for_spec(cx, seen, k) {
                Step::Need(j) => Step::Need(j),
                Step::Done(s) => Step::Done(1 + s.len()),
            },
        },
    }
}

/// Whether the order at `k` is another move into the destination of the
/// move at `i` that keeps out an attack of strength `atk`.
pub open spec fn prevent_step(cx: ContextView, seen: Seen, i: int, atk: nat, k: int) -> Step<
    bool,
> {
    if k != i && cx.orders[i].move_dest() is Some && cx.orders[k].is_move_to_province(
        cx.orders[i].move_dest()->0.province,
    ) {
        match prevent_strength_spec(cx, seen, k) {
            Step::Need(j) => Step::Need(j),
            Step::Done(p) => Step::Done(atk <= p),
        }
    } else {
        Step::Done(false)
    }
}

/// For each order, whether it keeps the move at `i` out.
pub open spec fn prevent_steps(cx: ContextView, seen: Seen, i: int, atk: nat) -> Seq<Step<bool>> {
    Seq::new(cx.orders.len(), |k: int| prevent_step(cx, seen, i, atk, k))
}

/// The strength with which the province is held: 0 where no unit stands
/// there and where the unit moves away with success; 1 for a unit whose
/// move fails; for a unit that does not move, one more than the supports
/// to hold that succeed.
pub open spec fn hold_strength_spec(cx: ContextView, seen: Seen, p: Seq<u8>) -> Step<nat> {
    match cx.occupier(p) {
        None => Step::Done(0),
        Some(h) => if cx.orders[h].is_move() {
            match verdict_step(seen, h) {
                Step::Need(j) => Step::Need(j),
                Step::Done(moved) => Step::Done(
                    if moved {
                        0nat
                    } else {
                        1nat
                    },
                ),
            }
        } else {
            match find_for_spec(cx, seen, h) {
                Step::Need(j) => Step::Need(j),
                Step::Done(s) => Step::Done(1 + s.len()),
            }
        },
    }
}

/// The strength with which the move at `h` stands against a unit that it
/// meets head to head: one more than its supports that succeed.
pub open spec fn defend_strength_spec(cx: ContextView, seen: Seen, h: int) -> Step<nat> {
    match find_for_spec(cx, seen, h) {
        Step::Need(j) => Step::Need(j),
        Step::Done(s) => Step::Done(1 + s.len()),
    }
}

/// Whether the move at `i` meets the unit of its destination head to head.
pub open spec fn meets_head_to_head(cx: ContextView, i: int) -> bool {
    match cx.orders[i].move_dest() {
        None => false,
        Some(d) => match cx.occupier(d.province) {
            None => false,
            Some(h) => h != i && head_to_head_spec(cx, i, h),
        },
    }
}

/// The strength with which the move at `i` attacks: 0 without a path. Into
/// an empty province, or one whose unit moves away with success and not
/// head to head, one more than the supports that succeed. Against a unit
/// that stays: 0 where it is of the mover's own nation, else one more than
/// the supports that succeed and that the unit's own nation did not give.
pub open spec fn attack_strength_spec(cx: ContextView, seen: Seen, i: int) -> Step<nat> {
    let o = cx.orders[i];
    match path_exists_spec(cx, seen, i) {
        Step::Need(j) => Step::Need(j),
        Step::Done(false) => Step::Done(0),
        Step::Done(true) => match find_for_spec(cx, seen, i) {
            Step::Need(j) => Step::Need(j),
            Step::Done(sup) => match cx.occupier(o.move_dest()->0.province) {
                None => Step::Done(1 + sup.len()),
                Some(h) => {
                    let occ = cx.orders[h];
                    let against = if occ.nation == o.nation {
                        0nat
                    } else {
                        1 + count_foreign(cx, sup, occ.nation)
                    };
                    if occ.is_move() && !head_to_head_spec(cx, i, h) {
                        match verdict_step(seen, h) {
                            Step::Need(j) => Step::Need(j),
                            Step::Done(true) => Step::Done(1 + sup.len()),
                            Step::Done(false) => Step::Done(against),
                        }
                    } else {
                        Step::Done(against)
                    }
                },
            },
        },
    }
}

/// What the destination sets against the move at `i`: head to head the
/// defend strength of the unit that comes the other way, else the hold
/// strength of the province.
pub open spec fn resistance_spec(cx: ContextView, seen: Seen, i: int) -> Step<nat> {
    let p = cx.orders[i].move_dest()->0.province;
    if meets_head_to_head(cx, i) {
        defend_strength_spec(cx, seen, cx.occupier(p)->0)
    } else {
        hold_strength_spec(cx, seen, p)
    }
}

/// The number of the supports that a nation other than `nation` gave.
pub fn foreign_supports(ctx: &ResolverContext<'_>, sup: &Vec<usize>, nation: &Nation) -> (r: usize)
    requires
        forall|k: int| 0 <= k < sup@.len() ==> (#[trigger] sup@[k]) < ctx@.orders.len(),
    ensures
        r == count_foreign(ctx@, sup@, nation@),
        r <= sup@.len(),
{
    let mut count: usize = 0;
    let mut k: usize = 0;
    while k < sup.len()
        invariant
            k <= sup.len(),
            count <= k,
            count == count_foreign_upto(ctx@, sup@, nation@, k as int),
            forall|w: int| 0 <= w < sup@.len() ==> (#[trigger] sup@[w]) < ctx@.orders.len(),
        decreases sup.len() - k,
    {
        if !ctx.order(sup[k]).nation.eq(nation) {
            count += 1;
        }
        k += 1;
    }
    count
}

/// Whether the move at `k` lost a head-to-head battle.
pub fn lost_head_to_head(ctx: &ResolverContext<'_>, seen: &Vec<Option<bool>>, k: usize) -> (r:
    Step<bool>)
    requires
        k < ctx@.orders.len(),
        seen@.len() == ctx@.orders.len(),
    ensures
        r == lost_head_to_head_spec(ctx@, seen@, k as int),
        asks_unseen(seen@, r),
{
    match ctx.order(k).move_dest() {
        None => Step::Done(false),
        Some(d) => match ctx.occupier(d.province()) {
            None => Step::Done(false),
            Some(h) => if h != k && is_head_to_head(ctx, k, h) {
                verdict_of(seen, h)
            } else {
                Step::Done(false)
            },
        },
    }
}

/// The strength with which the move at `k` keeps others out of its
/// destination.
pub fn prevent_strength(ctx: &ResolverContext<'_>, seen: &Vec<Option<bool>>, k: usize) -> (r: Step<
    usize,
>)
    requires
        ctx.wf(),
        k < ctx@.orders.len(),
        seen@.len() == ctx@.orders.len(),
    ensures
        r matches Step::Need(j) ==> prevent_strength_spec(ctx@, seen@, k as int) == Step::<
            nat,
        >::Need(j),
        r matches Step::Done(p) ==> prevent_strength_spec(ctx@, seen@, k as int) == Step::Done(
            p as nat,
        ),
        asks_unseen(seen@, r),
{
    match path_exists(ctx, seen, k) {
        Step::Need(j) => Step::Need(j),
        Step::Done(false) => Step::Done(0),
        Step::Done(true) => match lost_head_to_head(ctx, seen, k) {
            Step::Need(j) => Step::Need(j),
            Step::Done(true) => Step::Done(0),
            Step::Done(false) => match find_for(ctx, seen, k) {
                Step::Need(j) => Step::Need(j),
                Step::Done(s) => Step::Done(1 + s.len()),
            },
        },
    }
}

/// The first other move into the destination of the move at `i` that keeps
/// out an attack of strength `atk`.
pub fn first_preventer(
    ctx: &ResolverContext<'_>,
    seen: &Vec<Option<bool>>,
    i: usize,
    atk: usize,
) -> (r: Step<Option<usize>>)
    requires
        ctx.wf(),
        i < ctx@.orders.len(),
        ctx@.orders[i as int].move_dest() is Some,
        seen@.len() == ctx@.orders.len(),
    ensures
        r == first_hit(prevent_steps(ctx@, seen@, i as int, atk as nat)),
        asks_unseen(seen@, r),
        r matches Step::Done(Some(k)) ==> k < ctx@.orders.len(),
{
    let ghost steps = prevent_steps(ctx@, seen@, i as int, atk as nat);
    let n: usize = ctx.len();
    let dest = match ctx.order(i).move_dest() {
        Some(d) => d,
        None => {
            proof {
                assert(false);
            }
            return Step::Done(None);
        },
    };
    let mut k: usize = 0;
    while k < n
        invariant
            k <= n,
            n == ctx@.orders.len(),
            i < n,
            ctx.wf(),
            seen@.len() == n,
            ctx@.orders[i as int].move_dest() is Some,
            dest@ == ctx@.orders[i as int].move_dest()->0,
            steps == prevent_steps(ctx@, seen@, i as int, atk as nat),
            first_hit_upto(steps, k as int) == Step::<Option<usize>>::Done(None),
        decreases n - k,
    {
        let step = if k != i && ctx.order(k).is_move_to_province(dest.province()) {
            match prevent_strength(ctx, seen, k) {
                Step::Need(j) => Step::Need(j),
                Step::Done(p) => Step::Done(atk <= p),
            }
        } else {
            Step::Done(false)
        };
        match step {
            Step::Need(j) => {
                proof {
                    lemma_first_hit_settled(steps, k as int + 1, n as int);
                }
                return Step::Need(j);
            },
            Step::Done(b) => {
                if b {
                    proof {
                        lemma_first_hit_settled(steps, k as int + 1, n as int);
                    }
                    return Step::Done(Some(k));
                }
            },
        }
        k += 1;
    }
    Step::Done(None)
}

/// The strength with which the province is held.
pub fn hold_strength(ctx: &ResolverContext<'_>, seen: &Vec<Option<bool>>, province: &ProvinceKey)
    -> (r: Step<usize>)
    requires
        ctx.wf(),
        seen@.len() == ctx@.orders.len(),
    ensures
        r matches Step::Need(j) ==> hold_strength_spec(ctx@, seen@, province@) == Step::<
            nat,
        >::Need(j),
        r matches Step::Done(s) ==> hold_strength_spec(ctx@, seen@, province@) == Step::Done(
            s as nat,
        ),
        asks_unseen(seen@, r),
{
    match ctx.occupier(province) {
        None => Step::Done(0),
        Some(h) => if ctx.order(h).is_move() {
            match verdict_of(seen, h) {
                Step::Need(j) => Step::Need(j),
                Step::Done(moved) => Step::Done(
                    if moved {
                        0
                    } else {
                        1
                    },
                ),
            }
        } else {
            match find_for(ctx, seen, h) {
                Step::Need(j) => Step::Need(j),
                Step::Done(s) => Step::Done(1 + s.len()),
            }
        },
    }
}

/// The strength with which the move at `h` stands against a unit that it
/// meets head to head.
pub fn defend_strength(ctx: &ResolverContext<'_>, seen: &Vec<Option<bool>>, h: usize) -> (r: Step<
    usize,
>)
    requires
        ctx.wf(),
        h < ctx@.orders.len(),
        seen@.len() == ctx@.orders.len(),
    ensures
        r matches Step::Need(j) ==> defend_strength_spec(ctx@, seen@, h as int) == Step::<
            nat,
        >::Need(j),
        r matches Step::Done(s) ==> defend_strength_spec(ctx@, seen@, h as int) == Step::Done(
            s as nat,
        ),
        asks_unseen(seen@, r),
{
    match find_for(ctx, seen, h) {
        Step::Need(j) => Step::Need(j),
        Step::Done(s) => Step::Done(1 + s.len()),
    }
}

/// Whether the move at `i` meets the unit of its destination head to head.
pub fn in_head_to_head(ctx: &ResolverContext<'_>, i: usize) -> (r: bool)
    requires
        i < ctx@.orders.len(),
    ensures
        r == meets_head_to_head(ctx@, i as int),
{
    match ctx.order(i).move_dest() {
        None => false,
        Some(d) => match ctx.occupier(d.province()) {
            None => false,
            Some(h) => h != i && is_head_to_head(ctx, i, h),
        },
    }
}

/// The strength with which the move at `i` attacks.
pub fn attack_strength(ctx: &ResolverContext<'_>, seen: &Vec<Option<bool>>, i: usize) -> (r: Step<
    usize,
>)
    requires
        ctx.wf(),
        i < ctx@.orders.len(),
        ctx@.orders[i as int].move_dest() is Some,
        seen@.len() == ctx@.orders.len(),
    ensures
        r matches Step::Need(j) ==> attack_strength_spec(ctx@, seen@, i as int) == Step::<
            nat,
        >::Need(j),
        r matches Step::Done(a) ==> attack_strength_spec(ctx@, seen@, i as int) == Step::Done(
            a as nat,
        ),
        asks_unseen(seen@, r),
{
    let o = ctx.order(i);
    match path_exists(ctx, seen, i) {
        Step::Need(j) => {
            return Step::Need(j);
        },
        Step::Done(false) => {
            return Step::Done(0);
        },
        Step::Done(true) => {},
    }
    let sup = match find_for(ctx, seen, i) {
        Step::Need(j) => {
            return Step::Need(j);
        },
        Step::Done(sup) => sup,
    };
    let dest = match o.move_dest() {
        Some(d) => d,
        None => {
            proof {
                assert(false);
            }
            return Step::Done(0);
        },
    };
    match ctx.occupier(dest.province()) {
        None => Step::Done(1 + sup.len()),
        Some(h) => {
            let occ = ctx.order(h);
            let against: usize = if occ.nation.eq(&o.nation) {
                0
            } else {
                1 + foreign_supports(ctx, &sup, &occ.nation)
            };
            if occ.is_move() && !is_head_to_head(ctx, i, h) {
                match verdict_of(seen, h) {
                    Step::Need(j) => Step::Need(j),
                    Step::Done(true) => Step::Done(1 + sup.len()),
                    Step::Done(false) => Step::Done(against),
                }
            } else {
                Step::Done(against)
            }
        },
    }
}

/// What the destination sets against the move at `i`.
pub fn resistance(ctx: &ResolverContext<'_>, seen: &Vec<Option<bool>>, i: usize) -> (r: Step<
    usize,
>)
    requires
        ctx.wf(),
        i < ctx@.orders.len(),
        ctx@.orders[i as int].move_dest() is Some,
        seen@.len() == ctx@.orders.len(),
    ensures
        r matches Step::Need(j) ==> resistance_spec(ctx@, seen@, i as int) == Step::<nat>::Need(
            j,
        ),
        r matches Step::Done(s) ==> resistance_spec(ctx@, seen@, i as int) == Step::Done(
            s as nat,
        ),
        asks_unseen(seen@, r),
{
    let dest = match ctx.order(i).move_dest() {
        Some(d) => d,
        None => {
            proof {
                assert(false);
            }
            return Step::Done(0);
        },
    };
    if in_head_to_head(ctx, i) {
        match ctx.occupier(dest.province()) {
            Some(h) => defend_strength(ctx, seen, h),
            None => {
                proof {
                    assert(false);
                }
                Step::Done(0)
            },
        }
    } else {
        hold_strength(ctx, seen, dest.province())
    }
}

} // verus!
