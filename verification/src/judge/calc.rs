//! What a move needs before strengths are compared: a path, and what
//! stands in its way.
use vstd::prelude::*;
use crate::judge::context::{ContextView, ResolverContext};
use crate::judge::convoy::{route_exists, route_exists_spec};
use crate::judge::step::{asks_unseen, first_hit, first_hit_upto, lemma_first_hit_settled, Seen,
    Step, verdict_of, verdict_step};
use crate::order::{CommandView, MainCommand};

verus! {

/// Whether the order at `i` is a move along a border that its unit can
/// cross.
pub open spec fn direct_path_spec(cx: ContextView, i: int) -> bool {
    match cx.orders[i].command {
        CommandView::Move(dst) => match cx.map.border_between(cx.orders[i].region, dst) {
            Some(b) => cx.orders[i].unit_type.can_occupy_spec(cx.map.borders[b].terrain),
            None => false,
        },
        _ => false,
    }
}

/// Whether the order at `i` is a move with a path to its destination:
/// along a border that its unit can cross or, for an army, over a chain of
/// convoys that succeed.
pub open spec fn path_exists_spec(cx: ContextView, seen: Seen, i: int) -> Step<bool> {
    if !cx.orders[i].is_move() {
        Step::Done(false)
    } else if direct_path_spec(cx, i) {
        Step::Done(true)
    } else {
        route_exists_spec(cx, seen, i)
    }
}

/// Whether the orders at `i` and `h` are moves into each other's province,
/// each along a border: the two units meet head to head.
pub open spec fn head_to_head_spec(cx: ContextView, i: int, h: int) -> bool {
    &&& cx.orders[i].is_move_to_province(cx.orders[h].region.province)
    &&& cx.orders[h].is_move_to_province(cx.orders[i].region.province)
    &&& direct_path_spec(cx, i)
    &&& direct_path_spec(cx, h)
}

/// Whether the order at `k` is another unit's move into the province of the
/// unit at `i` that succeeds.
pub open spec fn dislodge_step(cx: ContextView, seen: Seen, i: int, k: int) -> Step<bool> {
    if k != i && cx.orders[k].is_move_to_province(cx.orders[i].region.province) {
        verdict_step(seen, k)
    } else {
        Step::Done(false)
    }
}

/// For each order, whether it is a move into the province of the unit at
/// `i` that succeeds.
pub open spec fn dislodge_steps(cx: ContextView, seen: Seen, i: int) -> Seq<Step<bool>> {
    Seq::new(cx.orders.len(), |k: int| dislodge_step(cx, seen, i, k))
}

/// The first move into the province of the unit at `i` that succeeds.
pub open spec fn dislodger_of_spec(cx: ContextView, seen: Seen, i: int) -> Step<Option<usize>> {
    first_hit(dislodge_steps(cx, seen, i))
}

/// Whether the order at `i` is a move along a border that its unit can
/// cross.
pub fn direct_path(ctx: &ResolverContext<'_>, i: usize) -> (r: bool)
    requires
        i < ctx@.orders.len(),
    ensures
        r == direct_path_spec(ctx@, i as int),
{
    let order = ctx.order(i);
    match &order.command {
        MainCommand::Move(dst) => match ctx.world_map().find_border_between(&order.region, dst) {
            Some(b) => b.is_passable_by(order.unit_type),
            None => false,
        },
        _ => false,
    }
}

/// Whether the order at `i` is a move with a path to its destination.
pub fn path_exists(ctx: &ResolverContext<'_>, seen: &Vec<Option<bool>>, i: usize) -> (r: Step<
    bool,
>)
    requires
        i < ctx@.orders.len(),
        seen@.len() == ctx@.orders.len(),
    ensures
        r == path_exists_spec(ctx@, seen@, i as int),
        asks_unseen(seen@, r),
{
    if !ctx.order(i).is_move() {
        Step::Done(false)
    } else if direct_path(ctx, i) {
        Step::Done(true)
    } else {
        route_exists(ctx, seen, i)
    }
}

/// Whether the orders at `i` and `h` are moves into each other's province,
/// each along a border.
pub fn is_head_to_head(ctx: &ResolverContext<'_>, i: usize, h: usize) -> (r: bool)
    requires
        i < ctx@.orders.len(),
        h < ctx@.orders.len(),
    ensures
        r == head_to_head_spec(ctx@, i as int, h as int),
{
    ctx.order(i).is_move_to_province(ctx.order(h).region.province()) && ctx.order(
        h,
    ).is_move_to_province(ctx.order(i).region.province()) && direct_path(ctx, i) && direct_path(
        ctx,
        h,
    )
}

/// The first move into the province of the unit at `i` that succeeds.
pub fn dislodger_of(ctx: &ResolverContext<'_>, seen: &Vec<Option<bool>>, i: usize) -> (r: Step<
    Option<usize>,
>)
    requires
        i < ctx@.orders.len(),
        seen@.len() == ctx@.orders.len(),
    ensures
        r == dislodger_of_spec(ctx@, seen@, i as int),
        asks_unseen(seen@, r),
        r matches Step::Done(Some(d)) ==> d < ctx@.orders.len(),
{
    let ghost steps = dislodge_steps(ctx@, seen@, i as int);
    let n: usize = ctx.len();
    let province = ctx.order(i).region.province();
    let mut k: usize = 0;
    while k < n
        invariant
            k <= n,
            n == ctx@.orders.len(),
            i < n,
            seen@.len() == n,
            province@ == ctx@.orders[i as int].region.province,
            steps == dislodge_steps(ctx@, seen@, i as int),
            first_hit_upto(steps, k as int) == Step::<Option<usize>>::Done(None),
        decreases n - k,
    {
        let step = if k != i && ctx.order(k).is_move_to_province(province) {
            verdict_of(seen, k)
        } else {
            Step::Done(false)
        };
        match step {
            Step::Need(j) => {
                proof {
                    lemma_first_hit_settled(steps, k as int + 1, n as int);
                }
                return Step::Need(j);
            },
            Step::Done(b) => {
                if b {
                    proof {
                        lemma_first_hit_settled(steps, k as int + 1, n as int);
                    }
                    return Step::Done(Some(k));
                }
            },
        }
        k += 1;
    }
    Step::Done(None)
}

} // verus!
