//! Contains helper functions for evaluating the success of support commands
//! during the main phase of a turn.
use vstd::prelude::*;
use crate::geo::key::ProvinceKey;
use crate::geo::map::{WorldMap, WorldMapView};
use crate::judge::calc::{dislodger_of, dislodger_of_spec, path_exists, path_exists_spec};
use crate::judge::context::{ContextView, ResolverContext};
use crate::judge::step::{all_hits, all_hits_upto, asks_unseen, first_hit, first_hit_upto,
    lemma_all_hits_need, lemma_first_hit_settled, Seen, Step, verdict_of, verdict_step};
use crate::order::{CommandView, MainCommand, Order, OrderView, SupportedOrder, SupportedView};
use crate::seqs::{lemma_trues_upto, trues};

verus! {

/// Whether the order at `c` cuts the support at `k`: it must be a move of
/// another nation into the supporter's province, not from the province that
/// the supported move attacks, and it must have a path.
pub open spec fn cut_step(cx: ContextView, seen: Seen, k: int, c: int) -> Step<bool> {
    match cx.orders[c].command {
        CommandView::Move(dst) => {
            let supporting_attack_on_cutter = match cx.orders[k].command {
                CommandView::Support(SupportedView::Move(_, _, supported_dst)) => {
                    cx.orders[c].region.province == supported_dst.province
                },
                _ => false,
            };
            if dst.province == cx.orders[k].region.province && !supporting_attack_on_cutter
                && cx.orders[k].nation != cx.orders[c].nation {
                path_exists_spec(cx, seen, c)
            } else {
                Step::Done(false)
            }
        },
        _ => Step::Done(false),
    }
}

/// For each order, whether it cuts the support at `k`.
pub open spec fn cut_steps(cx: ContextView, seen: Seen, k: int) -> Seq<Step<bool>> {
    Seq::new(cx.orders.len(), |c: int| cut_step(cx, seen, k, c))
}

/// The first order that cuts the support at `k`.
pub open spec fn find_cutting_order_spec(cx: ContextView, seen: Seen, k: int) -> Step<
    Option<usize>,
> {
    first_hit(cut_steps(cx, seen, k))
}

/// Whether the support at `k` is cut: some order cuts it, or the
/// supporting unit is dislodged. A dislodged unit's support is always cut,
/// also where the move that dislodges it comes from the province that the
/// supported move attacks.
pub open spec fn is_order_cut_spec(cx: ContextView, seen: Seen, k: int) -> Step<bool> {
    match find_cutting_order_spec(cx, seen, k) {
        Step::Need(j) => Step::Need(j),
        Step::Done(Some(_)) => Step::Done(true),
        Step::Done(None) => match dislodger_of_spec(cx, seen, k) {
            Step::Need(j) => Step::Need(j),
            Step::Done(d) => Step::Done(d is Some),
        },
    }
}

/// Whether the order is a support of a hold in the supporter's own
/// province.
pub open spec fn is_supporting_self_spec(order: OrderView) -> bool {
    order.command matches CommandView::Support(SupportedView::Hold(_, loc)) && loc.province
        == order.region.province
}

/// The province which support needs to reach to benefit `supported`: for a
/// move the destination, for every other order the province of the unit.
pub open spec fn needed_at_spec(supported: OrderView) -> Seq<u8> {
    match supported.command {
        CommandView::Move(dest) => dest.province,
        _ => supported.region.province,
    }
}

/// Whether a border that the supporting unit can cross joins its region to
/// the province where the support is needed.
pub open spec fn can_reach_spec(map: WorldMapView, supported: OrderView, support: OrderView)
    -> bool {
    exists|t: int|
        0 <= t < map.borders.len() && (#[trigger] map.borders[t]).reaches(
            support.region,
            needed_at_spec(supported),
        ) && support.unit_type.can_occupy_spec(map.borders[t].terrain)
}

/// Whether the order is a support whose target lies outside the
/// supporter's own province.
pub open spec fn is_legal_spec(order: OrderView) -> bool {
    match order.command {
        CommandView::Support(SupportedView::Hold(_, tgt)) => tgt.province
            != order.region.province,
        CommandView::Support(SupportedView::Move(_, _, dst)) => dst.province
            != order.region.province,
        _ => false,
    }
}

/// Whether the order at `k` supports the order at `s` and succeeds: it
/// must be a legal support of a legal order, it must back the very order
/// at `s`, its unit must be able to reach, and its own verdict must be
/// success.
pub open spec fn support_step(cx: ContextView, seen: Seen, s: int, k: int) -> Step<bool> {
    match cx.orders[k].command {
        CommandView::Support(beneficiary) => {
            if is_legal_spec(cx.orders[k]) && beneficiary.is_legal() && beneficiary.backs(
                cx.orders[s],
            ) && can_reach_spec(cx.map, cx.orders[s], cx.orders[k]) {
                verdict_step(seen, k)
            } else {
                Step::Done(false)
            }
        },
        _ => Step::Done(false),
    }
}

/// For each order, whether it supports the order at `s` and succeeds.
pub open spec fn support_steps(cx: ContextView, seen: Seen, s: int) -> Seq<Step<bool>> {
    Seq::new(cx.orders.len(), |k: int| support_step(cx, seen, s, k))
}

/// The orders that support the order at `s` and succeed.
pub open spec fn find_for_spec(cx: ContextView, seen: Seen, s: int) -> Step<Seq<usize>> {
    all_hits(support_steps(cx, seen, s))
}

/// Whether the order at `cutting` cuts the support at `support`.
pub fn order_cuts(
    ctx: &ResolverContext<'_>,
    seen: &Vec<Option<bool>>,
    support: usize,
    cutting: usize,
) -> (r: Step<bool>)
    requires
        support < ctx@.orders.len(),
        cutting < ctx@.orders.len(),
        seen@.len() == ctx@.orders.len(),
    ensures
        r == cut_step(ctx@, seen@, support as int, cutting as int),
        asks_unseen(seen@, r),
{
    let support_order = ctx.order(support);
    let cutting_order = ctx.order(cutting);
    // Only moves can cut support
    match cutting_order.move_dest() {
        Some(dst) => {
            // If the support order is attacking the cutting order's province, then
            // support is not cut
            let supporting_attack_on_cutter = match &support_order.command {
                MainCommand::Support(SupportedOrder::Move(_, _, supported_dst)) => {
                    cutting_order.region.province().eq(supported_dst.province())
                },
                _ => false,
            };
            if dst.is_in(support_order.region.province()) && !supporting_attack_on_cutter
                && !support_order.nation.eq(&cutting_order.nation) {
                path_exists(ctx, seen, cutting)
            } else {
                Step::Done(false)
            }
        },
        None => Step::Done(false),
    }
}

/// Find the first order which cuts a specified support order.
pub fn find_cutting_order(ctx: &ResolverContext<'_>, seen: &Vec<Option<bool>>, support: usize)
    -> (r: Step<Option<usize>>)
    requires
        support < ctx@.orders.len(),
        seen@.len() == ctx@.orders.len(),
    ensures
        r == find_cutting_order_spec(ctx@, seen@, support as int),
        asks_unseen(seen@, r),
        r matches Step::Done(Some(c)) ==> c < ctx@.orders.len(),
{
    let ghost steps = cut_steps(ctx@, seen@, support as int);
    let n: usize = ctx.len();
    let mut c: usize = 0;
    while c < n
        invariant
            c <= n,
            n == ctx@.orders.len(),
            support < n,
            seen@.len() == n,
            steps == cut_steps(ctx@, seen@, support as int),
            first_hit_upto(steps, c as int) == Step::<Option<usize>>::Done(None),
        decreases n - c,
    {
        let step = order_cuts(ctx, seen, support, c);
        match step {
            Step::Need(j) => {
                proof {
                    lemma_first_hit_settled(steps, c as int + 1, n as int);
                }
                return Step::Need(j);
            },
            Step::Done(b) => {
                if b {
                    proof {
                        lemma_first_hit_settled(steps, c as int + 1, n as int);
                    }
                    return Step::Done(Some(c));
                }
            },
        }
        c += 1;
    }
    Step::Done(None)
}

/// A SUPPORT decision of a unit ordered to support results in 'cut' when:
/// At least one of the units ordered to move to the area of the supporting unit
/// has a path. Again, if the support order is a move support, then the unit
/// that is on the area where the move is directed, should not be taken into
/// account. Finally, the SUPPORT decision also results in 'cut' when the
/// unit is dislodged (dislodge rule): a move into its province succeeds,
/// wherever that move comes from.
///
/// This method short-circuits the search after any hit has been found.
pub fn is_order_cut(ctx: &ResolverContext<'_>, seen: &Vec<Option<bool>>, support: usize) -> (r:
    Step<bool>)
    requires
        support < ctx@.orders.len(),
        seen@.len() == ctx@.orders.len(),
    ensures
        r == is_order_cut_spec(ctx@, seen@, support as int),
        asks_unseen(seen@, r),
{
    match find_cutting_order(ctx, seen, support) {
        Step::Need(j) => Step::Need(j),
        Step::Done(Some(_)) => Step::Done(true),
        Step::Done(None) => match dislodger_of(ctx, seen, support) {
            Step::Need(j) => Step::Need(j),
            Step::Done(d) => Step::Done(d.is_some()),
        },
    }
}

/// Whether the order is a support of a hold in the supporter's own province.
pub fn is_supporting_self(support_order: &Order) -> (r: bool)
    ensures
        r == is_supporting_self_spec(support_order@),
{
    match &support_order.command {
        MainCommand::Support(SupportedOrder::Hold(_, loc)) => loc.is_in(
            support_order.region.province(),
        ),
        _ => false,
    }
}

/// Returns the province which support needs to reach to benefit `supported`.
/// For move orders, this is the **destination** province. For all other orders,
/// it is the **currently occupied** province.
pub fn needed_at(supported: &Order) -> (r: &ProvinceKey)
    ensures
        r@ == needed_at_spec(supported@),
{
    match &supported.command {
        MainCommand::Move(dest) => dest.province(),
        _ => supported.region.province(),
    }
}

/// Determines if a support order can reach the province where it is needed.
/// This requires a border from the unit's current region to the province
/// where support is needed.
pub fn can_reach(world_map: &WorldMap, supported: &Order, support_order: &Order) -> (r: bool)
    ensures
        r == can_reach_spec(world_map@, supported@, support_order@),
{
    let place = needed_at(supported);
    let found = world_map.find_borders_between(&support_order.region, place);
    let ghost map = world_map@;
    let ghost mask = map.reach_mask(support_order@.region, place@);
    let ghost idx = trues(mask);
    proof {
        lemma_trues_upto(mask, mask.len() as int);
    }
    let mut k: usize = 0;
    while k < found.len()
        invariant
            k <= found.len(),
            map == world_map@,
            place@ == needed_at_spec(supported@),
            mask == map.reach_mask(support_order@.region, place@),
            idx == trues(mask),
            found@.len() == idx.len(),
            forall|w: int| 0 <= w < found@.len() ==> (#[trigger] found@[w])@ == map.borders[idx[w]],
            forall|w: int|
                0 <= w < k ==> !support_order@.unit_type.can_occupy_spec(
                    (#[trigger] found@[w])@.terrain,
                ),
        decreases found.len() - k,
    {
        if found[k].is_passable_by(support_order.unit_type) {
            proof {
                lemma_trues_upto(mask, mask.len() as int);
                let t = idx[k as int];
            }
            return true;
        }
        k += 1;
    }
    proof {
        if can_reach_spec(map, supported@, support_order@) {
            let t = choose|t: int|
                0 <= t < map.borders.len() && (#[trigger] map.borders[t]).reaches(
                    support_order@.region,
                    needed_at_spec(supported@),
                ) && support_order@.unit_type.can_occupy_spec(map.borders[t].terrain);
            assert(mask[t]);
            let w = choose|w: int| 0 <= w < idx.len() && idx[w] == t;
            assert(found@[w]@ == map.borders[t]);
        }
    }
    false
}

/// Returns true if an order is a legal support order.
pub fn is_legal(support_order: &Order) -> (r: bool)
    ensures
        r == is_legal_spec(support_order@),
{
    match &support_order.command {
        MainCommand::Support(SupportedOrder::Hold(_, tgt)) => !tgt.is_in(
            support_order.region.province(),
        ),
        // support targeting own area not allowed.
        MainCommand::Support(SupportedOrder::Move(_, _, dst)) => !dst.is_in(
            support_order.region.province(),
        ),
        _ => false,
    }
}

/// Returns true if a given support order successfully supports the specified
/// supported order.
pub fn is_successful(
    ctx: &ResolverContext<'_>,
    seen: &Vec<Option<bool>>,
    supported: usize,
    support: usize,
) -> (r: Step<bool>)
    requires
        supported < ctx@.orders.len(),
        support < ctx@.orders.len(),
        seen@.len() == ctx@.orders.len(),
    ensures
        r == support_step(ctx@, seen@, supported as int, support as int),
        asks_unseen(seen@, r),
{
    let support_order = ctx.order(support);
    let supported_order = ctx.order(supported);
    match &support_order.command {
        MainCommand::Support(beneficiary) => {
            if is_legal(support_order) && beneficiary.is_legal() && beneficiary.backs(
                supported_order,
            ) && can_reach(ctx.world_map(), supported_order, support_order) {
                verdict_of(seen, support)
            } else {
                Step::Done(false)
            }
        },
        _ => Step::Done(false),
    }
}

/// Finds all successful orders which support a given order.
pub fn find_for(ctx: &ResolverContext<'_>, seen: &Vec<Option<bool>>, supported: usize) -> (r: Step<
    Vec<usize>,
>)
    requires
        supported < ctx@.orders.len(),
        seen@.len() == ctx@.orders.len(),
    ensures
        r matches Step::Need(j) ==> find_for_spec(ctx@, seen@, supported as int) == Step::<
            Seq<usize>,
        >::Need(j),
        r matches Step::Done(v) ==> find_for_spec(ctx@, seen@, supported as int) == Step::Done(
            v@,
        ) && v@.len() <= ctx@.orders.len() && forall|k: int|
            0 <= k < v@.len() ==> (#[trigger] v@[k]) < ctx@.orders.len(),
        asks_unseen(seen@, r),
{
    let ghost steps = support_steps(ctx@, seen@, supported as int);
    let n: usize = ctx.len();
    let mut hits: Vec<usize> = Vec::new();
    let mut k: usize = 0;
    while k < n
        invariant
            k <= n,
            n == ctx@.orders.len(),
            supported < n,
            seen@.len() == n,
            steps == support_steps(ctx@, seen@, supported as int),
            all_hits_upto(steps, k as int) == Step::Done(hits@),
            hits@.len() <= k,
            forall|w: int| 0 <= w < hits@.len() ==> (#[trigger] hits@[w]) < n,
        decreases n - k,
    {
        let step = is_successful(ctx, seen, supported, k);
        match step {
            Step::Need(j) => {
                proof {
                    lemma_all_hits_need(steps, k as int + 1, n as int);
                }
                return Step::Need(j);
            },
            Step::Done(b) => {
                if b {
                    hits.push(k);
                }
            },
        }
        k += 1;
    }
    Step::Done(hits)
}

/// What became of a support.
#[derive(Debug, Clone, Copy, PartialEq, Eq, Structural)]
pub enum SupportOutcome {
    /// The support holds.
    NotDisrupted,
    /// The unit was ordered to support itself.
    SupportingSelf,
    /// The order at this place cut the support.
    CutBy(usize),
}

impl SupportOutcome {
    /// Whether the support holds.
    pub open spec fn holds(self) -> bool {
        self == SupportOutcome::NotDisrupted
    }

    /// Whether the support holds.
    pub fn is_successful(&self) -> (r: bool)
        ensures
            r == self.holds(),
    {
        match self {
            SupportOutcome::NotDisrupted => true,
            _ => false,
        }
    }
}

} // verus!
