//! What a main phase ends in.
use vstd::prelude::*;
use crate::geo::key::{ProvinceKey, RegionKey};
use crate::judge::{Adjudicate, judged, OrderState};
use crate::judge::build::outcome::in_region_mask;
use crate::judge::build::world::{occupier_index, WorldStateView};
use crate::judge::context::{ContextView, orders_view, ResolverContext};
use crate::judge::laws::{judged_is_lawful, told, upheld, upheld_by_rules};
use crate::judge::outcome::{AttackOutcome, HoldOutcome, OrderOutcome};
use crate::judge::resolver::{Resolution, resolve_all, ResolverState, StateView};
use crate::judge::rulebook::Rulebook;
use crate::judge::step::Step;
use crate::order::{MainCommand, Order, OrderView};
use crate::seqs::{first_true, lemma_first_true_is, lemma_first_true_none, trues, trues_upto};
use crate::unit::{distinct_provinces, positions_view, Unit, UnitPosition, UnitPositionView};

verus! {

/// What the rules say of the order at `i` once every verdict is known.
pub open spec fn explained<A: Adjudicate>(rules: A, cx: ContextView, st: StateView, i: int)
    -> OrderOutcome {
    match rules.decide(cx, st.paradox, st.seen(), i) {
        Step::Done(out) => out,
        Step::Need(_) => OrderOutcome::Hold(HoldOutcome::Succeeds),
    }
}

/// Whether the unit of the order at `i` moved.
pub open spec fn moved_at(orders: Seq<OrderView>, verdicts: Seq<bool>, i: int) -> bool {
    orders[i].is_move() && verdicts[i]
}

/// For each order, whether it is another unit's move into the province of
/// the unit at `i` that succeeded.
pub open spec fn dislodge_mask_of(orders: Seq<OrderView>, verdicts: Seq<bool>, i: int) -> Seq<
    bool,
> {
    Seq::new(
        orders.len(),
        |k: int| k != i && verdicts[k] && orders[k].is_move_to_province(orders[i].region.province),
    )
}

/// The place of the first move that dislodged the unit of the order at `i`.
pub open spec fn dislodger_at(orders: Seq<OrderView>, verdicts: Seq<bool>, i: int) -> Option<int> {
    if moved_at(orders, verdicts, i) {
        None
    } else {
        first_true(dislodge_mask_of(orders, verdicts, i), 0)
    }
}

/// The unit of the order at `i`, where it stands after the phase, if it
/// was not dislodged.
pub open spec fn end_position_at(orders: Seq<OrderView>, verdicts: Seq<bool>, i: int)
    -> UnitPositionView {
    UnitPositionView {
        nation: orders[i].nation,
        unit_type: orders[i].unit_type,
        region: if moved_at(orders, verdicts, i) {
            orders[i].move_dest()->0
        } else {
            orders[i].region
        },
    }
}

/// For each order, whether its unit is still on the board.
pub open spec fn stays_mask_of(orders: Seq<OrderView>, verdicts: Seq<bool>) -> Seq<bool> {
    Seq::new(orders.len(), |i: int| dislodger_at(orders, verdicts, i) is None)
}

/// The units that were not dislodged, each where it stands after the
/// phase, in the order of the orders.
pub open spec fn positions_after(orders: Seq<OrderView>, verdicts: Seq<bool>) -> Seq<
    UnitPositionView,
> {
    let idx = trues(stays_mask_of(orders, verdicts));
    Seq::new(idx.len(), |k: int| end_position_at(orders, verdicts, idx[k]))
}

pub struct OutcomeView {
    /// The orders of the turn, each once.
    pub orders: Seq<OrderView>,
    /// The verdict of each order.
    pub verdicts: Seq<bool>,
    /// What became of each order, and why.
    pub outcomes: Seq<OrderOutcome>,
}

impl OutcomeView {
    /// For each order, whether it is the given one.
    pub open spec fn order_mask(self, order: OrderView) -> Seq<bool> {
        Seq::new(self.orders.len(), |i: int| self.orders[i] == order)
    }

    /// The place of the order.
    pub open spec fn index_of(self, order: OrderView) -> Option<int> {
        first_true(self.order_mask(order), 0)
    }

    /// Whether the unit of the order at `i` moved.
    pub open spec fn moved(self, i: int) -> bool {
        moved_at(self.orders, self.verdicts, i)
    }

    /// No two orders are for units in the same province.
    pub open spec fn one_unit_per_province(self) -> bool {
        forall|i: int, j: int|
            0 <= i < j < self.orders.len() ==> self.orders[i].region.province
                != self.orders[j].region.province
    }

    /// Whether every unit into whose province a unit of its own nation
    /// moved with success has moved away.
    pub open spec fn no_friendly_fire(self) -> bool {
        forall|m: int, o: int|
            0 <= m < self.orders.len() && 0 <= o < self.orders.len() && m != o && self.verdicts[m]
                && self.orders[m].is_move_to_province(self.orders[o].region.province)
                && self.orders[m].nation == self.orders[o].nation ==> self.moved(o)
    }

    /// For each order, whether it is another unit's move into the province
    /// of the unit at `i` that succeeded.
    pub open spec fn dislodge_mask(self, i: int) -> Seq<bool> {
        dislodge_mask_of(self.orders, self.verdicts, i)
    }

    /// The place of the first move that dislodged the unit of the order at
    /// `i`: a move into its province that succeeded while the unit did not
    /// move away.
    pub open spec fn dislodger(self, i: int) -> Option<int> {
        dislodger_at(self.orders, self.verdicts, i)
    }

    /// The unit of the order at `i`, where it stands after the phase.
    pub open spec fn end_position(self, i: int) -> UnitPositionView {
        end_position_at(self.orders, self.verdicts, i)
    }

    /// For each order, whether its unit is still on the board.
    pub open spec fn stays_mask(self) -> Seq<bool> {
        stays_mask_of(self.orders, self.verdicts)
    }

    /// The units that were not dislodged, each where it stands after the
    /// phase, in the order of the orders.
    pub open spec fn positions(self) -> Seq<UnitPositionView> {
        positions_after(self.orders, self.verdicts)
    }

    /// Whether a move into the province was kept out by another move.
    pub open spec fn contested(self, p: Seq<u8>) -> bool {
        exists|i: int|
            0 <= i < self.orders.len() && (#[trigger] self.outcomes[i]) is Move
                && self.outcomes[i]->Move_0 is Prevented && self.orders[i].is_move_to_province(p)
    }

    /// Whether the turn stalled.
    pub open spec fn is_stalled(self) -> bool {
        self.outcomes.contains(OrderOutcome::Stalled)
    }

    /// Whether the reasons agree with the verdicts: each order has the
    /// verdict of success exactly when its outcome says that it was carried
    /// out. It holds of every outcome that `resolve` returns.
    pub open spec fn settled(self) -> bool {
        forall|i: int|
            0 <= i < self.orders.len() ==> (#[trigger] self.outcomes[i]).succeeds()
                == self.verdicts[i]
    }
}

/// What a main phase ends in under the rules: each order has the verdict
/// that the resolver found, and the outcome that the rules give once every
/// verdict is known.
pub open spec fn outcome_of<A: Adjudicate>(rules: A, cx: ContextView) -> OutcomeView {
    let st = resolve_all(rules, cx);
    OutcomeView {
        orders: cx.orders,
        verdicts: verdicts_of(st, cx.orders.len()),
        outcomes: Seq::new(cx.orders.len(), |i: int| explained(rules, cx, st, i)),
    }
}

/// The verdicts of the first `n` orders in the table of the resolver.
pub open spec fn verdicts_of(st: StateView, n: nat) -> Seq<bool> {
    Seq::new(n, |i: int| st.table[i].value())
}

/// The outcome of a turn that stalled: no order is carried out.
pub open spec fn stalled(orders: Seq<OrderView>) -> OutcomeView {
    OutcomeView {
        orders,
        verdicts: Seq::new(orders.len(), |i: int| false),
        outcomes: Seq::new(orders.len(), |i: int| OrderOutcome::Stalled),
    }
}

/// Whether the outcome keeps the laws of the board: where each unit had
/// its own province, no move that succeeded went into the province of a
/// unit of its own nation that stayed, and no two units share a province
/// after the phase.
pub open spec fn lawful(out: OutcomeView) -> bool {
    out.one_unit_per_province() ==> out.no_friendly_fire() && distinct_provinces(out.positions())
}

/// The outcome of a main phase: for each order its verdict and what
/// became of it.
#[derive(Debug)]
pub struct Outcome {
    orders: Vec<Order>,
    verdicts: Vec<bool>,
    outcomes: Vec<OrderOutcome>,
}

impl View for Outcome {
    type V = OutcomeView;

    closed spec fn view(&self) -> OutcomeView {
        OutcomeView {
            orders: orders_view(self.orders@),
            verdicts: self.verdicts@,
            outcomes: self.outcomes@,
        }
    }
}

impl Outcome {
    /// Each order has a verdict and an outcome.
    #[verifier::type_invariant]
    spec fn complete(self) -> bool {
        self.verdicts@.len() == self.orders@.len() && self.outcomes@.len() == self.orders@.len()
    }

    /// Each order has a verdict and an outcome. It holds of every outcome.
    pub open spec fn wf(&self) -> bool {
        self@.verdicts.len() == self@.orders.len() && self@.outcomes.len() == self@.orders.len()
    }

    /// The outcome of the phase whose orders the resolver has resolved.
    pub fn new<A: Adjudicate>(ctx: &ResolverContext<'_>, state: &ResolverState<A>) -> (r: Outcome)
        requires
            ctx.wf(),
            state@.wf(ctx@.orders.len()),
            state@.all_resolved(),
        ensures
            r.wf(),
            r@.orders == ctx@.orders,
            r@.verdicts == verdicts_of(state@, ctx@.orders.len()),
            r@.outcomes == Seq::new(
                ctx@.orders.len(),
                |i: int| explained(state.rules(), ctx@, state@, i),
            ),
            forall|i: int|
                0 <= i < ctx@.orders.len() ==> state.rules().decide(
                    ctx@,
                    state@.paradox,
                    state@.seen(),
                    i,
                ) == Step::Done(#[trigger] r@.outcomes[i]),
    {
        let n: usize = ctx.len();
        let ghost st = state@;
        let mut seen: Vec<Option<bool>> = Vec::new();
        let mut verdicts: Vec<bool> = Vec::new();
        let mut orders: Vec<Order> = Vec::new();
        let mut i: usize = 0;
        while i < n
            invariant
                i <= n,
                n == ctx@.orders.len(),
                st == state@,
                st.table.len() == n,
                st.all_resolved(),
                seen@.len() == i,
                verdicts@.len() == i,
                orders@.len() == i,
                forall|k: int| 0 <= k < i ==> seen@[k] == st.seen()[k],
                forall|k: int| 0 <= k < i ==> seen@[k] is Some,
                forall|k: int| 0 <= k < i ==> verdicts@[k] == st.table[k].value(),
                forall|k: int| 0 <= k < i ==> (#[trigger] orders@[k])@ == ctx@.orders[k],
            decreases n - i,
        {
            let v = match state.entry(i) {
                Resolution::Resolved(v) => v,
                Resolution::Guessing(v) => v,
                Resolution::Unresolved => false,
            };
            seen.push(Some(v));
            verdicts.push(v);
            orders.push(ctx.order(i).clone());
            i += 1;
        }
        let mut outcomes: Vec<OrderOutcome> = Vec::new();
        let mut k: usize = 0;
        while k < n
            invariant
                k <= n,
                n == ctx@.orders.len(),
                ctx.wf(),
                st == state@,
                st.wf(n as nat),
                seen@ == st.seen(),
                seen@.len() == n,
                forall|w: int| 0 <= w < n ==> seen@[w] is Some,
                outcomes@.len() == k,
                forall|w: int|
                    0 <= w < k ==> outcomes@[w] == explained(state.rules(), ctx@, st, w),
                forall|w: int|
                    0 <= w < k ==> state.rules().decide(ctx@, st.paradox, st.seen(), w)
                        == Step::Done(#[trigger] outcomes@[w]),
            decreases n - k,
        {
            let step = state.adjudicator().explain(ctx, state.paradox_flags(), &seen, k);
            let out = match step {
                Step::Done(out) => out,
                Step::Need(j) => {
                    proof {
                        assert(false);
                    }
                    OrderOutcome::Hold(HoldOutcome::Succeeds)
                },
            };
            outcomes.push(out);
            k += 1;
        }
        Outcome { orders, verdicts, outcomes }
    }

    /// The outcome of the same orders in which no order is carried out.
    pub fn stall(self) -> (r: Outcome)
        ensures
            r.wf(),
            r@ == stalled(self@.orders),
    {
        let mut verdicts: Vec<bool> = Vec::new();
        let mut outcomes: Vec<OrderOutcome> = Vec::new();
        let mut i: usize = 0;
        while i < self.orders.len()
            invariant
                i <= self.orders.len(),
                verdicts@.len() == i,
                outcomes@.len() == i,
                forall|k: int| 0 <= k < i ==> verdicts@[k] == false,
                forall|k: int| 0 <= k < i ==> outcomes@[k] == OrderOutcome::Stalled,
            decreases self.orders.len() - i,
        {
            verdicts.push(false);
            outcomes.push(OrderOutcome::Stalled);
            i += 1;
        }
        let ghost before = self@;
        let r = Outcome { orders: self.orders, verdicts, outcomes };
        assert(r@.verdicts =~= stalled(before.orders).verdicts);
        assert(r@.outcomes =~= stalled(before.orders).outcomes);
        r
    }

    /// Whether the turn stalled.
    pub fn is_stalled(&self) -> (r: bool)
        ensures
            r == self@.is_stalled(),
    {
        let mut i: usize = 0;
        while i < self.outcomes.len()
            invariant
                i <= self.outcomes.len(),
                forall|k: int| 0 <= k < i ==> self@.outcomes[k] != OrderOutcome::Stalled,
            decreases self.outcomes.len() - i,
        {
            match self.outcomes[i] {
                OrderOutcome::Stalled => {
                    assert(self@.outcomes[i as int] == OrderOutcome::Stalled);
                    return true;
                },
                _ => {},
            }
            i += 1;
        }
        false
    }

    /// The orders of the turn, each once.
    pub fn orders(&self) -> (r: &Vec<Order>)
        ensures
            orders_view(r@) == self@.orders,
            r@.len() == self@.orders.len(),
    {
        &self.orders
    }

    /// The number of orders.
    pub fn len(&self) -> (r: usize)
        ensures
            r == self@.orders.len(),
            self.wf(),
    {
        proof {
            use_type_invariant(self);
        }
        self.orders.len()
    }

    /// The place of the order, if it is one of the orders of the turn.
    pub fn index_of(&self, order: &Order) -> (r: Option<usize>)
        ensures
            r is Some == self@.index_of(order@) is Some,
            r is Some ==> r->0 == self@.index_of(order@)->0 && r->0 < self@.orders.len(),
    {
        let ghost mask = self@.order_mask(order@);
        let mut i: usize = 0;
        while i < self.orders.len()
            invariant
                i <= self.orders.len(),
                mask == self@.order_mask(order@),
                forall|j: int| 0 <= j < i ==> !mask[j],
            decreases self.orders.len() - i,
        {
            if self.orders[i].eq(order) {
                proof {
                    lemma_first_true_is(mask, 0, i as int);
                }
                return Some(i);
            }
            i += 1;
        }
        proof {
            lemma_first_true_none(mask, 0);
        }
        None
    }

    /// What became of the order, and why; `None` for an order that is not
    /// one of the orders of the turn.
    pub fn get(&self, order: &Order) -> (r: Option<OrderOutcome>)
        ensures
            r is Some == self@.index_of(order@) is Some,
            r is Some ==> r->0 == self@.outcomes[self@.index_of(order@)->0],
    {
        proof {
            use_type_invariant(self);
        }
        match self.index_of(order) {
            Some(i) => Some(self.outcomes[i]),
            None => None,
        }
    }

    /// The verdict of the order at `i`.
    pub fn verdict(&self, i: usize) -> (r: OrderState)
        requires
            i < self@.orders.len(),
        ensures
            r == OrderState::of(self@.verdicts[i as int]),
    {
        proof {
            use_type_invariant(self);
        }
        if self.verdicts[i] {
            OrderState::Succeeds
        } else {
            OrderState::Fails
        }
    }

    /// What became of the order at `i`, and why.
    pub fn outcome(&self, i: usize) -> (r: OrderOutcome)
        requires
            i < self@.orders.len(),
        ensures
            r == self@.outcomes[i as int],
    {
        proof {
            use_type_invariant(self);
        }
        self.outcomes[i]
    }

    /// Whether the reasons agree with the verdicts.
    pub fn is_settled(&self) -> (r: bool)
        ensures
            r == self@.settled(),
    {
        proof {
            use_type_invariant(self);
        }
        let mut i: usize = 0;
        while i < self.orders.len()
            invariant
                i <= self.orders.len(),
                self.wf(),
                forall|k: int|
                    0 <= k < i ==> (#[trigger] self@.outcomes[k]).succeeds() == self@.verdicts[k],
            decreases self.orders.len() - i,
        {
            if self.outcomes[i].is_successful() != self.verdicts[i] {
                return false;
            }
            i += 1;
        }
        true
    }

    /// The place of the first move that dislodged the unit of the order at
    /// `i`.
    pub fn dislodger(&self, i: usize) -> (r: Option<usize>)
        requires
            i < self@.orders.len(),
        ensures
            r is Some == self@.dislodger(i as int) is Some,
            r is Some ==> r->0 == self@.dislodger(i as int)->0 && r->0 < self@.orders.len(),
    {
        proof {
            use_type_invariant(self);
        }
        if self.orders[i].is_move() && self.verdicts[i] {
            return None;
        }
        let ghost mask = self@.dislodge_mask(i as int);
        let province = self.orders[i].region.province();
        let mut k: usize = 0;
        while k < self.orders.len()
            invariant
                k <= self.orders.len(),
                self.wf(),
                i < self@.orders.len(),
                province@ == self@.orders[i as int].region.province,
                !self@.moved(i as int),
                mask == self@.dislodge_mask(i as int),
                forall|j: int| 0 <= j < k ==> !mask[j],
            decreases self.orders.len() - k,
        {
            if k != i && self.verdicts[k] && self.orders[k].is_move_to_province(province) {
                proof {
                    lemma_first_true_is(mask, 0, k as int);
                }
                return Some(k);
            }
            k += 1;
        }
        proof {
            lemma_first_true_none(mask, 0);
        }
        None
    }

    /// The unit of the order at `i`, where it stands after the phase.
    pub fn end_position(&self, i: usize) -> (r: UnitPosition)
        requires
            i < self@.orders.len(),
        ensures
            r@ == self@.end_position(i as int),
    {
        proof {
            use_type_invariant(self);
        }
        let order = &self.orders[i];
        let region = match &order.command {
            MainCommand::Move(d) => if self.verdicts[i] {
                d.clone()
            } else {
                order.region.clone()
            },
            _ => order.region.clone(),
        };
        UnitPosition::new(Unit::new(order.nation.clone(), order.unit_type), region)
    }

    /// The units that were not dislodged, each where it stands after the
    /// phase.
    pub fn unit_positions(&self) -> (r: Vec<UnitPosition>)
        ensures
            positions_view(r@) == self@.positions(),
    {
        proof {
            use_type_invariant(self);
        }
        let ghost mask = self@.stays_mask();
        let mut out: Vec<UnitPosition> = Vec::new();
        let mut i: usize = 0;
        while i < self.orders.len()
            invariant
                i <= self.orders.len(),
                self.wf(),
                mask == self@.stays_mask(),
                out@.len() == trues_upto(mask, i as int).len(),
                forall|k: int|
                    0 <= k < out@.len() ==> (#[trigger] out@[k])@ == self@.end_position(
                        trues_upto(mask, i as int)[k],
                    ),
            decreases self.orders.len() - i,
        {
            if self.dislodger(i).is_none() {
                out.push(self.end_position(i));
            }
            i += 1;
        }
        out
    }

    /// The unit that stands in the province after the phase, with its
    /// region.
    pub fn find_province_occupier(&self, province: &ProvinceKey) -> (r: Option<UnitPosition>)
        ensures
            r is Some == WorldStateView::occupier_index(self@.positions(), province@) is Some,
            r is Some ==> r->0@ == self@.positions()[WorldStateView::occupier_index(
                self@.positions(),
                province@,
            )->0],
    {
        proof {
            use_type_invariant(self);
        }
        let positions = self.unit_positions();
        match occupier_index(&positions, province) {
            Some(i) => Some(positions[i].clone()),
            None => None,
        }
    }

    /// The unit that stands in the region after the phase.
    pub fn find_region_occupier(&self, region: &RegionKey) -> (r: Option<Unit>)
        ensures
            r is Some == first_true(in_region_mask(self@.positions(), region@), 0) is Some,
            r is Some ==> ({
                let i = first_true(in_region_mask(self@.positions(), region@), 0)->0;
                r->0.nation@ == self@.positions()[i].nation && r->0.unit_type
                    == self@.positions()[i].unit_type
            }),
    {
        proof {
            use_type_invariant(self);
        }
        let positions = self.unit_positions();
        let ghost pv = self@.positions();
        let ghost mask = in_region_mask(pv, region@);
        let mut i: usize = 0;
        while i < positions.len()
            invariant
                i <= positions.len(),
                pv == positions_view(positions@),
                pv == self@.positions(),
                mask == in_region_mask(pv, region@),
                forall|j: int| 0 <= j < i ==> !mask[j],
            decreases positions.len() - i,
        {
            if positions[i].region.eq(region) {
                proof {
                    lemma_first_true_is(mask, 0, i as int);
                }
                return Some(positions[i].unit.clone());
            }
            i += 1;
        }
        proof {
            lemma_first_true_none(mask, 0);
        }
        None
    }

    /// Whether each unit had its own province: no two orders are for units
    /// in the same province.
    pub fn has_one_unit_per_province(&self) -> (r: bool)
        ensures
            r == self@.one_unit_per_province(),
    {
        let mut j: usize = 0;
        while j < self.orders.len()
            invariant
                j <= self.orders.len(),
                forall|a: int, b: int|
                    0 <= a < b < j ==> self@.orders[a].region.province
                        != self@.orders[b].region.province,
            decreases self.orders.len() - j,
        {
            let mut i: usize = 0;
            while i < j
                invariant
                    i <= j < self.orders.len(),
                    forall|a: int|
                        0 <= a < i ==> self@.orders[a].region.province
                            != self@.orders[j as int].region.province,
                decreases j - i,
            {
                if self.orders[i].region.province().eq(self.orders[j].region.province()) {
                    assert(self@.orders[i as int].region.province
                        == self@.orders[j as int].region.province);
                    return false;
                }
                i += 1;
            }
            j += 1;
        }
        true
    }

    /// Whether a move into the province was kept out by another move.
    pub fn is_contested(&self, province: &ProvinceKey) -> (r: bool)
        ensures
            r == self@.contested(province@),
    {
        proof {
            use_type_invariant(self);
        }
        let mut i: usize = 0;
        while i < self.orders.len()
            invariant
                i <= self.orders.len(),
                self.wf(),
                forall|k: int|
                    0 <= k < i ==> !((#[trigger] self@.outcomes[k]) is Move
                        && self@.outcomes[k]->Move_0 is Prevented
                        && self@.orders[k].is_move_to_province(province@)),
            decreases self.orders.len() - i,
        {
            let prevented = match self.outcomes[i] {
                OrderOutcome::Move(AttackOutcome::Prevented(_)) => true,
                _ => false,
            };
            if prevented && self.orders[i].is_move_to_province(province) {
                return true;
            }
            i += 1;
        }
        false
    }

    /// Each order with its verdict, in the order of the orders.
    pub fn order_states(&self) -> (r: Vec<(Order, OrderState)>)
        ensures
            r@.len() == self@.orders.len(),
            forall|i: int| 0 <= i < r@.len() ==> (#[trigger] r@[i]).0@ == self@.orders[i],
            forall|i: int|
                0 <= i < r@.len() ==> (#[trigger] r@[i]).1 == OrderState::of(self@.verdicts[i]),
    {
        proof {
            use_type_invariant(self);
        }
        let mut out: Vec<(Order, OrderState)> = Vec::new();
        let mut i: usize = 0;
        while i < self.orders.len()
            invariant
                i <= self.orders.len(),
                self.wf(),
                out@.len() == i,
                forall|k: int| 0 <= k < i ==> (#[trigger] out@[k]).0@ == self@.orders[k],
                forall|k: int|
                    0 <= k < i ==> (#[trigger] out@[k]).1 == OrderState::of(self@.verdicts[k]),
            decreases self.orders.len() - i,
        {
            let state = self.verdict(i);
            out.push((self.orders[i].clone(), state));
            i += 1;
        }
        out
    }
}

impl<'a> ResolverContext<'a> {
    /// Resolves the orders of the turn under the given rules. Every order
    /// gets its verdict.
    pub fn resolve_using<A: Adjudicate>(&self, rules: A) -> (r: Outcome)
        requires
            self.wf(),
        ensures
            r.wf(),
            r@ == outcome_of(rules, self@),
            resolve_all(rules, self@).all_resolved(),
    {
        let mut state = ResolverState::with_adjudicator(rules, self.len());
        state.resolve_every(self);
        Outcome::new(self, &state)
    }

    /// Resolves the orders of the turn under the standard rules.
    ///
    /// The result is what the resolver found, where the rules, told every
    /// verdict, uphold each of them; else the turn stalls and no order is
    /// carried out. Either way the reasons agree with the verdicts; and
    /// where each unit had its own province, no move that succeeded
    /// dislodged a unit of its own nation, and no two units share a
    /// province after the phase.
    pub fn resolve(&self) -> (r: Outcome)
        requires
            self.wf(),
        ensures
            r.wf(),
            r@ == judged(self@),
            resolve_all(Rulebook, self@).all_resolved(),
            r@.settled(),
            lawful(r@),
    {
        let mut state = ResolverState::with_adjudicator(Rulebook, self.len());
        state.resolve_every(self);
        let found = Outcome::new(self, &state);
        proof {
            let out = found@;
            let cx = self@;
            let st = state@;
            assert(told(out.verdicts) =~= st.seen());
            assert forall|i: int| 0 <= i < cx.orders.len() implies upheld(
                cx,
                st.paradox,
                out.verdicts,
                i,
            ) == (out.outcomes[i].succeeds() == out.verdicts[i]) by {
                assert(Rulebook.decide(cx, st.paradox, st.seen(), i) == Step::Done(
                    out.outcomes[i],
                ));
            }
            assert(out.settled() == upheld_by_rules(cx, st));
            judged_is_lawful(cx);
        }
        if found.is_settled() {
            found
        } else {
            found.stall()
        }
    }
}

} // verus!
