//! The logic that adjudicates a turn.
use vstd::prelude::*;
use vstd::std_specs::convert::FromSpecImpl;
use crate::geo::map::{Border, WorldMap, WorldMapView};
use crate::judge::context::{ContextView, distinct, orders_view};
use crate::judge::laws::upheld_by_rules;
use crate::judge::phase::{lawful, outcome_of, OutcomeView, stalled};
use crate::judge::resolver::resolve_all;
use crate::judge::step::{asks_unseen, Seen, Step};
use crate::order::{Order, OrderView};
use crate::unit::UnitType;

pub mod build;
pub mod calc;
pub mod context;
pub mod convoy;
pub mod laws;
pub mod outcome;
pub mod phase;
pub mod resolver;
pub mod retreat;
pub mod rulebook;
pub mod support;
pub mod step;
pub mod strength;

pub use crate::order::{MappedBuildOrder, MappedMainOrder, MappedRetreatOrder};
pub use self::context::ResolverContext;
pub use self::convoy::ConvoyRouteError;
pub use self::outcome::{AttackOutcome, ConvoyOutcome, HoldOutcome, OrderOutcome};
pub use self::phase::Outcome;
pub use self::resolver::ResolverState;
pub use self::rulebook::Rulebook;
pub use self::support::SupportOutcome;

verus! {

/// Whether an order was carried out.
#[derive(Clone, Copy, Debug, PartialEq, Eq, Structural)]
pub enum OrderState {
    /// The order was carried out.
    Succeeds,
    /// The order was not carried out.
    Fails,
}

impl OrderState {
    /// `Succeeds` for `true`, `Fails` for `false`.
    pub open spec fn of(b: bool) -> OrderState {
        if b {
            OrderState::Succeeds
        } else {
            OrderState::Fails
        }
    }

    /// Whether this is `Succeeds`.
    pub open spec fn holds(self) -> bool {
        self == OrderState::Succeeds
    }

    /// Whether this is `Succeeds`.
    pub fn is_success(self) -> (r: bool)
        ensures
            r == self.holds(),
    {
        match self {
            OrderState::Succeeds => true,
            OrderState::Fails => false,
        }
    }
}

impl From<bool> for OrderState {
    fn from(b: bool) -> (r: OrderState) {
        if b {
            OrderState::Succeeds
        } else {
            OrderState::Fails
        }
    }
}

impl FromSpecImpl<bool> for OrderState {
    open spec fn obeys_from_spec() -> bool {
        true
    }

    open spec fn from_spec(b: bool) -> OrderState {
        OrderState::of(b)
    }
}

impl From<OrderState> for bool {
    fn from(s: OrderState) -> (r: bool) {
        s.is_success()
    }
}

impl FromSpecImpl<OrderState> for bool {
    open spec fn obeys_from_spec() -> bool {
        true
    }

    open spec fn from_spec(s: OrderState) -> bool {
        s.holds()
    }
}

/// What a step answers for the plain verdict, given what it answers for the
/// outcome.
pub open spec fn state_of(step: Step<OrderOutcome>) -> Step<OrderState> {
    match step {
        Step::Need(j) => Step::Need(j),
        Step::Done(out) => Step::Done(out.state()),
    }
}

/// A rulebook which can be used to adjudicate a turn.
///
/// A rule is asked about one order, with the verdicts that it has been told
/// so far. It answers with what becomes of the order, or with the place of
/// the order whose verdict it needs first: always one that it has not been
/// told.
pub trait Adjudicate: Sized {
    /// What the rules say of the order at `i`, given the convoys that a
    /// paradox has failed and the verdicts in `seen`.
    spec fn decide(&self, cx: ContextView, paradox: Seq<bool>, seen: Seen, i: int) -> Step<
        OrderOutcome,
    >;

    /// Determine the success of an order.
    fn adjudicate(
        &self,
        ctx: &ResolverContext<'_>,
        paradox: &Vec<bool>,
        seen: &Vec<Option<bool>>,
        i: usize,
    ) -> (r: Step<OrderState>)
        requires
            ctx.wf(),
            i < ctx@.orders.len(),
            seen@.len() == ctx@.orders.len(),
            paradox@.len() == ctx@.orders.len(),
        ensures
            r == state_of(self.decide(ctx@, paradox@, seen@, i as int)),
            asks_unseen(seen@, r),
    ;

    /// Determine what becomes of an order, and why.
    fn explain(
        &self,
        ctx: &ResolverContext<'_>,
        paradox: &Vec<bool>,
        seen: &Vec<Option<bool>>,
        i: usize,
    ) -> (r: Step<OrderOutcome>)
        requires
            ctx.wf(),
            i < ctx@.orders.len(),
            seen@.len() == ctx@.orders.len(),
            paradox@.len() == ctx@.orders.len(),
        ensures
            r == self.decide(ctx@, paradox@, seen@, i as int),
            asks_unseen(seen@, r),
    ;
}

/// Adjudicate a set of orders of a main phase on a board, under the
/// standard rules. Each order is listed once with its verdict, in the order
/// in which it was first given.
///
/// Where each unit has its own province, no move that succeeds goes into
/// the province of a unit of its own nation that stays, and after the
/// phase no two units share a province.
pub fn adjudicate(map: &WorldMap, orders: Vec<Order>) -> (r: Vec<(Order, OrderState)>)
    requires
        map.wf(),
        orders@.len() < usize::MAX,
    ensures
        states_view(r@) == adjudication(map@, orders_view(orders@)),
        adjudicated(map@, orders_view(orders@)).settled(),
        lawful(adjudicated(map@, orders_view(orders@))),
{
    let ctx = ResolverContext::new(map, orders);
    let outcome = ctx.resolve();
    let r = outcome.order_states();
    assert(states_view(r@) =~= adjudication(map@, orders_view(orders@)));
    r
}

/// The views of orders with their verdicts.
pub open spec fn states_view(r: Seq<(Order, OrderState)>) -> Seq<(OrderView, OrderState)> {
    Seq::new(r.len(), |i: int| (r[i].0@, r[i].1))
}

/// The orders, each once, each with the verdict that the standard rules
/// give it on the board.
pub open spec fn adjudication(map: WorldMapView, given: Seq<OrderView>) -> Seq<
    (OrderView, OrderState),
> {
    let out = adjudicated(map, given);
    Seq::new(out.orders.len(), |i: int| (out.orders[i], OrderState::of(out.verdicts[i])))
}

/// What a main phase ends in under the standard rules: what the resolver
/// found, where the rules, told every verdict, uphold each of them; else
/// the turn stalls and no order is carried out.
pub open spec fn judged(cx: ContextView) -> OutcomeView {
    if upheld_by_rules(cx, resolve_all(Rulebook, cx)) {
        outcome_of(Rulebook, cx)
    } else {
        stalled(cx.orders)
    }
}

/// What the standard rules make of the given orders on the board.
pub open spec fn adjudicated(map: WorldMapView, given: Seq<OrderView>) -> OutcomeView {
    judged(ContextView { map, orders: distinct(given) })
}

impl Border {
    /// Whether a unit of the type can cross the border.
    pub fn is_passable_by(&self, unit_type: UnitType) -> (r: bool)
        ensures
            r == unit_type.can_occupy_spec(self@.terrain),
    {
        unit_type.can_occupy(self.terrain())
    }
}

} // verus!
