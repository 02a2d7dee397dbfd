//! The standard rules of a main phase, order by order.
use vstd::prelude::*;
use crate::geo::key::Terrain;
use crate::judge::{Adjudicate, OrderState};
use crate::judge::calc::{dislodger_of, dislodger_of_spec, path_exists, path_exists_spec};
use crate::judge::context::{ContextView, ResolverContext};
use crate::judge::outcome::{AttackOutcome, ConvoyOutcome, HoldOutcome, OrderOutcome};
use crate::judge::step::{asks_unseen, first_hit, Seen, Step};
use crate::judge::strength::{attack_strength, attack_strength_spec, first_preventer,
    in_head_to_head, meets_head_to_head, prevent_steps, resistance, resistance_spec};
use crate::judge::support::{find_cutting_order, find_cutting_order_spec, is_supporting_self,
    is_supporting_self_spec, SupportOutcome};
use crate::order::{CommandView, MainCommand};
use crate::unit::UnitType;

verus! {

/// What becomes of the move at `i`.
///
/// A move succeeds when it has a path, when its attack strength is greater
/// than what the destination sets against it (the hold strength of the
/// province or, head to head, the defend strength of the unit that comes
/// the other way), and when it is greater than the prevent strength of
/// every other move into the same province. Equal strengths make all of
/// them fail. A move that would dislodge a unit of its own nation fails.
pub open spec fn move_outcome_spec(cx: ContextView, seen: Seen, i: int) -> Step<AttackOutcome> {
    let o = cx.orders[i];
    match o.move_dest() {
        None => Step::Done(AttackOutcome::NoPath),
        Some(d) => if d.province == o.region.province {
            Step::Done(AttackOutcome::MoveToSelf)
        } else {
            match path_exists_spec(cx, seen, i) {
                Step::Need(j) => Step::Need(j),
                Step::Done(false) => Step::Done(AttackOutcome::NoPath),
                Step::Done(true) => match attack_strength_spec(cx, seen, i) {
                    Step::Need(j) => Step::Need(j),
                    Step::Done(atk) => if atk == 0 {
                        Step::Done(AttackOutcome::FriendlyFire)
                    } else {
                        match resistance_spec(cx, seen, i) {
                            Step::Need(j) => Step::Need(j),
                            Step::Done(res) => if atk <= res {
                                Step::Done(
                                    if meets_head_to_head(cx, i) {
                                        AttackOutcome::LostHeadToHead
                                    } else {
                                        AttackOutcome::OccupierDefended
                                    },
                                )
                            } else {
                                match first_hit(prevent_steps(cx, seen, i, atk)) {
                                    Step::Need(j) => Step::Need(j),
                                    Step::Done(Some(k)) => Step::Done(AttackOutcome::Prevented(k)),
                                    Step::Done(None) => Step::Done(AttackOutcome::Succeeds),
                                }
                            },
                        }
                    },
                },
            }
        },
    }
}

/// What becomes of the unit at `i` that holds: it stays unless a move into
/// its province succeeds.
pub open spec fn hold_outcome_spec(cx: ContextView, seen: Seen, i: int) -> Step<HoldOutcome> {
    match dislodger_of_spec(cx, seen, i) {
        Step::Need(j) => Step::Need(j),
        Step::Done(Some(d)) => Step::Done(HoldOutcome::Dislodged(d)),
        Step::Done(None) => Step::Done(HoldOutcome::Succeeds),
    }
}

/// What becomes of the support at `i`: it holds unless the unit supports
/// itself, an order cuts it, or the unit is dislodged.
pub open spec fn support_outcome_spec(cx: ContextView, seen: Seen, i: int) -> Step<
    SupportOutcome,
> {
    if is_supporting_self_spec(cx.orders[i]) {
        Step::Done(SupportOutcome::SupportingSelf)
    } else {
        match find_cutting_order_spec(cx, seen, i) {
            Step::Need(j) => Step::Need(j),
            Step::Done(Some(c)) => Step::Done(SupportOutcome::CutBy(c)),
            Step::Done(None) => match dislodger_of_spec(cx, seen, i) {
                Step::Need(j) => Step::Need(j),
                Step::Done(Some(d)) => Step::Done(SupportOutcome::CutBy(d)),
                Step::Done(None) => Step::Done(SupportOutcome::NotDisrupted),
            },
        }
    }
}

/// What becomes of the convoy at `i`: only a fleet in a sea province can
/// convoy; a convoy that was part of a paradox counts as failed; else the
/// fleet carries unless it is dislodged.
pub open spec fn convoy_outcome_spec(cx: ContextView, paradox: Seq<bool>, seen: Seen, i: int)
    -> Step<ConvoyOutcome> {
    let o = cx.orders[i];
    if o.unit_type != UnitType::Fleet || cx.map.province_terrain(o.region.province) != Some(
        Terrain::Sea,
    ) {
        Step::Done(ConvoyOutcome::NotAtSea)
    } else if paradox[i] {
        Step::Done(ConvoyOutcome::Paradox)
    } else {
        match dislodger_of_spec(cx, seen, i) {
            Step::Need(j) => Step::Need(j),
            Step::Done(Some(d)) => Step::Done(ConvoyOutcome::Dislodged(d)),
            Step::Done(None) => Step::Done(ConvoyOutcome::NotDisrupted),
        }
    }
}

/// What becomes of the order at `i` under the standard rules.
pub open spec fn explain_spec(cx: ContextView, paradox: Seq<bool>, seen: Seen, i: int) -> Step<
    OrderOutcome,
> {
    match cx.orders[i].command {
        CommandView::Hold => match hold_outcome_spec(cx, seen, i) {
            Step::Need(j) => Step::Need(j),
            Step::Done(h) => Step::Done(OrderOutcome::Hold(h)),
        },
        CommandView::Move(_) => match move_outcome_spec(cx, seen, i) {
            Step::Need(j) => Step::Need(j),
            Step::Done(m) => Step::Done(OrderOutcome::Move(m)),
        },
        CommandView::Support(_) => match support_outcome_spec(cx, seen, i) {
            Step::Need(j) => Step::Need(j),
            Step::Done(s) => Step::Done(OrderOutcome::Support(s)),
        },
        CommandView::Convoy(_, _) => match convoy_outcome_spec(cx, paradox, seen, i) {
            Step::Need(j) => Step::Need(j),
            Step::Done(c) => Step::Done(OrderOutcome::Convoy(c)),
        },
    }
}

/// The standard Diplomacy rules.
#[derive(Debug, Clone, Copy)]
pub struct Rulebook;

impl Rulebook {
    /// What becomes of the move at `i`.
    pub fn adjudicate_move(ctx: &ResolverContext<'_>, seen: &Vec<Option<bool>>, i: usize) -> (r:
        Step<AttackOutcome>)
        requires
            ctx.wf(),
            i < ctx@.orders.len(),
            seen@.len() == ctx@.orders.len(),
        ensures
            r == move_outcome_spec(ctx@, seen@, i as int),
            asks_unseen(seen@, r),
    {
        let o = ctx.order(i);
        let d = match o.move_dest() {
            None => {
                return Step::Done(AttackOutcome::NoPath);
            },
            Some(d) => d,
        };
        if d.is_in(o.region.province()) {
            return Step::Done(AttackOutcome::MoveToSelf);
        }
        match path_exists(ctx, seen, i) {
            Step::Need(j) => {
                return Step::Need(j);
            },
            Step::Done(false) => {
                return Step::Done(AttackOutcome::NoPath);
            },
            Step::Done(true) => {},
        }
        let atk: usize = match attack_strength(ctx, seen, i) {
            Step::Need(j) => {
                return Step::Need(j);
            },
            Step::Done(atk) => atk,
        };
        if atk == 0 {
            return Step::Done(AttackOutcome::FriendlyFire);
        }
        let res: usize = match resistance(ctx, seen, i) {
            Step::Need(j) => {
                return Step::Need(j);
            },
            Step::Done(res) => res,
        };
        if atk <= res {
            return Step::Done(
                if in_head_to_head(ctx, i) {
                    AttackOutcome::LostHeadToHead
                } else {
                    AttackOutcome::OccupierDefended
                },
            );
        }
        match first_preventer(ctx, seen, i, atk) {
            Step::Need(j) => Step::Need(j),
            Step::Done(Some(k)) => Step::Done(AttackOutcome::Prevented(k)),
            Step::Done(None) => Step::Done(AttackOutcome::Succeeds),
        }
    }

    /// What becomes of the unit at `i` that holds.
    pub fn adjudicate_hold(ctx: &ResolverContext<'_>, seen: &Vec<Option<bool>>, i: usize) -> (r:
        Step<HoldOutcome>)
        requires
            i < ctx@.orders.len(),
            seen@.len() == ctx@.orders.len(),
        ensures
            r == hold_outcome_spec(ctx@, seen@, i as int),
            asks_unseen(seen@, r),
    {
        match dislodger_of(ctx, seen, i) {
            Step::Need(j) => Step::Need(j),
            Step::Done(Some(d)) => Step::Done(HoldOutcome::Dislodged(d)),
            Step::Done(None) => Step::Done(HoldOutcome::Succeeds),
        }
    }

    /// What becomes of the support at `i`.
    pub fn adjudicate_support(ctx: &ResolverContext<'_>, seen: &Vec<Option<bool>>, i: usize) -> (r:
        Step<SupportOutcome>)
        requires
            i < ctx@.orders.len(),
            seen@.len() == ctx@.orders.len(),
        ensures
            r == support_outcome_spec(ctx@, seen@, i as int),
            asks_unseen(seen@, r),
    {
        if is_supporting_self(ctx.order(i)) {
            Step::Done(SupportOutcome::SupportingSelf)
        } else {
            match find_cutting_order(ctx, seen, i) {
                Step::Need(j) => Step::Need(j),
                Step::Done(Some(c)) => Step::Done(SupportOutcome::CutBy(c)),
                Step::Done(None) => match dislodger_of(ctx, seen, i) {
                    Step::Need(j) => Step::Need(j),
                    Step::Done(Some(d)) => Step::Done(SupportOutcome::CutBy(d)),
                    Step::Done(None) => Step::Done(SupportOutcome::NotDisrupted),
                },
            }
        }
    }

    /// What becomes of the convoy at `i`.
    pub fn adjudicate_convoy(
        ctx: &ResolverContext<'_>,
        paradox: &Vec<bool>,
        seen: &Vec<Option<bool>>,
        i: usize,
    ) -> (r: Step<ConvoyOutcome>)
        requires
            i < ctx@.orders.len(),
            seen@.len() == ctx@.orders.len(),
            paradox@.len() == ctx@.orders.len(),
        ensures
            r == convoy_outcome_spec(ctx@, paradox@, seen@, i as int),
            asks_unseen(seen@, r),
    {
        let o = ctx.order(i);
        let at_sea = match ctx.world_map().find_province(o.region.province()) {
            Some(province) => province.terrain == Terrain::Sea,
            None => false,
        };
        if o.unit_type != UnitType::Fleet || !at_sea {
            Step::Done(ConvoyOutcome::NotAtSea)
        } else if paradox[i] {
            Step::Done(ConvoyOutcome::Paradox)
        } else {
            match dislodger_of(ctx, seen, i) {
                Step::Need(j) => Step::Need(j),
                Step::Done(Some(d)) => Step::Done(ConvoyOutcome::Dislodged(d)),
                Step::Done(None) => Step::Done(ConvoyOutcome::NotDisrupted),
            }
        }
    }
}

impl Adjudicate for Rulebook {
    open spec fn decide(
        &self,
        cx: ContextView,
        paradox: Seq<bool>,
        seen: Seen,
        i: int,
    ) -> Step<OrderOutcome> {
        explain_spec(cx, paradox, seen, i)
    }

    fn explain(
        &self,
        ctx: &ResolverContext<'_>,
        paradox: &Vec<bool>,
        seen: &Vec<Option<bool>>,
        i: usize,
    ) -> (r: Step<OrderOutcome>) {
        match &ctx.order(i).command {
            MainCommand::Hold => match Rulebook::adjudicate_hold(ctx, seen, i) {
                Step::Need(j) => Step::Need(j),
                Step::Done(h) => Step::Done(OrderOutcome::Hold(h)),
            },
            MainCommand::Move(_) => match Rulebook::adjudicate_move(ctx, seen, i) {
                Step::Need(j) => Step::Need(j),
                Step::Done(m) => Step::Done(OrderOutcome::Move(m)),
            },
            MainCommand::Support(_) => match Rulebook::adjudicate_support(ctx, seen, i) {
                Step::Need(j) => Step::Need(j),
                Step::Done(s) => Step::Done(OrderOutcome::Support(s)),
            },
            MainCommand::Convoy(_) => match Rulebook::adjudicate_convoy(ctx, paradox, seen, i) {
                Step::Need(j) => Step::Need(j),
                Step::Done(c) => Step::Done(OrderOutcome::Convoy(c)),
            },
        }
    }

    fn adjudicate(
        &self,
        ctx: &ResolverContext<'_>,
        paradox: &Vec<bool>,
        seen: &Vec<Option<bool>>,
        i: usize,
    ) -> (r: Step<OrderState>) {
        match self.explain(ctx, paradox, seen, i) {
            Step::Need(j) => Step::Need(j),
            Step::Done(out) => Step::Done(
                if out.is_successful() {
                    OrderState::Succeeds
                } else {
                    OrderState::Fails
                },
            ),
        }
    }
}

} // verus!
