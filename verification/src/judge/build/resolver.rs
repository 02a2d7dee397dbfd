//! The immutable pieces of a build-phase order resolution, and the
//! resolution itself.
use vstd::prelude::*;
use crate::geo::key::ProvinceKey;
use crate::judge::build::outcome::{about_mask, OrderOutcome, Outcome, OutcomeView, verdict_in};
use crate::judge::build::state::{adjustment_index, built, debited, disbanded, ResolverState,
    same_unit_mask, StateView};
use crate::judge::build::world::{joined, nation_names, owner_in, Ownerships, WorldState,
    WorldStateView};
use crate::nation::Nation;
use crate::order::{BuildCommand, BuildOrder, BuildOrderView};
use crate::seqs::{lemma_first_true, lemma_first_true_is};
use crate::unit::{distinct_provinces, Unit, UnitPosition, UnitPositionView};
use crate::variant::standard::{JudgeView, StandardBuildJudge};

verus! {

pub struct ContextView {
    pub rules: JudgeView,
    pub last_time: Seq<(Seq<u8>, Seq<u8>)>,
    pub world: WorldStateView,
    pub orders: Seq<BuildOrderView>,
}

/// The unit that a build order names.
pub open spec fn unit_of(order: BuildOrderView) -> UnitPositionView {
    UnitPositionView { nation: order.nation, unit_type: order.unit_type, region: order.region }
}

impl ContextView {
    /// The nation that owns the province now: the one with a unit there,
    /// else the one that owned it last.
    pub open spec fn current_owner(self, p: Seq<u8>) -> Option<Seq<u8>> {
        match self.world.occupier(p) {
            Some(n) => Some(n),
            None => owner_in(self.last_time, p),
        }
    }

    /// The state before any order is resolved: each nation of the rules may
    /// do what its supply centers and units allow, and the units stand
    /// where the world has them. The nations in the game are those of the
    /// world and those of the rules.
    pub open spec fn initial_state(self) -> StateView {
        StateView {
            data: self.rules.initial_data(self),
            verdicts: Seq::empty(),
            nations: joined(self.world.nations, self.rules.nations),
            live: self.world.units,
        }
    }

    /// The state after one more order: an order that was resolved before
    /// changes nothing; another gets its outcome and, where it succeeds, the
    /// nation is debited and the unit is built or disbanded.
    pub open spec fn after(self, st: StateView, order: BuildOrderView) -> StateView {
        match verdict_in(st.verdicts, order) {
            Some(_) => st,
            None => {
                let v = self.rules.verdict(self, st, order);
                if v == OrderOutcome::Succeeds {
                    StateView {
                        data: debited(st.data, adjustment_index(st.data, order.nation)->0),
                        verdicts: st.verdicts.push((order, v)),
                        nations: st.nations,
                        live: match order.command {
                            BuildCommand::Build => built(st.live, st.nations, unit_of(order)),
                            BuildCommand::Disband => disbanded(st.live, unit_of(order)),
                        },
                    }
                } else {
                    StateView { verdicts: st.verdicts.push((order, v)), ..st }
                }
            },
        }
    }

    /// The state after the first `k` orders, taken in the order in which
    /// they were submitted.
    pub open spec fn run_upto(self, k: int) -> StateView
        decreases k,
    {
        if k <= 0 {
            self.initial_state()
        } else {
            self.after(self.run_upto(k - 1), self.orders[k - 1])
        }
    }

    /// The state after all orders.
    pub open spec fn run(self) -> StateView {
        self.run_upto(self.orders.len() as int)
    }

    /// What the phase ends in.
    pub open spec fn outcome(self) -> OutcomeView {
        self.rules.finished(self, self.run())
    }

    /// The board is well formed and no two units stand in one province.
    pub open spec fn wf(self) -> bool {
        &&& self.rules.map.wf()
        &&& self.world.wf()
        &&& self.last_time.len() > 0
    }
}

/// The immutable pieces of a build-phase order resolution.
pub struct ResolverContext<'a> {
    last_time: &'a Ownerships,
    this_time: &'a WorldState,
    rules: StandardBuildJudge<'a>,
    orders: Vec<&'a BuildOrder>,
}

/// The views of a vector of orders.
pub open spec fn orders_view(orders: Seq<&BuildOrder>) -> Seq<BuildOrderView> {
    Seq::new(orders.len(), |i: int| orders[i]@)
}

impl<'a> View for ResolverContext<'a> {
    type V = ContextView;

    closed spec fn view(&self) -> ContextView {
        ContextView {
            rules: self.rules@,
            last_time: self.last_time@,
            world: self.this_time@,
            orders: orders_view(self.orders@),
        }
    }
}

impl<'a> ResolverContext<'a> {
    /// At least one supply center was owned last time: without one no
    /// context exists, so that no phase is resolved.
    #[verifier::type_invariant]
    spec fn seeded(self) -> bool {
        self.last_time@.len() > 0
    }

    /// Create a new context for resolution.
    ///
    /// # First Winter
    /// The first build phase of the game should pass the initial supply center
    /// ownerships to `last_time` to ensure the resolver knows
    /// never-since-occupied home SCs belong to their home power. At least one
    /// supply center must have been owned by at least one nation.
    pub fn new(
        rules: StandardBuildJudge<'a>,
        last_time: &'a Ownerships,
        this_time: &'a WorldState,
        orders: Vec<&'a BuildOrder>,
    ) -> (r: ResolverContext<'a>)
        requires
            last_time@.len() > 0,
        ensures
            r@ == (ContextView {
                rules: rules@,
                last_time: last_time@,
                world: this_time@,
                orders: orders_view(orders@),
            }),
    {
        ResolverContext { rules, last_time, this_time, orders }
    }

    /// Create a new context for resolution, unless no supply center was
    /// owned last time: without one the phase cannot be resolved.
    pub fn try_new(
        rules: StandardBuildJudge<'a>,
        last_time: &'a Ownerships,
        this_time: &'a WorldState,
        orders: Vec<&'a BuildOrder>,
    ) -> (r: Option<ResolverContext<'a>>)
        ensures
            r is Some == (last_time@.len() > 0),
            r is Some ==> r->0@ == (ContextView {
                rules: rules@,
                last_time: last_time@,
                world: this_time@,
                orders: orders_view(orders@),
            }),
    {
        if last_time.is_empty() {
            None
        } else {
            Some(ResolverContext::new(rules, last_time, this_time, orders))
        }
    }

    /// Who owned which supply center last time. At least one was owned.
    pub fn last_time(&self) -> (r: &'a Ownerships)
        ensures
            r@ == self@.last_time,
            r@.len() > 0,
    {
        proof {
            use_type_invariant(self);
        }
        self.last_time
    }

    /// Resolves a build phase, unless no supply center was owned last time:
    /// the phase then cannot be resolved, no order is judged, and nothing
    /// is returned.
    pub fn resolve_phase(
        rules: StandardBuildJudge<'a>,
        last_time: &'a Ownerships,
        this_time: &'a WorldState,
        orders: Vec<&'a BuildOrder>,
    ) -> (r: Option<Outcome>)
        requires
            rules@.map.wf(),
            this_time.wf(),
        ensures
            r is Some == (last_time@.len() > 0),
            r is Some ==> r->0@ == (ContextView {
                rules: rules@,
                last_time: last_time@,
                world: this_time@,
                orders: orders_view(orders@),
            }).outcome() && distinct_provinces(r->0@.final_units),
    {
        match ResolverContext::try_new(rules, last_time, this_time, orders) {
            Some(context) => Some(context.resolve()),
            None => None,
        }
    }

    /// The rules that judge the phase.
    pub fn rules(&self) -> (r: &StandardBuildJudge<'a>)
        ensures
            r@ == self@.rules,
    {
        &self.rules
    }

    /// The nation that owns the province now: the one with a unit there,
    /// else the one that owned it last.
    pub fn current_owner(&self, province: &ProvinceKey) -> (r: Option<&Nation>)
        ensures
            r is Some == self@.current_owner(province@) is Some,
            r is Some ==> r->0@ == self@.current_owner(province@)->0,
    {
        match self.this_time.occupier(province) {
            Some(n) => Some(n),
            None => self.last_time.get(province),
        }
    }

    /// The nations in the game.
    pub fn nations(&self) -> (r: &Vec<Nation>)
        ensures
            nation_names(r@) == self@.world.nations,
    {
        self.this_time.nations()
    }

    /// The nation with a unit in the province before the phase.
    pub fn occupier(&self, province: &ProvinceKey) -> (r: Option<&Nation>)
        ensures
            r is Some == self@.world.occupier(province@) is Some,
            r is Some ==> r->0@ == self@.world.occupier(province@)->0,
    {
        self.this_time.occupier(province)
    }

    /// The number of units of the nation before the phase.
    pub fn unit_count(&self, nation: &Nation) -> (r: usize)
        ensures
            r == self@.world.unit_count(nation@),
    {
        self.this_time.unit_count(nation)
    }

    /// Resolves one order against the state: an order that was resolved
    /// before keeps its outcome; another is judged, noted and, where it
    /// succeeds, carried out.
    pub fn resolve_order(&self, state: &mut ResolverState, order: &BuildOrder) -> (r: OrderOutcome)
        ensures
            final(state)@ == self@.after(old(state)@, order@),
            Some(r) == verdict_in(final(state)@.verdicts, order@),
    {
        let ghost before = state@;
        match state.resolved(order) {
            Some(outcome) => {
                return outcome;
            },
            None => {},
        }
        let outcome = self.rules.adjudicate(self, state, order);
        state.record(order.clone(), outcome);
        proof {
            let t = state@.verdicts;
            let mask = about_mask(t, order@);
            let old_mask = about_mask(before.verdicts, order@);
            lemma_first_true(old_mask, 0);
            assert forall|j: int| 0 <= j < before.verdicts.len() implies !mask[j] by {
                assert(!old_mask[j]);
            }
            lemma_first_true_is(mask, 0, before.verdicts.len() as int);
        }
        if outcome == OrderOutcome::Succeeds {
            let unit = UnitPosition::new(
                Unit::new(order.nation.clone(), order.unit_type),
                order.region.clone(),
            );
            match order.command {
                BuildCommand::Build => {
                    let _ = state.build_unit(unit);
                },
                BuildCommand::Disband => {
                    state.disband_unit(&unit);
                },
            }
        }
        outcome
    }

    /// Resolves the phase: the orders are judged in the order in which they
    /// were submitted, each against what the earlier ones left, and the
    /// rules then finish the phase.
    pub fn resolve(&self) -> (r: Outcome)
        requires
            self@.wf(),
        ensures
            r@ == self@.outcome(),
            distinct_provinces(r@.final_units),
    {
        let mut state = ResolverState::new(
            self.this_time,
            self.rules.nations(),
            self.rules.initialize(self),
        );
        let mut i: usize = 0;
        while i < self.orders.len()
            invariant
                i <= self.orders.len(),
                state@ == self@.run_upto(i as int),
            decreases self.orders.len() - i,
        {
            self.resolve_order(&mut state, self.orders[i]);
            i += 1;
        }
        proof {
            lemma_run_distinct(self@, self.orders@.len() as int);
        }
        self.rules.finish(self, state)
    }
}

/// One more order leaves the units in distinct provinces.
pub proof fn lemma_after_distinct(cx: ContextView, st: StateView, order: BuildOrderView)
    requires
        distinct_provinces(st.live),
    ensures
        distinct_provinces(cx.after(st, order).live),
{
    let next = cx.after(st, order);
    if verdict_in(st.verdicts, order) is None && cx.rules.verdict(cx, st, order)
        == OrderOutcome::Succeeds {
        let unit = unit_of(order);
        match order.command {
            BuildCommand::Build => {
                let mask = WorldStateView::in_province_mask(st.live, order.region.province);
                lemma_first_true(mask, 0);
                if next.live != st.live {
                    assert forall|a: int, b: int| 0 <= a < b < next.live.len() implies next.live[a].region.province
                        != next.live[b].region.province by {
                        if b == st.live.len() {
                            assert(!mask[a]);
                        }
                    }
                }
            },
            BuildCommand::Disband => {
                let mask = same_unit_mask(st.live, unit);
                lemma_first_true(mask, 0);
            },
        }
    }
}

/// The orders leave the units in distinct provinces.
pub proof fn lemma_run_distinct(cx: ContextView, k: int)
    requires
        cx.world.wf(),
    ensures
        distinct_provinces(cx.run_upto(k).live),
    decreases k,
{
    if k > 0 {
        lemma_run_distinct(cx, k - 1);
        lemma_after_distinct(cx, cx.run_upto(k - 1), cx.orders[k - 1]);
    }
}

} // verus!
