//! Vanilla Diplomacy rules.
use vstd::prelude::*;
use crate::geo::key::ProvinceKey;
use crate::geo::map::{SupplyCenter, SupplyCenterView, WorldMap, WorldMapView};
use crate::judge::build::outcome::{OrderOutcome, Outcome, OutcomeView};
use crate::judge::build::resolver::{ContextView, ResolverContext};
use crate::judge::build::state::{Adjustment, adjustment_index, adjustments_view, AdjustmentView,
    debited, ResolverState, StateView};
use crate::judge::build::world::{has_nation, nation_names, Ownerships, with_owner, WorldStateView};
use crate::nation::Nation;
use crate::order::{BuildCommand, BuildOrder, BuildOrderView};
use crate::seqs::count_true;
use crate::unit::{distinct_provinces, Unit, UnitPosition};
use crate::variant::disorder::lemma_after_disorder_distinct;

verus! {

/// The home supply centers among the first `k` provinces of the board, each
/// with its nation.
pub open spec fn home_pairs_upto(map: WorldMapView, k: int) -> Seq<(Seq<u8>, Seq<u8>)>
    decreases k,
{
    if k <= 0 {
        Seq::empty()
    } else {
        match map.provinces[k - 1].supply_center {
            SupplyCenterView::Home(n) => home_pairs_upto(map, k - 1).push(
                (n, map.provinces[k - 1].name),
            ),
            _ => home_pairs_upto(map, k - 1),
        }
    }
}

/// The home supply centers of the board, each with its nation.
pub open spec fn home_pairs(map: WorldMapView) -> Seq<(Seq<u8>, Seq<u8>)> {
    home_pairs_upto(map, map.provinces.len() as int)
}

/// The nations with a home supply center among the first `k` provinces of
/// the board, each once, in the order in which the board names them.
pub open spec fn home_nations_upto(map: WorldMapView, k: int) -> Seq<Seq<u8>>
    decreases k,
{
    if k <= 0 {
        Seq::empty()
    } else {
        let rest = home_nations_upto(map, k - 1);
        match map.provinces[k - 1].supply_center {
            SupplyCenterView::Home(n) => if rest.contains(n) {
                rest
            } else {
                rest.push(n)
            },
            _ => rest,
        }
    }
}

/// The nations with a home supply center on the board.
pub open spec fn home_nations(map: WorldMapView) -> Seq<Seq<u8>> {
    home_nations_upto(map, map.provinces.len() as int)
}

/// Vanilla Diplomacy rules.
///
/// This rulebook works with arbitrary boards.
pub struct Standard {
    map: WorldMap,
    nations: Vec<Nation>,
}

impl Standard {
    /// The rules on the given board. The nations are those with a home
    /// supply center on it.
    pub fn new(map: WorldMap) -> (r: Standard)
        requires
            map.wf(),
        ensures
            r.map_view() == map@,
            r.nation_names() == home_nations(map@),
    {
        let mut nations: Vec<Nation> = Vec::new();
        let provinces = map.provinces();
        let mut i: usize = 0;
        while i < provinces.len()
            invariant
                i <= provinces.len(),
                provinces@.len() == map@.provinces.len(),
                forall|k: int| 0 <= k < provinces@.len() ==> (#[trigger] provinces@[k])@
                    == map@.provinces[k],
                nation_names(nations@) == home_nations_upto(map@, i as int),
            decreases provinces.len() - i,
        {
            match &provinces[i].supply_center {
                SupplyCenter::Home(nation) => {
                    if !has_nation(&nations, nation) {
                        nations.push(nation.clone());
                    }
                },
                _ => {},
            }
            i += 1;
        }
        Standard { map, nations }
    }

    /// The board of the variant, as plain values.
    pub closed spec fn map_view(&self) -> WorldMapView {
        self.map@
    }

    /// The names of the nations of the variant.
    pub closed spec fn nation_names(&self) -> Seq<Seq<u8>> {
        nation_names(self.nations@)
    }

    /// Get the map for the variant.
    pub fn map(&self) -> (r: &WorldMap)
        ensures
            r@ == self.map_view(),
    {
        &self.map
    }

    /// The nations of the variant.
    pub fn nations(&self) -> (r: &Vec<Nation>)
        ensures
            nation_names(r@) == self.nation_names(),
    {
        &self.nations
    }

    /// Initialize a build-phase judge from the variant.
    pub fn as_build_judge(&self) -> (r: StandardBuildJudge<'_>)
        ensures
            r@ == (JudgeView {
                map: self.map_view(),
                nations: self.nation_names(),
                home_scs: home_pairs(self.map_view()),
            }),
    {
        let mut home_scs: Vec<(Nation, ProvinceKey)> = Vec::new();
        let provinces = self.map.provinces();
        let mut i: usize = 0;
        while i < provinces.len()
            invariant
                i <= provinces.len(),
                provinces@.len() == self.map@.provinces.len(),
                forall|k: int| 0 <= k < provinces@.len() ==> (#[trigger] provinces@[k])@
                    == self.map@.provinces[k],
                pairs_view(home_scs@) == home_pairs_upto(self.map@, i as int),
            decreases provinces.len() - i,
        {
            match &provinces[i].supply_center {
                SupplyCenter::Home(nation) => {
                    home_scs.push((nation.clone(), provinces[i].short_name.clone()));
                },
                _ => {},
            }
            i += 1;
        }
        StandardBuildJudge { map: &self.map, nations: &self.nations, home_scs }
    }
}

/// The views of pairs of a nation and a province.
pub open spec fn pairs_view(pairs: Seq<(Nation, ProvinceKey)>) -> Seq<(Seq<u8>, Seq<u8>)> {
    Seq::new(pairs.len(), |i: int| (pairs[i].0@, pairs[i].1@))
}

pub struct JudgeView {
    pub map: WorldMapView,
    pub nations: Seq<Seq<u8>>,
    pub home_scs: Seq<(Seq<u8>, Seq<u8>)>,
}

impl JudgeView {
    /// Whether the province is a home supply center of the nation.
    pub open spec fn is_home(self, nation: Seq<u8>, province: Seq<u8>) -> bool {
        self.home_scs.contains((nation, province))
    }

    /// The owner of the province, where it is a nation of the variant.
    pub open spec fn known_owner(self, cx: ContextView, p: Seq<u8>) -> Option<Seq<u8>> {
        match cx.current_owner(p) {
            Some(n) => if self.nations.contains(n) {
                Some(n)
            } else {
                None
            },
            None => None,
        }
    }

    /// For each province, whether it is a supply center that the nation owns.
    pub open spec fn owned_mask(self, cx: ContextView, nation: Seq<u8>) -> Seq<bool> {
        Seq::new(
            self.map.provinces.len(),
            |i: int|
                self.map.provinces[i].is_supply_center() && cx.current_owner(
                    self.map.provinces[i].name,
                ) == Some(nation),
        )
    }

    /// The number of supply centers that the nation owns.
    pub open spec fn owned(self, cx: ContextView, nation: Seq<u8>) -> nat {
        count_true(self.owned_mask(cx, nation))
    }

    /// The supply centers that the nation owns, less its units.
    pub open spec fn delta(self, cx: ContextView, nation: Seq<u8>) -> int {
        self.owned(cx, nation) - cx.world.unit_count(nation)
    }

    /// What the nation may do: build where it owns more supply centers than
    /// it has units, disband where it has more units, nothing where the two
    /// are equal.
    pub open spec fn adjustment(self, cx: ContextView, nation: Seq<u8>) -> Option<AdjustmentView> {
        let delta = self.delta(cx, nation);
        if delta > 0 {
            Some(AdjustmentView { nation, command: BuildCommand::Build, remaining: delta as nat })
        } else if delta < 0 {
            Some(
                AdjustmentView {
                    nation,
                    command: BuildCommand::Disband,
                    remaining: (-delta) as nat,
                },
            )
        } else {
            None
        }
    }

    /// The adjustments of the first `k` nations of the variant.
    pub open spec fn initial_data_upto(self, cx: ContextView, k: int) -> Seq<AdjustmentView>
        decreases k,
    {
        if k <= 0 {
            Seq::empty()
        } else {
            match self.adjustment(cx, self.nations[k - 1]) {
                Some(a) => self.initial_data_upto(cx, k - 1).push(a),
                None => self.initial_data_upto(cx, k - 1),
            }
        }
    }

    /// What each nation of the variant may do in this phase.
    pub open spec fn initial_data(self, cx: ContextView) -> Seq<AdjustmentView> {
        self.initial_data_upto(cx, self.nations.len() as int)
    }

    /// The outcome of a build order against a state.
    pub open spec fn verdict(self, cx: ContextView, st: StateView, order: BuildOrderView)
        -> OrderOutcome {
        let province = order.region.province;
        match adjustment_index(st.data, order.nation) {
            None => OrderOutcome::RedeploymentProhibited,
            Some(a) => if order.command != st.data[a].command {
                OrderOutcome::RedeploymentProhibited
            } else {
                match order.command {
                    BuildCommand::Build => if !self.is_home(order.nation, province) {
                        OrderOutcome::InvalidProvince
                    } else if cx.current_owner(province) != Some(order.nation) {
                        OrderOutcome::ForeignControlled
                    } else if WorldStateView::occupier_in(st.live, province) is Some {
                        OrderOutcome::OccupiedProvince
                    } else {
                        match self.map.region_terrain(order.region) {
                            None => OrderOutcome::InvalidProvince,
                            Some(t) => if !order.unit_type.can_occupy_spec(t) {
                                OrderOutcome::InvalidTerrain
                            } else if st.data[a].remaining == 0 {
                                OrderOutcome::AllBuildsUsed
                            } else {
                                OrderOutcome::Succeeds
                            },
                        }
                    },
                    BuildCommand::Disband => match WorldStateView::occupier_in(st.live, province) {
                        None => OrderOutcome::DisbandingNonexistentUnit,
                        Some(n) => if n != order.nation {
                            OrderOutcome::DisbandingForeignUnit
                        } else if st.data[a].remaining == 0 {
                            OrderOutcome::AllDisbandsUsed
                        } else {
                            OrderOutcome::Succeeds
                        },
                    },
                }
            },
        }
    }

    /// The ownerships of the supply centers among the first `k` provinces:
    /// each belongs to its present owner, where that is a nation of the
    /// variant.
    pub open spec fn ownerships_upto(self, cx: ContextView, k: int) -> Seq<(Seq<u8>, Seq<u8>)>
        decreases k,
    {
        if k <= 0 {
            Seq::empty()
        } else {
            let rest = self.ownerships_upto(cx, k - 1);
            if self.map.provinces[k - 1].is_supply_center() {
                match self.known_owner(cx, self.map.provinces[k - 1].name) {
                    Some(n) => with_owner(rest, self.map.provinces[k - 1].name, n),
                    None => rest,
                }
            } else {
                rest
            }
        }
    }

    /// Who owns which supply center when the phase ends. The orders have no
    /// part in it.
    pub open spec fn ownerships(self, cx: ContextView) -> Seq<(Seq<u8>, Seq<u8>)> {
        self.ownerships_upto(cx, self.map.provinces.len() as int)
    }

    /// What the phase ends in, given the state that the orders left.
    pub open spec fn finished(self, cx: ContextView, st: StateView) -> OutcomeView {
        OutcomeView {
            orders: st.verdicts,
            sc_ownerships: self.ownerships(cx),
            final_units: self.after_disorder(st),
        }
    }
}

/// The judge of a build phase under the vanilla rules.
pub struct StandardBuildJudge<'a> {
    map: &'a WorldMap,
    nations: &'a Vec<Nation>,
    home_scs: Vec<(Nation, ProvinceKey)>,
}

impl<'a> View for StandardBuildJudge<'a> {
    type V = JudgeView;

    closed spec fn view(&self) -> JudgeView {
        JudgeView {
            map: self.map@,
            nations: nation_names(self.nations@),
            home_scs: pairs_view(self.home_scs@),
        }
    }
}

impl<'a> StandardBuildJudge<'a> {
    /// The board that the judge works on.
    pub fn map_ref(&self) -> (r: &'a WorldMap)
        ensures
            r@ == self@.map,
    {
        self.map
    }

    /// The nations of the variant.
    pub fn nations(&self) -> (r: &'a Vec<Nation>)
        ensures
            nation_names(r@) == self@.nations,
    {
        self.nations
    }

    /// The variant's own name for the nation, if it knows the nation.
    pub fn get_nation(&self, nation: &Nation) -> (r: Option<&'a Nation>)
        ensures
            r is Some == self@.nations.contains(nation@),
            r is Some ==> r->0@ == nation@,
    {
        let mut i: usize = 0;
        while i < self.nations.len()
            invariant
                i <= self.nations.len(),
                forall|j: int| 0 <= j < i ==> nation_names(self.nations@)[j] != nation@,
            decreases self.nations.len() - i,
        {
            if self.nations[i].eq(nation) {
                assert(nation_names(self.nations@)[i as int] == nation@);
                return Some(&self.nations[i]);
            }
            i += 1;
        }
        None
    }

    /// The position in the variant's own terms: `None` where the variant
    /// does not know the nation or the board lacks the region.
    pub fn try_preserve_position(&self, position: &UnitPosition) -> (r: Option<UnitPosition>)
        ensures
            r is Some == (self@.nations.contains(position@.nation) && self@.map.has_region(
                position@.region,
            )),
            r is Some ==> r->0@ == position@,
    {
        let nation = match self.get_nation(position.nation()) {
            Some(n) => n,
            None => {
                return None;
            },
        };
        let region = match self.map.find_region(&position.region) {
            Some(r) => r,
            None => {
                return None;
            },
        };
        Some(
            UnitPosition::new(
                Unit::new(nation.clone(), position.unit.unit_type()),
                region.key.clone(),
            ),
        )
    }

    /// The position in the variant's own terms, for a position whose nation
    /// the variant knows and whose region the board has.
    pub fn preserve_position(&self, position: &UnitPosition) -> (r: UnitPosition)
        requires
            self@.nations.contains(position@.nation),
            self@.map.has_region(position@.region),
        ensures
            r@ == position@,
    {
        match self.try_preserve_position(position) {
            Some(p) => p,
            None => position.clone(),
        }
    }

    /// Whether the province is a home supply center of the nation.
    pub fn is_home(&self, nation: &Nation, province: &ProvinceKey) -> (r: bool)
        ensures
            r == self@.is_home(nation@, province@),
    {
        let mut i: usize = 0;
        while i < self.home_scs.len()
            invariant
                i <= self.home_scs.len(),
                forall|j: int| 0 <= j < i ==> pairs_view(self.home_scs@)[j] != (nation@, province@),
            decreases self.home_scs.len() - i,
        {
            if self.home_scs[i].0.eq(nation) && self.home_scs[i].1.eq(province) {
                assert(pairs_view(self.home_scs@)[i as int] == (nation@, province@));
                return true;
            }
            i += 1;
        }
        false
    }

    /// The number of supply centers that the nation owns.
    pub fn count_owned(&self, context: &ResolverContext<'_>, nation: &Nation) -> (r: usize)
        ensures
            r == self@.owned(context@, nation@),
    {
        let ghost mask = self@.owned_mask(context@, nation@);
        let provinces = self.map.provinces();
        let mut count: usize = 0;
        let mut i: usize = 0;
        while i < provinces.len()
            invariant
                i <= provinces.len(),
                provinces@.len() == self@.map.provinces.len(),
                forall|k: int| 0 <= k < provinces@.len() ==> (#[trigger] provinces@[k])@
                    == self@.map.provinces[k],
                mask == self@.owned_mask(context@, nation@),
                count == count_true(mask.take(i as int)),
                count <= i,
            decreases provinces.len() - i,
        {
            proof {
                assert(mask.take(i as int + 1).drop_last() =~= mask.take(i as int));
            }
            if provinces[i].is_supply_center() {
                match context.current_owner(&provinces[i].short_name) {
                    Some(owner) => {
                        if owner.eq(nation) {
                            count += 1;
                        }
                    },
                    None => {},
                }
            }
            i += 1;
        }
        assert(mask.take(provinces@.len() as int) =~= mask);
        count
    }

    /// What each nation of the variant may do in this phase: it counts the
    /// supply centers that the nation owns against its units.
    pub fn initialize(&self, context: &ResolverContext<'_>) -> (r: Vec<Adjustment>)
        ensures
            adjustments_view(r@) == self@.initial_data(context@),
    {
        let mut out: Vec<Adjustment> = Vec::new();
        let mut i: usize = 0;
        while i < self.nations.len()
            invariant
                i <= self.nations.len(),
                adjustments_view(out@) == self@.initial_data_upto(context@, i as int),
            decreases self.nations.len() - i,
        {
            let nation = &self.nations[i];
            let owned: usize = self.count_owned(context, nation);
            let units: usize = context.unit_count(nation);
            if owned > units {
                out.push(
                    Adjustment {
                        nation: nation.clone(),
                        command: BuildCommand::Build,
                        remaining: owned - units,
                    },
                );
            } else if owned < units {
                out.push(
                    Adjustment {
                        nation: nation.clone(),
                        command: BuildCommand::Disband,
                        remaining: units - owned,
                    },
                );
            }
            i += 1;
        }
        out
    }

    /// Adjudicate a single build-phase order, returning its outcome. Orders
    /// are passed to this function in the order they are received. Where the
    /// order succeeds, the nation is debited; the unit is untouched.
    pub fn adjudicate(
        &self,
        context: &ResolverContext<'_>,
        state: &mut ResolverState,
        order: &BuildOrder,
    ) -> (r: OrderOutcome)
        ensures
            r == self@.verdict(context@, old(state)@, order@),
            r == OrderOutcome::Succeeds ==> adjustment_index(old(state)@.data, order@.nation)
                is Some && final(state)@ == (StateView {
                data: debited(
                    old(state)@.data,
                    adjustment_index(old(state)@.data, order@.nation)->0,
                ),
                ..old(state)@
            }),
            r != OrderOutcome::Succeeds ==> final(state)@ == old(state)@,
    {
        let province = order.region.province();
        let a: usize = match state.adjustment_index(&order.nation) {
            Some(a) => a,
            None => {
                return OrderOutcome::RedeploymentProhibited;
            },
        };
        let data = state.data();
        let allowed = data[a].command;
        let remaining: usize = data[a].remaining;
        if order.command != allowed {
            return OrderOutcome::RedeploymentProhibited;
        }
        match order.command {
            BuildCommand::Build => {
                if !self.is_home(&order.nation, province) {
                    return OrderOutcome::InvalidProvince;
                }
                let owned = match context.current_owner(province) {
                    Some(owner) => owner.eq(&order.nation),
                    None => false,
                };
                if !owned {
                    return OrderOutcome::ForeignControlled;
                }
                if state.occupier(province).is_some() {
                    return OrderOutcome::OccupiedProvince;
                }
                let region = match self.map.find_region(&order.region) {
                    Some(region) => region,
                    None => {
                        return OrderOutcome::InvalidProvince;
                    },
                };
                if !order.unit_type.can_occupy(region.terrain()) {
                    return OrderOutcome::InvalidTerrain;
                }
                if remaining == 0 {
                    return OrderOutcome::AllBuildsUsed;
                }
                state.debit(a);
                OrderOutcome::Succeeds
            },
            BuildCommand::Disband => {
                let own = match state.occupier(province) {
                    None => {
                        return OrderOutcome::DisbandingNonexistentUnit;
                    },
                    Some(nation) => nation.eq(&order.nation),
                };
                if !own {
                    return OrderOutcome::DisbandingForeignUnit;
                }
                if remaining == 0 {
                    return OrderOutcome::AllDisbandsUsed;
                }
                state.debit(a);
                OrderOutcome::Succeeds
            },
        }
    }

    /// Who owns which supply center when the phase ends.
    pub fn final_ownerships(&self, context: &ResolverContext<'_>) -> (r: Ownerships)
        ensures
            r@ == self@.ownerships(context@),
    {
        let mut out = Ownerships::new();
        let provinces = self.map.provinces();
        let mut i: usize = 0;
        while i < provinces.len()
            invariant
                i <= provinces.len(),
                provinces@.len() == self@.map.provinces.len(),
                forall|k: int| 0 <= k < provinces@.len() ==> (#[trigger] provinces@[k])@
                    == self@.map.provinces[k],
                out@ == self@.ownerships_upto(context@, i as int),
            decreases provinces.len() - i,
        {
            if provinces[i].is_supply_center() {
                match context.current_owner(&provinces[i].short_name) {
                    Some(owner) => {
                        match self.get_nation(owner) {
                            Some(nation) => {
                                out.insert(provinces[i].short_name.clone(), nation.clone());
                            },
                            None => {},
                        }
                    },
                    None => {},
                }
            }
            i += 1;
        }
        out
    }

    /// Complete a build-phase adjudication: it forcibly disbands what is
    /// needed to bring each nation's units down to what it can keep, and
    /// says who owns which supply center.
    pub fn finish(&self, context: &ResolverContext<'_>, state: ResolverState) -> (r: Outcome)
        requires
            self@.map.wf(),
            distinct_provinces(state@.live),
        ensures
            r@ == self@.finished(context@, state@),
            distinct_provinces(r@.final_units),
    {
        let mut state = state;
        let sc_ownerships = self.final_ownerships(context);
        proof {
            lemma_after_disorder_distinct(
                self@,
                state@.data,
                state@.live,
                state@.data.len() as int,
            );
        }
        self.disband_in_disorder(&mut state);
        let result = Outcome::new(state.to_order_outcomes(), sc_ownerships, state.unit_positions());
        match result {
            Ok(outcome) => outcome,
            Err(_) => {
                proof {
                    assert(false);
                }
                vstd::pervasive::unreached()
            },
        }
    }
}

} // verus!
