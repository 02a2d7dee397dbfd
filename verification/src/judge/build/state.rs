//! The state that a build phase resolves orders against.
use vstd::prelude::*;
use crate::geo::key::ProvinceKey;
use crate::judge::build::outcome::{clone_positions, clone_verdicts, find_verdict, OrderOutcome,
    verdict_in, verdicts_view};
use crate::judge::build::world::{has_nation, joined, joined_upto, nation_names, occupier_index,
    WorldState, WorldStateView};
use crate::nation::Nation;
use crate::order::{BuildCommand, BuildOrder, BuildOrderView};
use crate::seqs::{first_true, lemma_first_true_is, lemma_first_true_none};
use crate::unit::{positions_view, UnitPosition, UnitPositionView};

verus! {

/// What a nation may still do in this phase: build or disband, and how
/// many times.
#[derive(Debug)]
pub struct Adjustment {
    pub nation: Nation,
    pub command: BuildCommand,
    pub remaining: usize,
}

pub struct AdjustmentView {
    pub nation: Seq<u8>,
    pub command: BuildCommand,
    pub remaining: nat,
}

impl View for Adjustment {
    type V = AdjustmentView;

    open spec fn view(&self) -> AdjustmentView {
        AdjustmentView {
            nation: self.nation@,
            command: self.command,
            remaining: self.remaining as nat,
        }
    }
}

/// The views of a vector of adjustments.
pub open spec fn adjustments_view(data: Seq<Adjustment>) -> Seq<AdjustmentView> {
    Seq::new(data.len(), |i: int| data[i]@)
}

/// For each adjustment, whether it is the nation's.
pub open spec fn adjustment_mask(data: Seq<AdjustmentView>, nation: Seq<u8>) -> Seq<bool> {
    Seq::new(data.len(), |i: int| data[i].nation == nation)
}

/// The place of the nation's adjustment.
pub open spec fn adjustment_index(data: Seq<AdjustmentView>, nation: Seq<u8>) -> Option<int> {
    first_true(adjustment_mask(data, nation), 0)
}

/// The adjustments after the one at `a` was used once.
pub open spec fn debited(data: Seq<AdjustmentView>, a: int) -> Seq<AdjustmentView> {
    data.update(
        a,
        (AdjustmentView {
            nation: data[a].nation,
            command: data[a].command,
            remaining: (data[a].remaining - 1) as nat,
        }),
    )
}

/// For each unit, whether it is the given unit in the given region.
pub open spec fn same_unit_mask(live: Seq<UnitPositionView>, unit: UnitPositionView) -> Seq<bool> {
    Seq::new(live.len(), |i: int| live[i] == unit)
}

/// The units after `unit` was built: it is added at the end, unless its
/// nation is not in the game or the very unit stands there already.
pub open spec fn built(live: Seq<UnitPositionView>, nations: Seq<Seq<u8>>, unit: UnitPositionView)
    -> Seq<UnitPositionView> {
    if nations.contains(unit.nation) && first_true(same_unit_mask(live, unit), 0) is None {
        live.push(unit)
    } else {
        live
    }
}

/// The units after `unit` was disbanded: the first unit of that nation and
/// type in that region is taken out.
pub open spec fn disbanded(live: Seq<UnitPositionView>, unit: UnitPositionView) -> Seq<
    UnitPositionView,
> {
    match first_true(same_unit_mask(live, unit), 0) {
        Some(i) => live.remove(i),
        None => live,
    }
}

pub struct StateView {
    pub data: Seq<AdjustmentView>,
    pub verdicts: Seq<(BuildOrderView, OrderOutcome)>,
    pub nations: Seq<Seq<u8>>,
    pub live: Seq<UnitPositionView>,
}

/// Error when a unit cannot be built.
#[derive(Debug, Clone, Copy, PartialEq, Eq, Structural)]
pub enum BuildUnitError {
    /// The unit's nation is not in the game.
    UnknownNation,
}

/// What changes while a build phase is resolved: what each nation may still
/// do, the orders resolved so far, and the units on the board.
#[derive(Debug)]
pub struct ResolverState {
    data: Vec<Adjustment>,
    orders: Vec<(BuildOrder, OrderOutcome)>,
    nations: Vec<Nation>,
    live_units: Vec<UnitPosition>,
}

impl View for ResolverState {
    type V = StateView;

    closed spec fn view(&self) -> StateView {
        StateView {
            data: adjustments_view(self.data@),
            verdicts: verdicts_view(self.orders@),
            nations: nation_names(self.nations@),
            live: positions_view(self.live_units@),
        }
    }
}

impl ResolverState {
    /// The state at the start of a phase: no order resolved, the units where
    /// the world has them. The nations are those of the world and, after
    /// them, those of `entitled` that the world does not name.
    pub fn new(world: &WorldState, entitled: &Vec<Nation>, data: Vec<Adjustment>) -> (r:
        ResolverState)
        ensures
            r@ == (StateView {
                data: adjustments_view(data@),
                verdicts: Seq::empty(),
                nations: joined(world@.nations, nation_names(entitled@)),
                live: world@.units,
            }),
    {
        let mut nations: Vec<Nation> = Vec::new();
        let given = world.nations();
        let mut i: usize = 0;
        while i < given.len()
            invariant
                i <= given.len(),
                nations@.len() == i,
                forall|k: int| 0 <= k < i ==> (#[trigger] nations@[k])@ == given@[k]@,
            decreases given.len() - i,
        {
            nations.push(given[i].clone());
            i += 1;
        }
        let ghost base = nation_names(given@);
        let ghost extra = nation_names(entitled@);
        let mut k: usize = 0;
        while k < entitled.len()
            invariant
                k <= entitled.len(),
                extra == nation_names(entitled@),
                nation_names(nations@) == joined_upto(base, extra, k as int),
            decreases entitled.len() - k,
        {
            if !has_nation(&nations, &entitled[k]) {
                nations.push(entitled[k].clone());
            }
            k += 1;
        }
        let r = ResolverState {
            data,
            orders: Vec::new(),
            nations,
            live_units: clone_positions(world.unit_positions()),
        };
        assert(r@.verdicts =~= Seq::empty());
        r
    }

    /// What each nation may still do.
    pub fn data(&self) -> (r: &Vec<Adjustment>)
        ensures
            adjustments_view(r@) == self@.data,
    {
        &self.data
    }

    /// The place of the nation's adjustment.
    pub fn adjustment_index(&self, nation: &Nation) -> (r: Option<usize>)
        ensures
            r is Some == adjustment_index(self@.data, nation@) is Some,
            r is Some ==> r->0 == adjustment_index(self@.data, nation@)->0 && r->0
                < self@.data.len(),
    {
        let ghost mask = adjustment_mask(self@.data, nation@);
        let mut i: usize = 0;
        while i < self.data.len()
            invariant
                i <= self.data.len(),
                mask == adjustment_mask(self@.data, nation@),
                forall|j: int| 0 <= j < i ==> !mask[j],
            decreases self.data.len() - i,
        {
            if self.data[i].nation.eq(nation) {
                proof {
                    lemma_first_true_is(mask, 0, i as int);
                }
                return Some(i);
            }
            i += 1;
        }
        proof {
            lemma_first_true_none(mask, 0);
        }
        None
    }

    /// Uses the adjustment at `a` once.
    pub fn debit(&mut self, a: usize)
        requires
            a < old(self)@.data.len(),
            old(self)@.data[a as int].remaining > 0,
        ensures
            final(self)@ == (StateView { data: debited(old(self)@.data, a as int), ..old(self)@ }),
    {
        let ghost before = self@;
        let remaining: usize = self.data[a].remaining;
        let entry = Adjustment {
            nation: self.data[a].nation.clone(),
            command: self.data[a].command,
            remaining: remaining - 1,
        };
        self.data[a] = entry;
        assert(self@.data =~= debited(before.data, a as int));
    }

    /// The outcome under which the order was resolved, if it was.
    pub fn resolved(&self, order: &BuildOrder) -> (r: Option<OrderOutcome>)
        ensures
            r == verdict_in(self@.verdicts, order@),
    {
        find_verdict(&self.orders, order)
    }

    /// Notes the outcome of an order.
    pub fn record(&mut self, order: BuildOrder, outcome: OrderOutcome)
        ensures
            final(self)@ == (StateView {
                verdicts: old(self)@.verdicts.push((order@, outcome)),
                ..old(self)@
            }),
    {
        let ghost before = self@;
        let ghost ov = order@;
        self.orders.push((order, outcome));
        assert(self@.verdicts =~= before.verdicts.push((ov, outcome)));
    }

    /// Get the nation - if any - that currently has a unit in the specified
    /// province. This will change over the course of the phase resolution,
    /// since units are being created and disbanded.
    pub fn occupier(&self, province: &ProvinceKey) -> (r: Option<&Nation>)
        ensures
            r is Some == WorldStateView::occupier_in(self@.live, province@) is Some,
            r is Some ==> r->0@ == WorldStateView::occupier_in(self@.live, province@)->0,
    {
        match occupier_index(&self.live_units, province) {
            Some(i) => Some(&self.live_units[i].unit.nation),
            None => None,
        }
    }

    /// The place of the unit among the units on the board.
    fn unit_index(&self, unit: &UnitPosition) -> (r: Option<usize>)
        ensures
            r is Some == first_true(same_unit_mask(self@.live, unit@), 0) is Some,
            r is Some ==> r->0 == first_true(same_unit_mask(self@.live, unit@), 0)->0 && r->0
                < self@.live.len(),
    {
        let ghost mask = same_unit_mask(self@.live, unit@);
        let mut i: usize = 0;
        while i < self.live_units.len()
            invariant
                i <= self.live_units.len(),
                mask == same_unit_mask(self@.live, unit@),
                forall|j: int| 0 <= j < i ==> !mask[j],
            decreases self.live_units.len() - i,
        {
            let u = &self.live_units[i];
            if u.unit.nation.eq(&unit.unit.nation) && u.unit.unit_type == unit.unit.unit_type
                && u.region.eq(&unit.region) {
                proof {
                    lemma_first_true_is(mask, 0, i as int);
                }
                return Some(i);
            }
            i += 1;
        }
        proof {
            lemma_first_true_none(mask, 0);
        }
        None
    }

    /// Build a unit, adding it to the world.
    pub fn build_unit(&mut self, unit: UnitPosition) -> (r: Result<(), BuildUnitError>)
        ensures
            r is Ok == old(self)@.nations.contains(unit@.nation),
            final(self)@ == (StateView {
                live: built(old(self)@.live, old(self)@.nations, unit@),
                ..old(self)@
            }),
    {
        if !has_nation(&self.nations, &unit.unit.nation) {
            return Err(BuildUnitError::UnknownNation);
        }
        if self.unit_index(&unit).is_none() {
            let ghost before = self@;
            let ghost uv = unit@;
            self.live_units.push(unit);
            assert(self@.live =~= before.live.push(uv));
        }
        Ok(())
    }

    /// Disband a unit, removing it from the world.
    pub fn disband_unit(&mut self, unit: &UnitPosition) -> (r: bool)
        ensures
            r == first_true(same_unit_mask(old(self)@.live, unit@), 0) is Some,
            final(self)@ == (StateView { live: disbanded(old(self)@.live, unit@), ..old(self)@ }),
    {
        match self.unit_index(unit) {
            Some(i) => {
                let ghost before = self@;
                self.live_units.remove(i);
                assert(self@.live =~= before.live.remove(i as int));
                true
            },
            None => false,
        }
    }

    /// Takes the unit at a place off the board.
    pub fn remove_unit_at(&mut self, i: usize)
        requires
            i < old(self)@.live.len(),
        ensures
            final(self)@ == (StateView { live: old(self)@.live.remove(i as int), ..old(self)@ }),
    {
        let ghost before = self@;
        self.live_units.remove(i);
        assert(self@.live =~= before.live.remove(i as int));
    }

    /// Get the resolved build orders with their outcomes.
    pub fn to_order_outcomes(&self) -> (r: Vec<(BuildOrder, OrderOutcome)>)
        ensures
            verdicts_view(r@) == self@.verdicts,
    {
        clone_verdicts(&self.orders)
    }

    /// The units on the board.
    pub fn live_units(&self) -> (r: &Vec<UnitPosition>)
        ensures
            positions_view(r@) == self@.live,
    {
        &self.live_units
    }

    /// The units on the board.
    pub fn unit_positions(&self) -> (r: Vec<UnitPosition>)
        ensures
            positions_view(r@) == self@.live,
    {
        clone_positions(&self.live_units)
    }

    /// The unit that stands in the province, with its region.
    pub fn find_province_occupier(&self, province: &ProvinceKey) -> (r: Option<UnitPosition>)
        ensures
            r is Some == WorldStateView::occupier_index(self@.live, province@) is Some,
            r is Some ==> r->0@ == self@.live[WorldStateView::occupier_index(
                self@.live,
                province@,
            )->0],
    {
        match occupier_index(&self.live_units, province) {
            Some(i) => Some(self.live_units[i].clone()),
            None => None,
        }
    }
}

} // verus!
