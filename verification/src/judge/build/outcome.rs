//! What a build phase ends in.
use vstd::prelude::*;
use vstd::std_specs::convert::FromSpecImpl;
use crate::geo::key::{ProvinceKey, RegionKey, RegionName};
use crate::judge::OrderState;
use crate::judge::build::world::{occupier_index, Ownerships, WorldStateView};
use crate::order::{BuildOrder, BuildOrderView};
use crate::seqs::{first_true, lemma_first_true, lemma_first_true_is, lemma_first_true_none};
use crate::unit::{distinct_provinces, positions_view, Unit, UnitPosition, UnitPositionView};

verus! {

/// The outcome of a build-turn order.
#[derive(Debug, Copy, Clone, PartialEq, Eq, Structural)]
pub enum OrderOutcome {
    /// The build or disband order was successful, resulting in a change in units
    /// in the world.
    Succeeds,
    /// A nation cannot issue "build" and "disband" commands in the same turn,
    /// as this would constitute an illegal teleportation of power from the
    /// disbanding region to the building region.
    RedeploymentProhibited,
    /// The build command was to a province where the issuing nation cannot build.
    InvalidProvince,
    /// The build command was to a home SC for the issuing power, but another
    /// power currently controls it.
    ForeignControlled,
    /// Build failed because the target province already has a friendly unit in it.
    OccupiedProvince,
    /// The build command is to a region that the unit type cannot occupy.
    InvalidTerrain,
    /// Disband failed because no unit exists at that location.
    DisbandingNonexistentUnit,
    /// Disband failed because the issuing power does not control the unit at that location.
    DisbandingForeignUnit,
    /// The issuing nation has already had as many successful builds as they are allowed.
    AllBuildsUsed,
    /// The issuing nation has already had as many successful disbands as they are allowed.
    AllDisbandsUsed,
}

impl OrderOutcome {
    /// The plain state of the order, `Succeeds` for `Succeeds`, `Fails` for every
    /// other outcome.
    pub open spec fn state(self) -> OrderState {
        if self == OrderOutcome::Succeeds {
            OrderState::Succeeds
        } else {
            OrderState::Fails
        }
    }
}

impl From<OrderOutcome> for OrderState {
    fn from(outcome: OrderOutcome) -> (r: OrderState) {
        if outcome == OrderOutcome::Succeeds {
            OrderState::Succeeds
        } else {
            OrderState::Fails
        }
    }
}

impl FromSpecImpl<OrderOutcome> for OrderState {
    open spec fn obeys_from_spec() -> bool {
        true
    }

    open spec fn from_spec(outcome: OrderOutcome) -> OrderState {
        outcome.state()
    }
}

/// Error when a build-phase outcome blocks continuation of the game.
#[derive(Debug)]
pub enum OutcomeError {
    /// Two units stand in the province.
    MultipleUnitsInSameProvince(ProvinceKey),
}

impl Clone for OutcomeError {
    fn clone(&self) -> (r: OutcomeError)
        ensures
            r.province()@ == self.province()@,
    {
        match self {
            OutcomeError::MultipleUnitsInSameProvince(p) => {
                OutcomeError::MultipleUnitsInSameProvince(p.clone())
            },
        }
    }
}

impl OutcomeError {
    /// The province that the error is about.
    pub open spec fn province(&self) -> ProvinceKey {
        match self {
            OutcomeError::MultipleUnitsInSameProvince(p) => *p,
        }
    }
}

/// The views of orders with their outcomes.
pub open spec fn verdicts_view(orders: Seq<(BuildOrder, OrderOutcome)>) -> Seq<
    (BuildOrderView, OrderOutcome),
> {
    Seq::new(orders.len(), |i: int| (orders[i].0@, orders[i].1))
}

/// For each entry, whether it is about the order.
pub open spec fn about_mask(s: Seq<(BuildOrderView, OrderOutcome)>, order: BuildOrderView) -> Seq<
    bool,
> {
    Seq::new(s.len(), |i: int| s[i].0 == order)
}

/// The outcome that the first entry about the order gives.
pub open spec fn verdict_in(s: Seq<(BuildOrderView, OrderOutcome)>, order: BuildOrderView)
    -> Option<OrderOutcome> {
    match first_true(about_mask(s, order), 0) {
        Some(i) => Some(s[i].1),
        None => None,
    }
}

/// For each unit, whether an earlier unit stands in its province.
pub open spec fn clash_mask(units: Seq<UnitPositionView>) -> Seq<bool> {
    Seq::new(
        units.len(),
        |j: int| exists|i: int| 0 <= i < j && units[i].region.province == units[j].region.province,
    )
}

/// The place of the first unit that stands where an earlier unit stands.
pub open spec fn first_clash(units: Seq<UnitPositionView>) -> Option<int> {
    first_true(clash_mask(units), 0)
}

/// Units clash exactly when two of them share a province.
pub proof fn lemma_first_clash(units: Seq<UnitPositionView>)
    ensures
        first_clash(units) is None == distinct_provinces(units),
{
    lemma_first_true(clash_mask(units), 0);
    if first_clash(units) is None {
        assert forall|i: int, j: int| 0 <= i < j < units.len() implies units[i].region.province
            != units[j].region.province by {
            assert(!clash_mask(units)[j]);
        }
    } else {
    }
}

pub struct OutcomeView {
    pub orders: Seq<(BuildOrderView, OrderOutcome)>,
    pub sc_ownerships: Seq<(Seq<u8>, Seq<u8>)>,
    pub final_units: Seq<UnitPositionView>,
}

/// The outcome of a build phase: what became of each order, who owns which
/// supply center, and where the units stand for the next phase. No two of
/// the units stand in one province.
#[derive(Debug)]
pub struct Outcome {
    orders: Vec<(BuildOrder, OrderOutcome)>,
    sc_ownerships: Ownerships,
    final_units: Vec<UnitPosition>,
}

impl View for Outcome {
    type V = OutcomeView;

    closed spec fn view(&self) -> OutcomeView {
        OutcomeView {
            orders: verdicts_view(self.orders@),
            sc_ownerships: self.sc_ownerships@,
            final_units: positions_view(self.final_units@),
        }
    }
}

/// Whether an earlier unit than the one at `j` stands in its province.
fn clashes_with_earlier(units: &Vec<UnitPosition>, j: usize) -> (r: bool)
    requires
        j < units@.len(),
    ensures
        r == clash_mask(positions_view(units@))[j as int],
{
    let mut i: usize = 0;
    while i < j
        invariant
            i <= j < units@.len(),
            forall|a: int|
                0 <= a < i ==> positions_view(units@)[a].region.province != positions_view(
                    units@,
                )[j as int].region.province,
        decreases j - i,
    {
        if units[i].region.province().eq(units[j].region.province()) {
            assert(positions_view(units@)[i as int].region.province == positions_view(
                units@,
            )[j as int].region.province);
            return true;
        }
        i += 1;
    }
    false
}

impl Outcome {
    /// No two of the units stand in one province.
    #[verifier::type_invariant]
    spec fn units_apart(self) -> bool {
        distinct_provinces(positions_view(self.final_units@))
    }

    /// Create a new build phase outcome with order outcomes, updated supply center
    /// ownerships, and the positions of units for the next phase.
    ///
    /// # Errors
    /// This function will return an error if multiple units are in the same
    /// province: the error names the province of the first unit that stands
    /// where an earlier one stands.
    pub fn new(
        orders: Vec<(BuildOrder, OrderOutcome)>,
        sc_ownerships: Ownerships,
        units: Vec<UnitPosition>,
    ) -> (r: Result<Outcome, OutcomeError>)
        ensures
            r is Ok == distinct_provinces(positions_view(units@)),
            r is Ok ==> r->Ok_0@ == (OutcomeView {
                orders: verdicts_view(orders@),
                sc_ownerships: sc_ownerships@,
                final_units: positions_view(units@),
            }),
            r is Err ==> first_clash(positions_view(units@)) is Some && r->Err_0.province()@
                == positions_view(units@)[first_clash(
                positions_view(units@),
            )->0].region.province,
    {
        let ghost pv = positions_view(units@);
        let ghost mask = clash_mask(pv);
        let mut j: usize = 0;
        while j < units.len()
            invariant
                j <= units.len(),
                pv == positions_view(units@),
                mask == clash_mask(pv),
                forall|a: int| 0 <= a < j ==> !mask[a],
            decreases units.len() - j,
        {
            if clashes_with_earlier(&units, j) {
                proof {
                    lemma_first_true_is(mask, 0, j as int);
                }
                return Err(
                    OutcomeError::MultipleUnitsInSameProvince(units[j].region.province().clone()),
                );
            }
            j += 1;
        }
        proof {
            lemma_first_true_none(mask, 0);
            lemma_first_clash(pv);
        }
        Ok(Outcome { orders, sc_ownerships, final_units: units })
    }

    /// Get the outcome of a specific order.
    pub fn get(&self, order: &BuildOrder) -> (r: Option<OrderOutcome>)
        ensures
            r == verdict_in(self@.orders, order@),
    {
        find_verdict(&self.orders, order)
    }

    /// Get all submitted orders and their outcomes.
    pub fn orders(&self) -> (r: &Vec<(BuildOrder, OrderOutcome)>)
        ensures
            verdicts_view(r@) == self@.orders,
    {
        &self.orders
    }

    /// Who owns which supply center after the phase.
    pub fn sc_ownerships(&self) -> (r: &Ownerships)
        ensures
            r@ == self@.sc_ownerships,
    {
        &self.sc_ownerships
    }

    /// Where the units stand for the next phase. No two stand in one province.
    pub fn unit_positions(&self) -> (r: Vec<UnitPosition>)
        ensures
            positions_view(r@) == self@.final_units,
            distinct_provinces(positions_view(r@)),
    {
        proof {
            use_type_invariant(self);
        }
        clone_positions(&self.final_units)
    }

    /// The unit that stands in the province, with its region.
    pub fn find_province_occupier(&self, province: &ProvinceKey) -> (r: Option<UnitPosition>)
        ensures
            r is Some == WorldStateView::occupier_index(self@.final_units, province@) is Some,
            r is Some ==> r->0@ == self@.final_units[WorldStateView::occupier_index(
                self@.final_units,
                province@,
            )->0],
    {
        match occupier_index(&self.final_units, province) {
            Some(i) => Some(self.final_units[i].clone()),
            None => None,
        }
    }

    /// The unit that stands in the region.
    pub fn find_region_occupier(&self, region: &RegionKey) -> (r: Option<Unit>)
        ensures
            r is Some == first_true(in_region_mask(self@.final_units, region@), 0) is Some,
            r is Some ==> ({
                let i = first_true(in_region_mask(self@.final_units, region@), 0)->0;
                r->0.nation@ == self@.final_units[i].nation && r->0.unit_type
                    == self@.final_units[i].unit_type
            }),
    {
        let ghost mask = in_region_mask(self@.final_units, region@);
        let mut i: usize = 0;
        while i < self.final_units.len()
            invariant
                i <= self.final_units.len(),
                mask == in_region_mask(self@.final_units, region@),
                forall|j: int| 0 <= j < i ==> !mask[j],
            decreases self.final_units.len() - i,
        {
            if self.final_units[i].region.eq(region) {
                proof {
                    lemma_first_true_is(mask, 0, i as int);
                }
                return Some(self.final_units[i].unit.clone());
            }
            i += 1;
        }
        proof {
            lemma_first_true_none(mask, 0);
        }
        None
    }
}

/// For each unit, whether it stands in the region.
pub open spec fn in_region_mask(units: Seq<UnitPositionView>, r: RegionName)
    -> Seq<bool> {
    Seq::new(units.len(), |i: int| units[i].region == r)
}

/// The outcome that the first entry about the order gives.
pub fn find_verdict(orders: &Vec<(BuildOrder, OrderOutcome)>, order: &BuildOrder) -> (r: Option<
    OrderOutcome,
>)
    ensures
        r == verdict_in(verdicts_view(orders@), order@),
{
    let ghost mask = about_mask(verdicts_view(orders@), order@);
    let mut i: usize = 0;
    while i < orders.len()
        invariant
            i <= orders.len(),
            mask == about_mask(verdicts_view(orders@), order@),
            forall|j: int| 0 <= j < i ==> !mask[j],
        decreases orders.len() - i,
    {
        if orders[i].0.eq(order) {
            proof {
                lemma_first_true_is(mask, 0, i as int);
            }
            return Some(orders[i].1);
        }
        i += 1;
    }
    proof {
        lemma_first_true_none(mask, 0);
    }
    None
}

/// A copy of the unit positions.
pub fn clone_positions(units: &Vec<UnitPosition>) -> (r: Vec<UnitPosition>)
    ensures
        positions_view(r@) == positions_view(units@),
{
    let mut out: Vec<UnitPosition> = Vec::new();
    let mut i: usize = 0;
    while i < units.len()
        invariant
            i <= units.len(),
            out@.len() == i,
            forall|k: int| 0 <= k < i ==> (#[trigger] out@[k])@ == units@[k]@,
        decreases units.len() - i,
    {
        out.push(units[i].clone());
        i += 1;
    }
    out
}

/// A copy of the orders with their outcomes.
pub fn clone_verdicts(orders: &Vec<(BuildOrder, OrderOutcome)>) -> (r: Vec<
    (BuildOrder, OrderOutcome),
>)
    ensures
        verdicts_view(r@) == verdicts_view(orders@),
{
    let mut out: Vec<(BuildOrder, OrderOutcome)> = Vec::new();
    let mut i: usize = 0;
    while i < orders.len()
        invariant
            i <= orders.len(),
            out@.len() == i,
            forall|k: int| 0 <= k < i ==> (#[trigger] out@[k]).0@ == orders@[k].0@,
            forall|k: int| 0 <= k < i ==> (#[trigger] out@[k]).1 == orders@[k].1,
        decreases orders.len() - i,
    {
        out.push((orders[i].0.clone(), orders[i].1));
        i += 1;
    }
    out
}

} // verus!
