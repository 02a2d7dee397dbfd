//! Resolver for retreat phases.
use vstd::prelude::*;
use vstd::std_specs::convert::FromSpecImpl;
use crate::geo::key::{ProvinceKey, RegionKey, RegionName};
use crate::geo::map::{WorldMap, WorldMapView};
use crate::judge::OrderState;
use crate::judge::build::outcome::clone_positions;
use crate::judge::build::world::{occupier_index, WorldStateView};
use crate::judge::context::orders_view;
use crate::judge::outcome::{AttackOutcome, OrderOutcome as MainOutcome};
use crate::judge::phase::{Outcome as MainPhaseOutcome, OutcomeView as MainPhaseView};
use crate::order::{RetreatCommand, RetreatCommandView, RetreatOrder, RetreatOrderView};
use crate::seqs::{first_true, lemma_first_true, lemma_first_true_is, lemma_first_true_none,
    lemma_trues_increasing, lemma_trues_upto, trues, trues_upto};
use crate::unit::{distinct_provinces, positions_view, Unit, UnitPosition, UnitPositionView};

verus! {

/// A unit that was dislodged and may retreat.
#[derive(Debug)]
pub struct Dislodged {
    /// The unit, where it stood.
    pub position: UnitPosition,
    /// The province from which it was attacked.
    pub attacker_from: ProvinceKey,
}

pub struct DislodgedView {
    pub unit: UnitPositionView,
    pub from: Seq<u8>,
}

impl View for Dislodged {
    type V = DislodgedView;

    open spec fn view(&self) -> DislodgedView {
        DislodgedView { unit: self.position@, from: self.attacker_from@ }
    }
}

/// What became of a retreat order.
#[derive(Debug, Clone, Copy, PartialEq, Eq, Structural)]
pub enum OrderOutcome {
    /// The order names no dislodged unit, or an earlier order names the
    /// same unit.
    InvalidRecipient,
    /// The unit leaves the board as ordered.
    DisbandsAsOrdered,
    /// The unit cannot go there: no border that it can cross leads there,
    /// a unit stands there, the attack came from there, or moves bounced
    /// there. The unit leaves the board.
    InvalidDestination,
    /// The retreat at this place goes to the same province. Both units
    /// leave the board.
    Prevented(usize),
    /// The unit retreats.
    Moves,
}

impl OrderOutcome {
    /// Whether the order was carried out.
    pub open spec fn succeeds(self) -> bool {
        self == OrderOutcome::DisbandsAsOrdered || self == OrderOutcome::Moves
    }

    /// Whether the order was carried out.
    pub fn is_successful(&self) -> (r: bool)
        ensures
            r == self.succeeds(),
    {
        match self {
            OrderOutcome::DisbandsAsOrdered => true,
            OrderOutcome::Moves => true,
            _ => false,
        }
    }
}

impl From<OrderOutcome> for OrderState {
    fn from(outcome: OrderOutcome) -> (r: OrderState) {
        if outcome.is_successful() {
            OrderState::Succeeds
        } else {
            OrderState::Fails
        }
    }
}

impl FromSpecImpl<OrderOutcome> for OrderState {
    open spec fn obeys_from_spec() -> bool {
        true
    }

    open spec fn from_spec(outcome: OrderOutcome) -> OrderState {
        OrderState::of(outcome.succeeds())
    }
}

/// The views of dislodged units.
pub open spec fn dislodged_view(units: Seq<Dislodged>) -> Seq<DislodgedView> {
    Seq::new(units.len(), |i: int| units[i]@)
}

/// The views of province keys.
pub open spec fn provinces_view(keys: Seq<ProvinceKey>) -> Seq<Seq<u8>> {
    Seq::new(keys.len(), |i: int| keys[i]@)
}

/// The views of retreat orders.
pub open spec fn retreats_view(orders: Seq<RetreatOrder>) -> Seq<RetreatOrderView> {
    Seq::new(orders.len(), |i: int| orders[i]@)
}

pub struct StartView {
    pub map: WorldMapView,
    /// The units that may retreat.
    pub dislodged: Seq<DislodgedView>,
    /// The units that stand on the board.
    pub holding: Seq<UnitPositionView>,
    /// The provinces in which moves bounced.
    pub contested: Seq<Seq<u8>>,
}

impl StartView {
    /// The unit that an order names.
    pub open spec fn named(o: RetreatOrderView) -> UnitPositionView {
        UnitPositionView { nation: o.nation, unit_type: o.unit_type, region: o.region }
    }

    /// For each dislodged unit, whether the order names it.
    pub open spec fn recipient_mask(self, o: RetreatOrderView) -> Seq<bool> {
        Seq::new(self.dislodged.len(), |k: int| self.dislodged[k].unit == Self::named(o))
    }

    /// The place of the dislodged unit that the order names.
    pub open spec fn recipient(self, o: RetreatOrderView) -> Option<int> {
        first_true(self.recipient_mask(o), 0)
    }

    /// For each order before the one at `i`, whether it names the same
    /// unit.
    pub open spec fn earlier_mask(self, orders: Seq<RetreatOrderView>, i: int) -> Seq<bool> {
        Seq::new(i as nat, |j: int| Self::named(orders[j]) == Self::named(orders[i]))
    }

    /// Whether the order at `i` is the first to name a dislodged unit.
    pub open spec fn effective(self, orders: Seq<RetreatOrderView>, i: int) -> bool {
        self.recipient(orders[i]) is Some && first_true(self.earlier_mask(orders, i), 0) is None
    }

    /// Whether the dislodged unit can retreat to the region: a border that
    /// it can cross leads there, no unit stands in the province, the attack
    /// did not come from there, and no moves bounced there.
    pub open spec fn can_go(self, unit: DislodgedView, d: RegionName) -> bool {
        &&& match self.map.border_between(unit.unit.region, d) {
            Some(b) => unit.unit.unit_type.can_occupy_spec(self.map.borders[b].terrain),
            None => false,
        }
        &&& WorldStateView::occupier_index(self.holding, d.province) is None
        &&& d.province != unit.from
        &&& !self.contested.contains(d.province)
    }

    /// Whether the order at `i` is a retreat that the unit can make.
    pub open spec fn valid_move(self, orders: Seq<RetreatOrderView>, i: int) -> bool {
        self.effective(orders, i) && match orders[i].command {
            RetreatCommandView::Move(d) => self.can_go(
                self.dislodged[self.recipient(orders[i])->0],
                d,
            ),
            RetreatCommandView::Hold => false,
        }
    }

    /// For each order, whether it is another retreat that the unit can make
    /// and that goes to the province to which the retreat at `i` goes.
    pub open spec fn rival_mask(self, orders: Seq<RetreatOrderView>, i: int) -> Seq<bool> {
        Seq::new(
            orders.len(),
            |j: int|
                j != i && self.valid_move(orders, j)
                    && orders[j].command->Move_0.province == orders[i].command->Move_0.province,
        )
    }

    /// What becomes of the order at `i`.
    pub open spec fn verdict(self, orders: Seq<RetreatOrderView>, i: int) -> OrderOutcome {
        if !self.effective(orders, i) {
            OrderOutcome::InvalidRecipient
        } else {
            match orders[i].command {
                RetreatCommandView::Hold => OrderOutcome::DisbandsAsOrdered,
                RetreatCommandView::Move(d) => if !self.valid_move(orders, i) {
                    OrderOutcome::InvalidDestination
                } else {
                    match first_true(self.rival_mask(orders, i), 0) {
                        Some(j) => OrderOutcome::Prevented(j as usize),
                        None => OrderOutcome::Moves,
                    }
                },
            }
        }
    }

    /// What becomes of each order.
    pub open spec fn verdicts(self, orders: Seq<RetreatOrderView>) -> Seq<OrderOutcome> {
        Seq::new(orders.len(), |i: int| self.verdict(orders, i))
    }

    /// For each order, whether its unit retreats.
    pub open spec fn moves_mask(self, orders: Seq<RetreatOrderView>) -> Seq<bool> {
        Seq::new(orders.len(), |i: int| self.verdict(orders, i) == OrderOutcome::Moves)
    }

    /// The unit of the order at `i`, in the region to which it retreats.
    pub open spec fn retreated(orders: Seq<RetreatOrderView>, i: int) -> UnitPositionView {
        UnitPositionView {
            nation: orders[i].nation,
            unit_type: orders[i].unit_type,
            region: orders[i].command->Move_0,
        }
    }

    /// The units on the board after the phase: those that stood, and after
    /// them those that retreated, in the order of their orders.
    pub open spec fn final_positions(self, orders: Seq<RetreatOrderView>) -> Seq<
        UnitPositionView,
    > {
        let idx = trues(self.moves_mask(orders));
        self.holding + Seq::new(idx.len(), |k: int| Self::retreated(orders, idx[k]))
    }

    /// The board is well formed and no two of the units that stand share a
    /// province.
    pub open spec fn wf(self) -> bool {
        self.map.wf() && distinct_provinces(self.holding)
    }
}

/// After the retreats no two units share a province, and at most one unit
/// retreats to any one province.
pub proof fn retreat_positions_distinct(st: StartView, orders: Seq<RetreatOrderView>)
    requires
        st.wf(),
    ensures
        distinct_provinces(st.final_positions(orders)),
{
    let mask = st.moves_mask(orders);
    let idx = trues(mask);
    let fp = st.final_positions(orders);
    let h = st.holding.len() as int;
    lemma_trues_upto(mask, mask.len() as int);
    lemma_trues_increasing(mask, mask.len() as int);
    assert forall|a: int, b: int| 0 <= a < b < fp.len() implies fp[a].region.province
        != fp[b].region.province by {
        if b < h {
        } else {
            let j = idx[b - h];
            let dj = orders[j].command->Move_0;
            if a < h {
                let occ = WorldStateView::in_province_mask(st.holding, dj.province);
                lemma_first_true(occ, 0);
                assert(!occ[a]);
            } else {
                let i = idx[a - h];
                let rivals = st.rival_mask(orders, i);
                lemma_first_true(rivals, 0);
                assert(!rivals[j]);
            }
        }
    }
}

/// For each order of a main phase, whether its unit was dislodged.
pub open spec fn dislodged_mask(out: MainPhaseView) -> Seq<bool> {
    Seq::new(out.orders.len(), |i: int| out.dislodger(i) is Some)
}

/// The unit of the order at `i` of a main phase, where it stood, and the
/// province of the move that dislodged it.
pub open spec fn dislodged_at(out: MainPhaseView, i: int) -> DislodgedView {
    DislodgedView {
        unit: UnitPositionView {
            nation: out.orders[i].nation,
            unit_type: out.orders[i].unit_type,
            region: out.orders[i].region,
        },
        from: out.orders[out.dislodger(i)->0].region.province,
    }
}

/// The units that a main phase dislodged, in the order of their orders.
pub open spec fn dislodged_after(out: MainPhaseView) -> Seq<DislodgedView> {
    let idx = trues(dislodged_mask(out));
    Seq::new(idx.len(), |k: int| dislodged_at(out, idx[k]))
}

/// For each order of a main phase, whether it is a move that another move
/// kept out.
pub open spec fn bounced_mask(out: MainPhaseView) -> Seq<bool> {
    Seq::new(
        out.orders.len(),
        |i: int|
            out.outcomes[i] is Move && out.outcomes[i]->Move_0 is Prevented
                && out.orders[i].move_dest() is Some,
    )
}

/// The provinces into which a move was kept out by another move, one for
/// each such move.
pub open spec fn contested_after(out: MainPhaseView) -> Seq<Seq<u8>> {
    let idx = trues(bounced_mask(out));
    Seq::new(idx.len(), |k: int| out.orders[idx[k]].move_dest()->0.province)
}

/// The units that a main phase dislodged.
pub fn dislodged_units(outcome: &MainPhaseOutcome) -> (r: Vec<Dislodged>)
    ensures
        dislodged_view(r@) == dislodged_after(outcome@),
{
    let ghost out = outcome@;
    let ghost mask = dislodged_mask(out);
    let orders = outcome.orders();
    let n: usize = outcome.len();
    let mut found: Vec<Dislodged> = Vec::new();
    let mut i: usize = 0;
    while i < n
        invariant
            i <= n,
            outcome.wf(),
            out == outcome@,
            n == out.orders.len(),
            orders@.len() == n,
            orders_view(orders@) == out.orders,
            mask == dislodged_mask(out),
            found@.len() == trues_upto(mask, i as int).len(),
            forall|k: int|
                0 <= k < found@.len() ==> (#[trigger] found@[k])@ == dislodged_at(
                    out,
                    trues_upto(mask, i as int)[k],
                ),
        decreases n - i,
    {
        match outcome.dislodger(i) {
            Some(k) => {
                found.push(
                    Dislodged {
                        position: UnitPosition::new(
                            Unit::new(orders[i].nation.clone(), orders[i].unit_type),
                            orders[i].region.clone(),
                        ),
                        attacker_from: orders[k].region.province().clone(),
                    },
                );
            },
            None => {},
        }
        i += 1;
    }
    found
}

/// The provinces into which a move of a main phase was kept out by another
/// move.
pub fn contested_provinces(outcome: &MainPhaseOutcome) -> (r: Vec<ProvinceKey>)
    ensures
        provinces_view(r@) == contested_after(outcome@),
{
    let ghost out = outcome@;
    let ghost mask = bounced_mask(out);
    let orders = outcome.orders();
    let n: usize = outcome.len();
    let mut found: Vec<ProvinceKey> = Vec::new();
    let mut i: usize = 0;
    while i < n
        invariant
            i <= n,
            outcome.wf(),
            out == outcome@,
            n == out.orders.len(),
            orders@.len() == n,
            orders_view(orders@) == out.orders,
            mask == bounced_mask(out),
            found@.len() == trues_upto(mask, i as int).len(),
            forall|k: int|
                0 <= k < found@.len() ==> (#[trigger] found@[k])@ == out.orders[trues_upto(
                    mask,
                    i as int,
                )[k]].move_dest()->0.province,
        decreases n - i,
    {
        let bounced = match outcome.outcome(i) {
            MainOutcome::Move(AttackOutcome::Prevented(_)) => true,
            _ => false,
        };
        if bounced {
            match orders[i].move_dest() {
                Some(d) => {
                    found.push(d.province().clone());
                },
                None => {},
            }
        }
        proof {
        }
        i += 1;
    }
    found
}

/// What a retreat phase starts from: the board, the units that were
/// dislodged, the units that stand, and the provinces in which moves
/// bounced.
pub struct Start<'a> {
    map: &'a WorldMap,
    dislodged: Vec<Dislodged>,
    holding: Vec<UnitPosition>,
    contested: Vec<ProvinceKey>,
}

impl<'a> View for Start<'a> {
    type V = StartView;

    closed spec fn view(&self) -> StartView {
        StartView {
            map: self.map@,
            dislodged: dislodged_view(self.dislodged@),
            holding: positions_view(self.holding@),
            contested: provinces_view(self.contested@),
        }
    }
}

/// What a retreat phase ends in.
pub struct OutcomeView {
    pub orders: Seq<RetreatOrderView>,
    pub verdicts: Seq<OrderOutcome>,
    pub positions: Seq<UnitPositionView>,
}

/// The outcome of a retreat phase: what became of each order, and where
/// the units stand for the next phase. No two of them stand in one
/// province.
#[derive(Debug)]
pub struct Outcome {
    orders: Vec<RetreatOrder>,
    verdicts: Vec<OrderOutcome>,
    positions: Vec<UnitPosition>,
}

impl View for Outcome {
    type V = OutcomeView;

    closed spec fn view(&self) -> OutcomeView {
        OutcomeView {
            orders: retreats_view(self.orders@),
            verdicts: self.verdicts@,
            positions: positions_view(self.positions@),
        }
    }
}

impl Outcome {
    /// The orders of the phase.
    pub fn orders(&self) -> (r: &Vec<RetreatOrder>)
        ensures
            retreats_view(r@) == self@.orders,
    {
        &self.orders
    }

    /// What became of each order.
    pub fn verdicts(&self) -> (r: &Vec<OrderOutcome>)
        ensures
            r@ == self@.verdicts,
    {
        &self.verdicts
    }

    /// Where the units stand for the next phase.
    pub fn unit_positions(&self) -> (r: Vec<UnitPosition>)
        ensures
            positions_view(r@) == self@.positions,
    {
        clone_positions(&self.positions)
    }
}

impl<'a> Start<'a> {
    /// Whether the start is well formed. Every start that `new` returns is.
    pub open spec fn wf(&self) -> bool {
        self@.wf()
    }

    /// The start of a retreat phase. `None` where the board is not well
    /// formed for the units: two of the units that stand share a province.
    pub fn new(
        map: &'a WorldMap,
        dislodged: Vec<Dislodged>,
        holding: Vec<UnitPosition>,
        contested: Vec<ProvinceKey>,
    ) -> (r: Option<Start<'a>>)
        requires
            map.wf(),
        ensures
            r is Some == distinct_provinces(positions_view(holding@)),
            r is Some ==> r->0.wf() && r->0@ == (StartView {
                map: map@,
                dislodged: dislodged_view(dislodged@),
                holding: positions_view(holding@),
                contested: provinces_view(contested@),
            }),
    {
        let ghost pv = positions_view(holding@);
        let mut j: usize = 0;
        while j < holding.len()
            invariant
                j <= holding.len(),
                pv == positions_view(holding@),
                forall|a: int, b: int|
                    0 <= a < b < j ==> pv[a].region.province != pv[b].region.province,
            decreases holding.len() - j,
        {
            let mut i: usize = 0;
            while i < j
                invariant
                    i <= j < holding.len(),
                    pv == positions_view(holding@),
                    forall|a: int|
                        0 <= a < i ==> pv[a].region.province != pv[j as int].region.province,
                decreases j - i,
            {
                if holding[i].region.province().eq(holding[j].region.province()) {
                    assert(pv[i as int].region.province == pv[j as int].region.province);
                    return None;
                }
                i += 1;
            }
            j += 1;
        }
        Some(Start { map, dislodged, holding, contested })
    }

    /// The start of the retreat phase that follows a main phase: the units
    /// that the main phase dislodged may retreat, each away from the
    /// province of the move that dislodged it, and not into a province in
    /// which moves bounced. `None` where two of the units that stand share
    /// a province.
    pub fn from_outcome(map: &'a WorldMap, outcome: &MainPhaseOutcome) -> (r: Option<Start<'a>>)
        requires
            map.wf(),
        ensures
            r is Some == distinct_provinces(outcome@.positions()),
            r is Some ==> r->0.wf() && r->0@ == (StartView {
                map: map@,
                dislodged: dislodged_after(outcome@),
                holding: outcome@.positions(),
                contested: contested_after(outcome@),
            }),
    {
        Start::new(
            map,
            dislodged_units(outcome),
            outcome.unit_positions(),
            contested_provinces(outcome),
        )
    }

    /// The units that may retreat.
    pub fn dislodged(&self) -> (r: &Vec<Dislodged>)
        ensures
            dislodged_view(r@) == self@.dislodged,
    {
        &self.dislodged
    }

    /// The place of the dislodged unit that the order names.
    pub fn recipient(&self, order: &RetreatOrder) -> (r: Option<usize>)
        ensures
            r is Some == self@.recipient(order@) is Some,
            r is Some ==> r->0 == self@.recipient(order@)->0 && r->0 < self@.dislodged.len(),
    {
        let ghost mask = self@.recipient_mask(order@);
        let mut k: usize = 0;
        while k < self.dislodged.len()
            invariant
                k <= self.dislodged.len(),
                mask == self@.recipient_mask(order@),
                forall|j: int| 0 <= j < k ==> !mask[j],
            decreases self.dislodged.len() - k,
        {
            let unit = &self.dislodged[k].position;
            if unit.unit.nation.eq(&order.nation) && unit.unit.unit_type == order.unit_type
                && unit.region.eq(&order.region) {
                proof {
                    lemma_first_true_is(mask, 0, k as int);
                }
                return Some(k);
            }
            k += 1;
        }
        proof {
            lemma_first_true_none(mask, 0);
        }
        None
    }

    /// Whether the order at `i` is the first to name a dislodged unit.
    pub fn is_effective(&self, orders: &Vec<RetreatOrder>, i: usize) -> (r: bool)
        requires
            i < orders@.len(),
        ensures
            r == self@.effective(retreats_view(orders@), i as int),
    {
        if self.recipient(&orders[i]).is_none() {
            return false;
        }
        let ghost ov = retreats_view(orders@);
        let ghost mask = self@.earlier_mask(ov, i as int);
        let mut j: usize = 0;
        while j < i
            invariant
                j <= i < orders@.len(),
                ov == retreats_view(orders@),
                mask == self@.earlier_mask(ov, i as int),
                forall|k: int| 0 <= k < j ==> !mask[k],
            decreases i - j,
        {
            if orders[j].nation.eq(&orders[i].nation) && orders[j].unit_type == orders[i].unit_type
                && orders[j].region.eq(&orders[i].region) {
                proof {
                    lemma_first_true_is(mask, 0, j as int);
                }
                return false;
            }
            j += 1;
        }
        proof {
            lemma_first_true_none(mask, 0);
        }
        true
    }

    /// Whether the dislodged unit can retreat to the region.
    pub fn can_go(&self, unit: &Dislodged, dest: &RegionKey) -> (r: bool)
        ensures
            r == self@.can_go(unit@, dest@),
    {
        let passable = match self.map.find_border_between(&unit.position.region, dest) {
            Some(b) => b.is_passable_by(unit.position.unit.unit_type),
            None => false,
        };
        if !passable {
            return false;
        }
        if occupier_index(&self.holding, dest.province()).is_some() {
            return false;
        }
        if dest.is_in(&unit.attacker_from) {
            return false;
        }
        let mut k: usize = 0;
        while k < self.contested.len()
            invariant
                k <= self.contested.len(),
                forall|j: int| 0 <= j < k ==> self@.contested[j] != dest@.province,
            decreases self.contested.len() - k,
        {
            if dest.is_in(&self.contested[k]) {
                assert(self@.contested[k as int] == dest@.province);
                return false;
            }
            k += 1;
        }
        true
    }

    /// Whether the order at `i` is a retreat that the unit can make.
    pub fn is_valid_move(&self, orders: &Vec<RetreatOrder>, i: usize) -> (r: bool)
        requires
            i < orders@.len(),
        ensures
            r == self@.valid_move(retreats_view(orders@), i as int),
    {
        if !self.is_effective(orders, i) {
            return false;
        }
        match &orders[i].command {
            RetreatCommand::Hold => false,
            RetreatCommand::Move(d) => match self.recipient(&orders[i]) {
                Some(k) => self.can_go(&self.dislodged[k], d),
                None => false,
            },
        }
    }

    /// What becomes of the order at `i`.
    pub fn adjudicate(&self, orders: &Vec<RetreatOrder>, i: usize) -> (r: OrderOutcome)
        requires
            i < orders@.len(),
        ensures
            r == self@.verdict(retreats_view(orders@), i as int),
    {
        if !self.is_effective(orders, i) {
            return OrderOutcome::InvalidRecipient;
        }
        match &orders[i].command {
            RetreatCommand::Hold => OrderOutcome::DisbandsAsOrdered,
            RetreatCommand::Move(d) => {
                if !self.is_valid_move(orders, i) {
                    return OrderOutcome::InvalidDestination;
                }
                let ghost ov = retreats_view(orders@);
                let ghost mask = self@.rival_mask(ov, i as int);
                let mut j: usize = 0;
                while j < orders.len()
                    invariant
                        j <= orders.len(),
                        i < orders@.len(),
                        ov == retreats_view(orders@),
                        ov[i as int].command == RetreatCommandView::Move(d@),
                        self@.effective(ov, i as int),
                        self@.valid_move(ov, i as int),
                        mask == self@.rival_mask(ov, i as int),
                        forall|k: int| 0 <= k < j ==> !mask[k],
                    decreases orders.len() - j,
                {
                    if j != i && self.is_valid_move(orders, j) {
                        let same = match &orders[j].command {
                            RetreatCommand::Move(dj) => dj.province().eq(d.province()),
                            RetreatCommand::Hold => false,
                        };
                        if same {
                            proof {
                                lemma_first_true_is(mask, 0, j as int);
                            }
                            return OrderOutcome::Prevented(j);
                        }
                    }
                    j += 1;
                }
                proof {
                    lemma_first_true_none(mask, 0);
                }
                OrderOutcome::Moves
            },
        }
    }

    /// Resolves the retreat orders. A unit retreats where its order is the
    /// first to name it, where it can go to the region, and where no other
    /// unit retreats to the same province; every other dislodged unit
    /// leaves the board.
    pub fn resolve(&self, orders: Vec<RetreatOrder>) -> (r: Outcome)
        requires
            self.wf(),
        ensures
            r@.orders == retreats_view(orders@),
            r@.verdicts == self@.verdicts(retreats_view(orders@)),
            r@.positions == self@.final_positions(retreats_view(orders@)),
            distinct_provinces(r@.positions),
    {
        let ghost ov = retreats_view(orders@);
        let ghost mask = self@.moves_mask(ov);
        let mut verdicts: Vec<OrderOutcome> = Vec::new();
        let mut positions = clone_positions(&self.holding);
        let ghost held = positions_view(positions@);
        let mut i: usize = 0;
        while i < orders.len()
            invariant
                i <= orders.len(),
                ov == retreats_view(orders@),
                mask == self@.moves_mask(ov),
                held == self@.holding,
                verdicts@.len() == i,
                forall|k: int| 0 <= k < i ==> verdicts@[k] == self@.verdict(ov, k),
                positions@.len() == held.len() + trues_upto(mask, i as int).len(),
                forall|k: int| 0 <= k < held.len() ==> (#[trigger] positions@[k])@ == held[k],
                forall|k: int|
                    held.len() <= k < positions@.len() ==> (#[trigger] positions@[k])@
                        == StartView::retreated(ov, trues_upto(mask, i as int)[k - held.len()]),
            decreases orders.len() - i,
        {
            let verdict = self.adjudicate(&orders, i);
            verdicts.push(verdict);
            match verdict {
                OrderOutcome::Moves => {
                    match &orders[i].command {
                        RetreatCommand::Move(d) => {
                            positions.push(
                                UnitPosition::new(
                                    Unit::new(orders[i].nation.clone(), orders[i].unit_type),
                                    d.clone(),
                                ),
                            );
                        },
                        RetreatCommand::Hold => {
                            proof {
                                assert(false);
                            }
                        },
                    }
                },
                _ => {},
            }
            i += 1;
        }
        proof {
            retreat_positions_distinct(self@, ov);
        }
        Outcome { orders, verdicts, positions }
    }
}

} // verus!
