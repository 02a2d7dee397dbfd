//! What the build phase knows of the world: who owned which supply center
//! last, and where the units stand now.
use vstd::prelude::*;
use crate::geo::key::{ProvinceKey, RegionKey, RegionName};
use crate::geo::map::{SupplyCenter, SupplyCenterView, WorldMap, WorldMapView};
use crate::nation::Nation;
use crate::seqs::{count_true, first_true, lemma_first_true, lemma_first_true_is,
    lemma_first_true_none, trues, trues_upto};
use crate::unit::{distinct_provinces, positions_view, UnitPosition, UnitPositionView, UnitType};

verus! {

/// For each entry, whether it is about the province.
pub open spec fn owner_mask(s: Seq<(Seq<u8>, Seq<u8>)>, p: Seq<u8>) -> Seq<bool> {
    Seq::new(s.len(), |i: int| s[i].0 == p)
}

/// The owner that the first entry about the province names.
pub open spec fn owner_in(s: Seq<(Seq<u8>, Seq<u8>)>, p: Seq<u8>) -> Option<Seq<u8>> {
    match first_true(owner_mask(s, p), 0) {
        Some(i) => Some(s[i].1),
        None => None,
    }
}

/// The entries after the province was given to the nation: the entry about
/// the province is replaced, or a new one is put at the end.
pub open spec fn with_owner(s: Seq<(Seq<u8>, Seq<u8>)>, p: Seq<u8>, n: Seq<u8>) -> Seq<
    (Seq<u8>, Seq<u8>),
> {
    match first_true(owner_mask(s, p), 0) {
        Some(i) => s.update(i, (p, n)),
        None => s.push((p, n)),
    }
}

/// After a province was given to a nation, that nation owns it, and the
/// other provinces have the owners they had.
pub proof fn owner_after_insert(s: Seq<(Seq<u8>, Seq<u8>)>, p: Seq<u8>, n: Seq<u8>, q: Seq<u8>)
    ensures
        owner_in(with_owner(s, p, n), q) == if q == p {
            Some(n)
        } else {
            owner_in(s, q)
        },
{
    let t = with_owner(s, p, n);
    lemma_first_true(owner_mask(s, p), 0);
    lemma_first_true(owner_mask(s, q), 0);
    match first_true(owner_mask(s, p), 0) {
        Some(i) => {
            if q == p {
                assert(owner_mask(t, q) =~= owner_mask(s, q));
            } else {
                assert(owner_mask(t, q) =~= owner_mask(s, q));
            }
        },
        None => {
            if q == p {
                assert forall|j: int| 0 <= j < s.len() implies !owner_mask(t, q)[j] by {
                    assert(!owner_mask(s, p)[j]);
                }
                lemma_first_true_is(owner_mask(t, q), 0, s.len() as int);
            } else {
                match first_true(owner_mask(s, q), 0) {
                    Some(j) => {
                        assert forall|w: int| 0 <= w < j implies !owner_mask(t, q)[w] by {
                            assert(!owner_mask(s, q)[w]);
                        }
                        lemma_first_true_is(owner_mask(t, q), 0, j);
                    },
                    None => {
                        assert forall|w: int| 0 <= w < t.len() implies !owner_mask(t, q)[w] by {
                            if w < s.len() {
                                assert(!owner_mask(s, q)[w]);
                            }
                        }
                        lemma_first_true_none(owner_mask(t, q), 0);
                    },
                }
            }
        },
    }
}

/// Which nation owns which supply center. A province has at most one owner.
#[derive(Debug)]
pub struct Ownerships {
    entries: Vec<(ProvinceKey, Nation)>,
}

impl View for Ownerships {
    type V = Seq<(Seq<u8>, Seq<u8>)>;

    closed spec fn view(&self) -> Seq<(Seq<u8>, Seq<u8>)> {
        Seq::new(self.entries@.len(), |i: int| (self.entries@[i].0@, self.entries@[i].1@))
    }
}

impl Ownerships {
    /// The owner of the province.
    pub open spec fn owner(&self, p: Seq<u8>) -> Option<Seq<u8>> {
        owner_in(self@, p)
    }

    /// No province owned.
    pub fn new() -> (r: Ownerships)
        ensures
            r@.len() == 0,
    {
        Ownerships { entries: Vec::new() }
    }

    /// The number of provinces owned.
    pub fn len(&self) -> (r: usize)
        ensures
            r == self@.len(),
    {
        self.entries.len()
    }

    /// Whether no province is owned.
    pub fn is_empty(&self) -> (r: bool)
        ensures
            r == (self@.len() == 0),
    {
        self.entries.len() == 0
    }

    /// The place of the entry about the province.
    fn index_of(&self, province: &ProvinceKey) -> (r: Option<usize>)
        ensures
            r is Some == first_true(owner_mask(self@, province@), 0) is Some,
            r is Some ==> r->0 == first_true(owner_mask(self@, province@), 0)->0 && r->0
                < self.entries@.len(),
    {
        let ghost mask = owner_mask(self@, province@);
        let mut i: usize = 0;
        while i < self.entries.len()
            invariant
                i <= self.entries.len(),
                mask == owner_mask(self@, province@),
                forall|j: int| 0 <= j < i ==> !mask[j],
            decreases self.entries.len() - i,
        {
            if self.entries[i].0.eq(province) {
                proof {
                    lemma_first_true_is(mask, 0, i as int);
                }
                return Some(i);
            }
            i += 1;
        }
        proof {
            lemma_first_true_none(mask, 0);
        }
        None
    }

    /// The owner of the province.
    pub fn get(&self, province: &ProvinceKey) -> (r: Option<&Nation>)
        ensures
            r is Some == self.owner(province@) is Some,
            r is Some ==> r->0@ == self.owner(province@)->0,
    {
        match self.index_of(province) {
            Some(i) => Some(&self.entries[i].1),
            None => None,
        }
    }

    /// Gives the province to the nation.
    pub fn insert(&mut self, province: ProvinceKey, nation: Nation)
        ensures
            final(self)@ == with_owner(old(self)@, province@, nation@),
    {
        match self.index_of(&province) {
            Some(i) => {
                self.entries[i] = (province, nation);
            },
            None => {
                self.entries.push((province, nation));
            },
        }
    }

    /// The province and the owner of the entry at a place.
    pub fn entry(&self, i: usize) -> (r: (&ProvinceKey, &Nation))
        requires
            i < self@.len(),
        ensures
            r.0@ == self@[i as int].0,
            r.1@ == self@[i as int].1,
    {
        (&self.entries[i].0, &self.entries[i].1)
    }
}

impl Clone for Ownerships {
    fn clone(&self) -> (r: Ownerships)
        ensures
            r@ == self@,
    {
        let mut out: Vec<(ProvinceKey, Nation)> = Vec::new();
        let mut i: usize = 0;
        while i < self.entries.len()
            invariant
                i <= self.entries.len(),
                out@.len() == i,
                forall|k: int|
                    0 <= k < i ==> (#[trigger] out@[k]).0@ == self.entries@[k].0@ && out@[k].1@
                        == self.entries@[k].1@,
            decreases self.entries.len() - i,
        {
            out.push((self.entries[i].0.clone(), self.entries[i].1.clone()));
            i += 1;
        }
        Ownerships { entries: out }
    }
}

/// The ownerships after the first `k` provinces of the board were looked
/// at: each home supply center among them belongs to its nation.
pub open spec fn initial_ownerships_upto(map: WorldMapView, k: int) -> Seq<(Seq<u8>, Seq<u8>)>
    decreases k,
{
    if k <= 0 {
        Seq::empty()
    } else {
        match map.provinces[k - 1].supply_center {
            SupplyCenterView::Home(n) => with_owner(
                initial_ownerships_upto(map, k - 1),
                map.provinces[k - 1].name,
                n,
            ),
            _ => initial_ownerships_upto(map, k - 1),
        }
    }
}

/// The ownerships at the start of a game: each nation owns its home supply
/// centers, and no other supply center is owned.
pub open spec fn initial_ownerships(map: WorldMapView) -> Seq<(Seq<u8>, Seq<u8>)> {
    initial_ownerships_upto(map, map.provinces.len() as int)
}

/// Convert a board into an initial ownership state where each nation owns
/// its home supply centers and all other supply centers are unowned.
pub fn to_initial_ownerships(map: &WorldMap) -> (r: Ownerships)
    ensures
        r@ == initial_ownerships(map@),
{
    let mut out = Ownerships::new();
    let provinces = map.provinces();
    let mut i: usize = 0;
    while i < provinces.len()
        invariant
            i <= provinces.len(),
            provinces@.len() == map@.provinces.len(),
            forall|k: int| 0 <= k < provinces@.len() ==> (#[trigger] provinces@[k])@
                == map@.provinces[k],
            out@ == initial_ownerships_upto(map@, i as int),
        decreases provinces.len() - i,
    {
        match &provinces[i].supply_center {
            SupplyCenter::Home(nation) => {
                out.insert(provinces[i].short_name.clone(), nation.clone());
            },
            _ => {},
        }
        i += 1;
    }
    out
}

/// What the build phase knows of the present: the nations in the game and
/// where their units stand.
pub struct WorldStateView {
    pub nations: Seq<Seq<u8>>,
    pub units: Seq<UnitPositionView>,
}

impl WorldStateView {
    /// For each unit, whether it stands in the province.
    pub open spec fn in_province_mask(units: Seq<UnitPositionView>, p: Seq<u8>) -> Seq<bool> {
        Seq::new(units.len(), |i: int| units[i].region.province == p)
    }

    /// The place of the first unit that stands in the province.
    pub open spec fn occupier_index(units: Seq<UnitPositionView>, p: Seq<u8>) -> Option<int> {
        first_true(Self::in_province_mask(units, p), 0)
    }

    /// The nation of the first unit that stands in the province.
    pub open spec fn occupier_in(units: Seq<UnitPositionView>, p: Seq<u8>) -> Option<Seq<u8>> {
        match Self::occupier_index(units, p) {
            Some(i) => Some(units[i].nation),
            None => None,
        }
    }

    /// For each unit, whether it belongs to the nation.
    pub open spec fn of_nation_mask(units: Seq<UnitPositionView>, n: Seq<u8>) -> Seq<bool> {
        Seq::new(units.len(), |i: int| units[i].nation == n)
    }

    /// The number of units that belong to the nation.
    pub open spec fn unit_count_in(units: Seq<UnitPositionView>, n: Seq<u8>) -> nat {
        count_true(Self::of_nation_mask(units, n))
    }

    /// The nation with a unit in the province.
    pub open spec fn occupier(self, p: Seq<u8>) -> Option<Seq<u8>> {
        Self::occupier_in(self.units, p)
    }

    /// The number of units of the nation.
    pub open spec fn unit_count(self, n: Seq<u8>) -> nat {
        Self::unit_count_in(self.units, n)
    }

    /// The units of the nation: for each, its type and its region.
    pub open spec fn units_of(self, n: Seq<u8>) -> Seq<(UnitType, RegionName)> {
        let idx = trues(Self::of_nation_mask(self.units, n));
        Seq::new(idx.len(), |k: int| (self.units[idx[k]].unit_type, self.units[idx[k]].region))
    }

    /// No two units share a province, and every unit's nation is in the game.
    pub open spec fn wf(self) -> bool {
        &&& distinct_provinces(self.units)
        &&& forall|i: int|
            0 <= i < self.units.len() ==> self.nations.contains(#[trigger] self.units[i].nation)
    }
}

/// The names of `base` and, after them, those of the first `k` of `extra`
/// that are not among the names before them.
pub open spec fn joined_upto(base: Seq<Seq<u8>>, extra: Seq<Seq<u8>>, k: int) -> Seq<Seq<u8>>
    decreases k,
{
    if k <= 0 {
        base
    } else {
        let prev = joined_upto(base, extra, k - 1);
        if prev.contains(extra[k - 1]) {
            prev
        } else {
            prev.push(extra[k - 1])
        }
    }
}

/// The names of `base` and, after them, those of `extra` that `base` lacks,
/// each once.
pub open spec fn joined(base: Seq<Seq<u8>>, extra: Seq<Seq<u8>>) -> Seq<Seq<u8>> {
    joined_upto(base, extra, extra.len() as int)
}

/// The nations of the units.
pub open spec fn unit_nations(units: Seq<UnitPositionView>) -> Seq<Seq<u8>> {
    Seq::new(units.len(), |i: int| units[i].nation)
}

/// The nations in the game and where their units stand. No two units stand
/// in one province.
#[derive(Debug)]
pub struct WorldState {
    nations: Vec<Nation>,
    units: Vec<UnitPosition>,
}

/// The names of a vector of nations.
pub open spec fn nation_names(nations: Seq<Nation>) -> Seq<Seq<u8>> {
    Seq::new(nations.len(), |i: int| nations[i]@)
}

/// Whether the nation is among the given ones.
pub fn has_nation(nations: &Vec<Nation>, nation: &Nation) -> (r: bool)
    ensures
        r == nation_names(nations@).contains(nation@),
{
    let mut i: usize = 0;
    while i < nations.len()
        invariant
            i <= nations.len(),
            forall|j: int| 0 <= j < i ==> nation_names(nations@)[j] != nation@,
        decreases nations.len() - i,
    {
        if nations[i].eq(nation) {
            assert(nation_names(nations@)[i as int] == nation@);
            return true;
        }
        i += 1;
    }
    false
}

/// The place of the first unit that stands in the province.
pub fn occupier_index(units: &Vec<UnitPosition>, province: &ProvinceKey) -> (r: Option<usize>)
    ensures
        r is Some == WorldStateView::occupier_index(positions_view(units@), province@) is Some,
        r is Some ==> r->0 == WorldStateView::occupier_index(positions_view(units@), province@)->0
            && r->0 < units@.len() && units@[r->0 as int]@.region.province == province@,
        r is None ==> forall|i: int|
            0 <= i < units@.len() ==> (#[trigger] units@[i])@.region.province != province@,
{
    let ghost mask = WorldStateView::in_province_mask(positions_view(units@), province@);
    let mut i: usize = 0;
    while i < units.len()
        invariant
            i <= units.len(),
            mask == WorldStateView::in_province_mask(positions_view(units@), province@),
            forall|j: int| 0 <= j < i ==> !mask[j],
        decreases units.len() - i,
    {
        if units[i].region.is_in(province) {
            proof {
                lemma_first_true_is(mask, 0, i as int);
            }
            return Some(i);
        }
        i += 1;
    }
    proof {
        lemma_first_true_none(mask, 0);
        assert forall|i: int| 0 <= i < units@.len() implies (#[trigger] units@[i])@.region.province
            != province@ by {
            assert(!mask[i]);
        }
    }
    None
}

/// The number of the units that belong to the nation.
pub fn count_units(units: &Vec<UnitPosition>, nation: &Nation) -> (r: usize)
    ensures
        r == WorldStateView::unit_count_in(positions_view(units@), nation@),
{
    let ghost mask = WorldStateView::of_nation_mask(positions_view(units@), nation@);
    let mut count: usize = 0;
    let mut i: usize = 0;
    while i < units.len()
        invariant
            i <= units.len(),
            mask == WorldStateView::of_nation_mask(positions_view(units@), nation@),
            count == count_true(mask.take(i as int)),
            count <= i,
        decreases units.len() - i,
    {
        proof {
            assert(mask.take(i as int + 1).drop_last() =~= mask.take(i as int));
        }
        if units[i].unit.nation.eq(nation) {
            count += 1;
        }
        i += 1;
    }
    assert(mask.take(units@.len() as int) =~= mask);
    count
}

impl View for WorldState {
    type V = WorldStateView;

    closed spec fn view(&self) -> WorldStateView {
        WorldStateView { nations: nation_names(self.nations@), units: positions_view(self.units@) }
    }
}

impl WorldState {
    /// Whether the state is well formed. Every state that `new` returns is.
    pub open spec fn wf(&self) -> bool {
        self@.wf()
    }

    /// The world with the given units. The nations in the game are the given
    /// ones and, after them, those of the units that are not among them.
    /// `None` where two units stand in the same province.
    pub fn new(nations: Vec<Nation>, units: Vec<UnitPosition>) -> (r: Option<WorldState>)
        ensures
            r is Some == distinct_provinces(positions_view(units@)),
            r is Some ==> r->0.wf() && r->0@ == (WorldStateView {
                nations: joined(nation_names(nations@), unit_nations(positions_view(units@))),
                units: positions_view(units@),
            }),
    {
        let ghost pv = positions_view(units@);
        let ghost given = nation_names(nations@);
        let mut j: usize = 0;
        while j < units.len()
            invariant
                j <= units.len(),
                pv == positions_view(units@),
                forall|a: int, b: int|
                    0 <= a < b < j ==> pv[a].region.province != pv[b].region.province,
            decreases units.len() - j,
        {
            let mut i: usize = 0;
            while i < j
                invariant
                    i <= j < units.len(),
                    pv == positions_view(units@),
                    forall|a: int| 0 <= a < i ==> pv[a].region.province != pv[j as int].region.province,
                decreases j - i,
            {
                if units[i].region.province().eq(units[j].region.province()) {
                    assert(pv[i as int].region.province == pv[j as int].region.province);
                    return None;
                }
                i += 1;
            }
            j += 1;
        }
        let ghost extra = unit_nations(pv);
        let mut all = nations;
        let mut k: usize = 0;
        while k < units.len()
            invariant
                k <= units.len(),
                pv == positions_view(units@),
                extra == unit_nations(pv),
                nation_names(all@) == joined_upto(given, extra, k as int),
                forall|i: int| 0 <= i < k ==> nation_names(all@).contains(#[trigger] pv[i].nation),
            decreases units.len() - k,
        {
            if !has_nation(&all, &units[k].unit.nation) {
                let ghost before = nation_names(all@);
                all.push(units[k].unit.nation.clone());
                proof {
                    let after = nation_names(all@);
                    assert(after[before.len() as int] == pv[k as int].nation);
                    assert forall|i: int| 0 <= i < k implies after.contains(
                        #[trigger] pv[i].nation,
                    ) by {
                        let w = choose|w: int| 0 <= w < before.len() && before[w] == pv[i].nation;
                        assert(after[w] == pv[i].nation);
                    }
                }
            }
            k += 1;
        }
        Some(WorldState { nations: all, units })
    }

    /// The nations in the game.
    pub fn nations(&self) -> (r: &Vec<Nation>)
        ensures
            nation_names(r@) == self@.nations,
    {
        &self.nations
    }

    /// Where the units stand.
    pub fn unit_positions(&self) -> (r: &Vec<UnitPosition>)
        ensures
            positions_view(r@) == self@.units,
    {
        &self.units
    }

    /// The nation with a unit in the province, if there is one.
    pub fn occupier(&self, province: &ProvinceKey) -> (r: Option<&Nation>)
        ensures
            r is Some == self@.occupier(province@) is Some,
            r is Some ==> r->0@ == self@.occupier(province@)->0,
    {
        match occupier_index(&self.units, province) {
            Some(i) => Some(&self.units[i].unit.nation),
            None => None,
        }
    }

    /// The number of units of the nation.
    pub fn unit_count(&self, nation: &Nation) -> (r: usize)
        ensures
            r == self@.unit_count(nation@),
    {
        count_units(&self.units, nation)
    }

    /// The units of the nation: for each, its type and its region, in the
    /// order in which the units were given.
    pub fn units(&self, nation: &Nation) -> (r: Vec<(UnitType, RegionKey)>)
        ensures
            r@.len() == self@.units_of(nation@).len(),
            forall|k: int| 0 <= k < r@.len() ==> (#[trigger] r@[k]).0 == self@.units_of(nation@)[k].0,
            forall|k: int| 0 <= k < r@.len() ==> (#[trigger] r@[k]).1@ == self@.units_of(nation@)[k].1,
    {
        let ghost mask = WorldStateView::of_nation_mask(positions_view(self.units@), nation@);
        let mut out: Vec<(UnitType, RegionKey)> = Vec::new();
        let mut i: usize = 0;
        while i < self.units.len()
            invariant
                i <= self.units.len(),
                mask == WorldStateView::of_nation_mask(positions_view(self.units@), nation@),
                out@.len() == trues_upto(mask, i as int).len(),
                forall|k: int|
                    0 <= k < out@.len() ==> (#[trigger] out@[k]).0 == self@.units[trues_upto(
                        mask,
                        i as int,
                    )[k]].unit_type,
                forall|k: int|
                    0 <= k < out@.len() ==> (#[trigger] out@[k]).1@ == self@.units[trues_upto(
                        mask,
                        i as int,
                    )[k]].region,
            decreases self.units.len() - i,
        {
            if self.units[i].unit.nation.eq(nation) {
                out.push((self.units[i].unit.unit_type, self.units[i].region.clone()));
            }
            i += 1;
        }
        out
    }
}

} // verus!
