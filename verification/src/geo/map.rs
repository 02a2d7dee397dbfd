//! The board: its provinces, its regions and the borders that join regions.
use vstd::prelude::*;
use crate::geo::key::{ProvinceKey, RegionKey, RegionName, Terrain};
use crate::nation::Nation;
use crate::seqs::{first_true, lemma_first_true, lemma_first_true_is, lemma_first_true_none, trues,
    trues_upto};

verus! {

/// Whether a province is a supply center, and whose home it is.
#[derive(Debug)]
pub enum SupplyCenter {
    /// The province is no supply center.
    NoCenter,
    /// A supply center that is no nation's home.
    Neutral,
    /// A home supply center of the given nation.
    Home(Nation),
}

pub enum SupplyCenterView {
    NoCenter,
    Neutral,
    Home(Seq<u8>),
}

impl View for SupplyCenter {
    type V = SupplyCenterView;

    open spec fn view(&self) -> SupplyCenterView {
        match self {
            SupplyCenter::NoCenter => SupplyCenterView::NoCenter,
            SupplyCenter::Neutral => SupplyCenterView::Neutral,
            SupplyCenter::Home(n) => SupplyCenterView::Home(n@),
        }
    }
}

impl Clone for SupplyCenter {
    fn clone(&self) -> (r: SupplyCenter)
        ensures
            r@ == self@,
    {
        match self {
            SupplyCenter::NoCenter => SupplyCenter::NoCenter,
            SupplyCenter::Neutral => SupplyCenter::Neutral,
            SupplyCenter::Home(n) => SupplyCenter::Home(n.clone()),
        }
    }
}

/// A province of the board.
#[derive(Debug)]
pub struct Province {
    pub short_name: ProvinceKey,
    pub terrain: Terrain,
    pub supply_center: SupplyCenter,
}

pub struct ProvinceView {
    pub name: Seq<u8>,
    pub terrain: Terrain,
    pub supply_center: SupplyCenterView,
}

impl ProvinceView {
    /// Whether the province confers a unit on its owner.
    pub open spec fn is_supply_center(self) -> bool {
        !(self.supply_center is NoCenter)
    }
}

impl View for Province {
    type V = ProvinceView;

    open spec fn view(&self) -> ProvinceView {
        ProvinceView {
            name: self.short_name@,
            terrain: self.terrain,
            supply_center: self.supply_center@,
        }
    }
}

impl Province {
    /// Whether the province confers a unit on its owner.
    pub fn is_supply_center(&self) -> (r: bool)
        ensures
            r == self@.is_supply_center(),
    {
        match self.supply_center {
            SupplyCenter::NoCenter => false,
            _ => true,
        }
    }
}

/// A region of the board: a place where a unit can stand.
#[derive(Debug)]
pub struct Region {
    pub key: RegionKey,
    pub terrain: Terrain,
}

pub struct RegionView {
    pub name: RegionName,
    pub terrain: Terrain,
}

impl View for Region {
    type V = RegionView;

    open spec fn view(&self) -> RegionView {
        RegionView { name: self.key@, terrain: self.terrain }
    }
}

impl Region {
    /// The kind of unit that can stand on the region.
    pub fn terrain(&self) -> (r: Terrain)
        ensures
            r == self@.terrain,
    {
        self.terrain
    }
}

/// A border joins two regions; its terrain says which units can cross it.
#[derive(Debug)]
pub struct Border {
    pub a: RegionKey,
    pub b: RegionKey,
    pub terrain: Terrain,
}

pub struct BorderView {
    pub a: RegionName,
    pub b: RegionName,
    pub terrain: Terrain,
}

impl BorderView {
    /// Whether the border joins the two regions, in either direction.
    pub open spec fn connects(self, r1: RegionName, r2: RegionName) -> bool {
        (self.a == r1 && self.b == r2) || (self.a == r2 && self.b == r1)
    }

    /// Whether the border joins the region to some region of the province.
    pub open spec fn reaches(self, r: RegionName, p: Seq<u8>) -> bool {
        (self.a == r && self.b.province == p) || (self.b == r && self.a.province == p)
    }

    /// Whether one end of the border lies in the province.
    pub open spec fn touches(self, p: Seq<u8>) -> bool {
        self.a.province == p || self.b.province == p
    }

    /// The end of the border that faces the province `p`: the far end where
    /// the first end lies in `p`, else the first end.
    pub open spec fn far_side(self, p: Seq<u8>) -> RegionName {
        if self.a.province == p {
            self.b
        } else {
            self.a
        }
    }
}

impl View for Border {
    type V = BorderView;

    open spec fn view(&self) -> BorderView {
        BorderView { a: self.a@, b: self.b@, terrain: self.terrain }
    }
}

impl Border {
    /// The kind of unit that can cross the border.
    pub fn terrain(&self) -> (r: Terrain)
        ensures
            r == self@.terrain,
    {
        self.terrain
    }

    /// Whether the border joins the two regions, in either direction.
    pub fn connects(&self, r1: &RegionKey, r2: &RegionKey) -> (r: bool)
        ensures
            r == self@.connects(r1@, r2@),
    {
        (self.a.eq(r1) && self.b.eq(r2)) || (self.a.eq(r2) && self.b.eq(r1))
    }

    /// Whether the border joins the region to some region of the province.
    pub fn reaches(&self, r: &RegionKey, p: &ProvinceKey) -> (res: bool)
        ensures
            res == self@.reaches(r@, p@),
    {
        (self.a.eq(r) && self.b.is_in(p)) || (self.b.eq(r) && self.a.is_in(p))
    }
}

/// What a board holds, as plain sequences.
pub struct WorldMapView {
    pub provinces: Seq<ProvinceView>,
    pub regions: Seq<RegionView>,
    pub borders: Seq<BorderView>,
}

impl WorldMapView {
    /// For each province, whether it bears the name.
    pub open spec fn province_mask(self, p: Seq<u8>) -> Seq<bool> {
        Seq::new(self.provinces.len(), |i: int| self.provinces[i].name == p)
    }

    /// The place of the province with the name.
    pub open spec fn province_index(self, p: Seq<u8>) -> Option<int> {
        first_true(self.province_mask(p), 0)
    }

    /// Whether the board has a province of the name.
    pub open spec fn has_province(self, p: Seq<u8>) -> bool {
        self.province_index(p) is Some
    }

    /// The terrain of the province with the name.
    pub open spec fn province_terrain(self, p: Seq<u8>) -> Option<Terrain> {
        match self.province_index(p) {
            Some(i) => Some(self.provinces[i].terrain),
            None => None,
        }
    }

    /// For each region, whether it bears the name.
    pub open spec fn region_mask(self, r: RegionName) -> Seq<bool> {
        Seq::new(self.regions.len(), |i: int| self.regions[i].name == r)
    }

    /// The place of the region with the name.
    pub open spec fn region_index(self, r: RegionName) -> Option<int> {
        first_true(self.region_mask(r), 0)
    }

    /// Whether the board has a region of the name.
    pub open spec fn has_region(self, r: RegionName) -> bool {
        self.region_index(r) is Some
    }

    /// The terrain of the region with the name.
    pub open spec fn region_terrain(self, r: RegionName) -> Option<Terrain> {
        match self.region_index(r) {
            Some(i) => Some(self.regions[i].terrain),
            None => None,
        }
    }

    /// For each border, whether it joins the two regions.
    pub open spec fn connect_mask(self, r1: RegionName, r2: RegionName) -> Seq<bool> {
        Seq::new(self.borders.len(), |i: int| self.borders[i].connects(r1, r2))
    }

    /// The place of the first border that joins the two regions.
    pub open spec fn border_between(self, r1: RegionName, r2: RegionName) -> Option<int> {
        first_true(self.connect_mask(r1, r2), 0)
    }

    /// For each border, whether it joins the region to the province.
    pub open spec fn reach_mask(self, r: RegionName, p: Seq<u8>) -> Seq<bool> {
        Seq::new(self.borders.len(), |i: int| self.borders[i].reaches(r, p))
    }

    /// The places of the borders that join the region to the province.
    pub open spec fn borders_between(self, r: RegionName, p: Seq<u8>) -> Seq<int> {
        trues(self.reach_mask(r, p))
    }

    /// For each border, whether it has an end in the province and, where a
    /// terrain is asked for, that terrain.
    pub open spec fn touch_mask(self, p: Seq<u8>, terrain: Option<Terrain>) -> Seq<bool> {
        Seq::new(
            self.borders.len(),
            |i: int|
                self.borders[i].touches(p) && (terrain is Some ==> self.borders[i].terrain
                    == terrain->0),
        )
    }

    /// The places of the borders with an end in the province.
    pub open spec fn bordering(self, p: Seq<u8>, terrain: Option<Terrain>) -> Seq<int> {
        trues(self.touch_mask(p, terrain))
    }

    /// Whether some border joins a region of province `p` to a region of
    /// province `q`.
    pub open spec fn provinces_adjacent(self, p: Seq<u8>, q: Seq<u8>) -> bool {
        exists|i: int|
            0 <= i < self.borders.len() && self.borders[i].touches(p)
                && #[trigger] self.borders[i].far_side(p).province == q
    }

    /// Whether some border joins a region of province `p` to the region `r`.
    pub open spec fn province_adjacent_to(self, p: Seq<u8>, r: RegionName) -> bool {
        exists|i: int|
            0 <= i < self.borders.len() && self.borders[i].touches(p)
                && #[trigger] self.borders[i].far_side(p) == r
    }

    /// The board with one more province; unchanged where it has a province
    /// of that name.
    pub open spec fn with_province(self, p: ProvinceView) -> WorldMapView {
        if self.has_province(p.name) {
            self
        } else {
            WorldMapView { provinces: self.provinces.push(p), ..self }
        }
    }

    /// The board with one more region; unchanged where it has a region of
    /// that name or lacks the region's province.
    pub open spec fn with_region(self, r: RegionView) -> WorldMapView {
        if self.has_province(r.name.province) && !self.has_region(r.name) {
            WorldMapView { regions: self.regions.push(r), ..self }
        } else {
            self
        }
    }

    /// The board with one more border; unchanged where an end of the border
    /// is no region of the board, where both ends lie in one province, and
    /// where a border joins the two regions already.
    pub open spec fn with_border(self, b: BorderView) -> WorldMapView {
        if self.has_region(b.a) && self.has_region(b.b) && b.a.province != b.b.province
            && self.border_between(b.a, b.b) is None {
            WorldMapView { borders: self.borders.push(b), ..self }
        } else {
            self
        }
    }

    /// No name is used twice, every region lies in a province of the board,
    /// and every border joins two regions of the board that lie in different
    /// provinces.
    pub open spec fn wf(self) -> bool {
        &&& forall|i: int, j: int|
            0 <= i < j < self.provinces.len() ==> self.provinces[i].name != self.provinces[j].name
        &&& forall|i: int, j: int|
            0 <= i < j < self.regions.len() ==> self.regions[i].name != self.regions[j].name
        &&& forall|i: int|
            0 <= i < self.regions.len() ==> self.has_province(
                #[trigger] self.regions[i].name.province,
            )
        &&& forall|i: int|
            0 <= i < self.borders.len() ==> {
                &&& self.has_region((#[trigger] self.borders[i]).a)
                &&& self.has_region(self.borders[i].b)
                &&& self.borders[i].a.province != self.borders[i].b.province
            }
    }
}

/// The board.
#[derive(Debug)]
pub struct WorldMap {
    provinces: Vec<Province>,
    regions: Vec<Region>,
    borders: Vec<Border>,
}

impl View for WorldMap {
    type V = WorldMapView;

    closed spec fn view(&self) -> WorldMapView {
        WorldMapView {
            provinces: Seq::new(self.provinces@.len(), |i: int| self.provinces@[i]@),
            regions: Seq::new(self.regions@.len(), |i: int| self.regions@[i]@),
            borders: Seq::new(self.borders@.len(), |i: int| self.borders@[i]@),
        }
    }
}

impl WorldMap {
    /// Whether the board is well formed. Every board that this type's
    /// functions build is.
    pub open spec fn wf(&self) -> bool {
        self@.wf()
    }

    /// The board without provinces.
    pub fn new() -> (r: WorldMap)
        ensures
            r.wf(),
            r@.provinces.len() == 0,
            r@.regions.len() == 0,
            r@.borders.len() == 0,
    {
        WorldMap { provinces: Vec::new(), regions: Vec::new(), borders: Vec::new() }
    }

    /// The provinces, in the order in which they were added.
    pub fn provinces(&self) -> (r: &Vec<Province>)
        ensures
            r@.len() == self@.provinces.len(),
            forall|i: int| 0 <= i < r@.len() ==> (#[trigger] r@[i])@ == self@.provinces[i],
    {
        &self.provinces
    }

    /// The regions, in the order in which they were added.
    pub fn regions(&self) -> (r: &Vec<Region>)
        ensures
            r@.len() == self@.regions.len(),
            forall|i: int| 0 <= i < r@.len() ==> (#[trigger] r@[i])@ == self@.regions[i],
    {
        &self.regions
    }

    /// The borders, in the order in which they were added.
    pub fn borders(&self) -> (r: &Vec<Border>)
        ensures
            r@.len() == self@.borders.len(),
            forall|i: int| 0 <= i < r@.len() ==> (#[trigger] r@[i])@ == self@.borders[i],
    {
        &self.borders
    }

    /// The place of the province with the given key.
    pub fn province_index(&self, key: &ProvinceKey) -> (r: Option<usize>)
        ensures
            r is Some == self@.province_index(key@) is Some,
            r is Some ==> r->0 == self@.province_index(key@)->0 && r->0 < self@.provinces.len()
                && self@.provinces[r->0 as int].name == key@,
            r is None ==> forall|i: int|
                0 <= i < self@.provinces.len() ==> self@.provinces[i].name != key@,
    {
        let ghost mask = self@.province_mask(key@);
        let mut i: usize = 0;
        while i < self.provinces.len()
            invariant
                i <= self.provinces.len(),
                mask == self@.province_mask(key@),
                forall|j: int| 0 <= j < i ==> !mask[j],
            decreases self.provinces.len() - i,
        {
            if self.provinces[i].short_name.eq(key) {
                proof {
                    lemma_first_true_is(mask, 0, i as int);
                }
                return Some(i);
            }
            i += 1;
        }
        proof {
            lemma_first_true_none(mask, 0);
            assert forall|i: int| 0 <= i < self@.provinces.len() implies self@.provinces[i].name
                != key@ by {
                assert(!mask[i]);
            }
        }
        None
    }

    /// The province with the given key.
    pub fn find_province(&self, key: &ProvinceKey) -> (r: Option<&Province>)
        ensures
            r is Some == self@.has_province(key@),
            r is Some ==> r->0@ == self@.provinces[self@.province_index(key@)->0],
            r is Some ==> r->0@.name == key@,
            r is Some ==> Some(r->0@.terrain) == self@.province_terrain(key@),
            r is None ==> self@.province_terrain(key@) is None,
    {
        match self.province_index(key) {
            Some(i) => Some(&self.provinces[i]),
            None => None,
        }
    }

    /// The place of the region with the given key.
    pub fn region_index(&self, key: &RegionKey) -> (r: Option<usize>)
        ensures
            r is Some == self@.region_index(key@) is Some,
            r is Some ==> r->0 == self@.region_index(key@)->0 && r->0 < self@.regions.len()
                && self@.regions[r->0 as int].name == key@,
            r is None ==> forall|i: int|
                0 <= i < self@.regions.len() ==> self@.regions[i].name != key@,
    {
        let ghost mask = self@.region_mask(key@);
        let mut i: usize = 0;
        while i < self.regions.len()
            invariant
                i <= self.regions.len(),
                mask == self@.region_mask(key@),
                forall|j: int| 0 <= j < i ==> !mask[j],
            decreases self.regions.len() - i,
        {
            if self.regions[i].key.eq(key) {
                proof {
                    lemma_first_true_is(mask, 0, i as int);
                }
                return Some(i);
            }
            i += 1;
        }
        proof {
            lemma_first_true_none(mask, 0);
            assert forall|i: int| 0 <= i < self@.regions.len() implies self@.regions[i].name
                != key@ by {
                assert(!mask[i]);
            }
        }
        None
    }

    /// The region with the given key.
    pub fn find_region(&self, key: &RegionKey) -> (r: Option<&Region>)
        ensures
            r is Some == self@.has_region(key@),
            r is Some ==> r->0@ == self@.regions[self@.region_index(key@)->0],
            r is Some ==> r->0@.name == key@,
            r is Some ==> Some(r->0@.terrain) == self@.region_terrain(key@),
            r is None ==> self@.region_terrain(key@) is None,
    {
        match self.region_index(key) {
            Some(i) => Some(&self.regions[i]),
            None => None,
        }
    }

    /// The first border that joins the two regions, in either direction.
    pub fn find_border_between(&self, r1: &RegionKey, r2: &RegionKey) -> (r: Option<&Border>)
        ensures
            r is Some == self@.border_between(r1@, r2@) is Some,
            r is Some ==> r->0@ == self@.borders[self@.border_between(r1@, r2@)->0],
    {
        let ghost mask = self@.connect_mask(r1@, r2@);
        let mut i: usize = 0;
        while i < self.borders.len()
            invariant
                i <= self.borders.len(),
                mask == self@.connect_mask(r1@, r2@),
                forall|j: int| 0 <= j < i ==> !mask[j],
            decreases self.borders.len() - i,
        {
            if self.borders[i].connects(r1, r2) {
                proof {
                    lemma_first_true_is(mask, 0, i as int);
                }
                return Some(&self.borders[i]);
            }
            i += 1;
        }
        proof {
            lemma_first_true_none(mask, 0);
        }
        None
    }

    /// The borders that join the region to a region of the province.
    pub fn find_borders_between(&self, r: &RegionKey, p: &ProvinceKey) -> (res: Vec<&Border>)
        ensures
            res@.len() == self@.borders_between(r@, p@).len(),
            forall|k: int|
                0 <= k < res@.len() ==> (#[trigger] res@[k])@
                    == self@.borders[self@.borders_between(r@, p@)[k]],
    {
        let ghost mask = self@.reach_mask(r@, p@);
        let mut out: Vec<&Border> = Vec::new();
        let mut i: usize = 0;
        while i < self.borders.len()
            invariant
                i <= self.borders.len(),
                mask == self@.reach_mask(r@, p@),
                out@.len() == trues_upto(mask, i as int).len(),
                forall|k: int|
                    0 <= k < out@.len() ==> (#[trigger] out@[k])@
                        == self@.borders[trues_upto(mask, i as int)[k]],
            decreases self.borders.len() - i,
        {
            if self.borders[i].reaches(r, p) {
                out.push(&self.borders[i]);
            }
            i += 1;
        }
        out
    }

    /// The regions that a border joins to the province, one for each such
    /// border; where a terrain is given, only borders of that terrain count.
    pub fn find_bordering(&self, p: &ProvinceKey, terrain: Option<Terrain>) -> (res: Vec<
        &RegionKey,
    >)
        ensures
            res@.len() == self@.bordering(p@, terrain).len(),
            forall|k: int|
                0 <= k < res@.len() ==> (#[trigger] res@[k])@
                    == self@.borders[self@.bordering(p@, terrain)[k]].far_side(p@),
    {
        let ghost mask = self@.touch_mask(p@, terrain);
        let mut out: Vec<&RegionKey> = Vec::new();
        let mut i: usize = 0;
        while i < self.borders.len()
            invariant
                i <= self.borders.len(),
                mask == self@.touch_mask(p@, terrain),
                out@.len() == trues_upto(mask, i as int).len(),
                forall|k: int|
                    0 <= k < out@.len() ==> (#[trigger] out@[k])@
                        == self@.borders[trues_upto(mask, i as int)[k]].far_side(p@),
            decreases self.borders.len() - i,
        {
            let b = &self.borders[i];
            let wanted = match terrain {
                Some(t) => b.terrain == t,
                None => true,
            };
            if wanted {
                if b.a.is_in(p) {
                    out.push(&b.b);
                } else if b.b.is_in(p) {
                    out.push(&b.a);
                }
            }
            i += 1;
        }
        out
    }

    /// Whether some border joins a region of province `p` to a region of
    /// province `q`.
    pub fn provinces_adjacent(&self, p: &ProvinceKey, q: &ProvinceKey) -> (r: bool)
        ensures
            r == self@.provinces_adjacent(p@, q@),
    {
        let mut i: usize = 0;
        while i < self.borders.len()
            invariant
                i <= self.borders.len(),
                forall|j: int|
                    0 <= j < i ==> !(self@.borders[j].touches(p@) && #[trigger] self@.borders[j].far_side(
                        p@,
                    ).province == q@),
            decreases self.borders.len() - i,
        {
            let b = &self.borders[i];
            if (b.a.is_in(p) && b.b.is_in(q)) || (!b.a.is_in(p) && b.b.is_in(p) && b.a.is_in(q)) {
                assert(self@.borders[i as int].touches(p@) && self@.borders[i as int].far_side(
                    p@,
                ).province == q@);
                return true;
            }
            i += 1;
        }
        false
    }

    /// Whether some border joins a region of province `p` to the region `r`.
    pub fn province_adjacent_to(&self, p: &ProvinceKey, r: &RegionKey) -> (res: bool)
        ensures
            res == self@.province_adjacent_to(p@, r@),
    {
        let mut i: usize = 0;
        while i < self.borders.len()
            invariant
                i <= self.borders.len(),
                forall|j: int|
                    0 <= j < i ==> !(self@.borders[j].touches(p@) && #[trigger] self@.borders[j].far_side(
                        p@,
                    ) == r@),
            decreases self.borders.len() - i,
        {
            let b = &self.borders[i];
            if (b.a.is_in(p) && b.b.eq(r)) || (!b.a.is_in(p) && b.b.is_in(p) && b.a.eq(r)) {
                assert(self@.borders[i as int].touches(p@) && self@.borders[i as int].far_side(p@)
                    == r@);
                return true;
            }
            i += 1;
        }
        false
    }

    /// Adds a province, unless the board has one of that name.
    pub fn add_province(&mut self, province: Province) -> (added: bool)
        requires
            old(self).wf(),
        ensures
            final(self).wf(),
            added == !old(self)@.has_province(province@.name),
            final(self)@ == old(self)@.with_province(province@),
    {
        if self.province_index(&province.short_name).is_some() {
            return false;
        }
        let ghost before = self@;
        let ghost pv = province@;
        self.provinces.push(province);
        proof {
            let after = self@;
            assert(after.provinces =~= before.provinces.push(pv));
            assert forall|i: int| 0 <= i < after.regions.len() implies after.has_province(
                #[trigger] after.regions[i].name.province,
            ) by {
                let p = after.regions[i].name.province;
                lemma_first_true(before.province_mask(p), 0);
                let w = before.province_index(p)->0;
                assert(after.province_mask(p)[w]);
                lemma_first_true(after.province_mask(p), 0);
            }
        }
        true
    }

    /// Adds a region, unless the board has one of that name or lacks its
    /// province.
    pub fn add_region(&mut self, region: Region) -> (added: bool)
        requires
            old(self).wf(),
        ensures
            final(self).wf(),
            added == (old(self)@.has_province(region@.name.province) && !old(self)@.has_region(
                region@.name,
            )),
            final(self)@ == old(self)@.with_region(region@),
    {
        if self.province_index(region.key.province()).is_none() {
            return false;
        }
        if self.region_index(&region.key).is_some() {
            return false;
        }
        let ghost before = self@;
        let ghost rv = region@;
        self.regions.push(region);
        proof {
            let after = self@;
            assert(after.regions =~= before.regions.push(rv));
            assert forall|i: int| 0 <= i < after.borders.len() implies {
                &&& after.has_region((#[trigger] after.borders[i]).a)
                &&& after.has_region(after.borders[i].b)
                &&& after.borders[i].a.province != after.borders[i].b.province
            } by {
                let a = after.borders[i].a;
                let b = after.borders[i].b;
                lemma_first_true(before.region_mask(a), 0);
                lemma_first_true(before.region_mask(b), 0);
                let wa = before.region_index(a)->0;
                let wb = before.region_index(b)->0;
                assert(after.region_mask(a)[wa]);
                assert(after.region_mask(b)[wb]);
                lemma_first_true(after.region_mask(a), 0);
                lemma_first_true(after.region_mask(b), 0);
            }
        }
        true
    }

    /// Adds a border, unless one of its ends is no region of the board, both
    /// lie in one province, or a border joins the two already.
    pub fn add_border(&mut self, border: Border) -> (added: bool)
        requires
            old(self).wf(),
        ensures
            final(self).wf(),
            added == (old(self)@.has_region(border@.a) && old(self)@.has_region(border@.b)
                && border@.a.province != border@.b.province && old(self)@.border_between(
                border@.a,
                border@.b,
            ) is None),
            final(self)@ == old(self)@.with_border(border@),
    {
        if self.region_index(&border.a).is_none() || self.region_index(&border.b).is_none() {
            return false;
        }
        if border.a.province().eq(border.b.province()) {
            return false;
        }
        if self.find_border_between(&border.a, &border.b).is_some() {
            return false;
        }
        let ghost before = self@;
        let ghost bv = border@;
        self.borders.push(border);
        proof {
            let after = self@;
            assert(after.borders =~= before.borders.push(bv));
        }
        true
    }
}

} // verus!
