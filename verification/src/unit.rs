//! Armies and fleets.
use vstd::prelude::*;
use crate::geo::key::{ProvinceKey, RegionKey, RegionName, Terrain};
use crate::nation::Nation;
use crate::text::lower;

verus! {

/// The word `a`.
pub open spec fn a_word() -> Seq<u8> {
    seq![97u8]
}

/// The word `army`.
pub open spec fn army_word() -> Seq<u8> {
    seq![97u8, 114u8, 109u8, 121u8]
}

/// The word `f`.
pub open spec fn f_word() -> Seq<u8> {
    seq![102u8]
}

/// The word `fleet`.
pub open spec fn fleet_word() -> Seq<u8> {
    seq![102u8, 108u8, 101u8, 101u8, 116u8]
}

/// The two kinds of unit.
#[derive(Clone, Copy, Debug, PartialEq, Eq, Structural)]
pub enum UnitType {
    /// A land-based unit which can traverse inland and coastal terrain.
    Army,
    /// A naval unit which can traverse sea and coastal terrain.
    Fleet,
}

impl UnitType {
    /// The letter that stands for the unit type in an order.
    pub open spec fn letter(self) -> u8 {
        match self {
            UnitType::Army => 65,
            UnitType::Fleet => 70,
        }
    }

    /// The unit type that a word of an order names: `A` or `F`, in either case,
    /// or the full words `army` and `fleet`.
    pub open spec fn parse_spec(word: Seq<u8>) -> Option<UnitType> {
        let w = lower(word);
        if w == a_word() || w == army_word() {
            Some(UnitType::Army)
        } else if w == f_word() || w == fleet_word() {
            Some(UnitType::Fleet)
        } else {
            None
        }
    }
}

impl UnitType {
    /// Whether a unit of this type can stand on the terrain: either type on a
    /// coast, armies on land, fleets at sea.
    pub open spec fn can_occupy_spec(self, terrain: Terrain) -> bool {
        match terrain {
            Terrain::Coast => true,
            Terrain::Land => self == UnitType::Army,
            Terrain::Sea => self == UnitType::Fleet,
        }
    }

    /// Whether a unit of this type can stand on the terrain.
    pub fn can_occupy(self, terrain: Terrain) -> (r: bool)
        ensures
            r == self.can_occupy_spec(terrain),
    {
        match terrain {
            Terrain::Coast => true,
            Terrain::Land => self == UnitType::Army,
            Terrain::Sea => self == UnitType::Fleet,
        }
    }
}

/// A unit: its nation and its type.
#[derive(Debug)]
pub struct Unit {
    pub nation: Nation,
    pub unit_type: UnitType,
}

impl Unit {
    /// The unit of the nation and type.
    pub fn new(nation: Nation, unit_type: UnitType) -> (r: Unit)
        ensures
            r.nation@ == nation@,
            r.unit_type == unit_type,
    {
        Unit { nation, unit_type }
    }

    /// The nation that the unit belongs to.
    pub fn nation(&self) -> (r: &Nation)
        ensures
            r@ == self.nation@,
    {
        &self.nation
    }

    /// The type of the unit.
    pub fn unit_type(&self) -> (r: UnitType)
        ensures
            r == self.unit_type,
    {
        self.unit_type
    }
}

impl Clone for Unit {
    fn clone(&self) -> (r: Unit)
        ensures
            r.nation@ == self.nation@,
            r.unit_type == self.unit_type,
    {
        Unit { nation: self.nation.clone(), unit_type: self.unit_type }
    }
}

/// A unit and the region where it stands.
#[derive(Debug)]
pub struct UnitPosition {
    pub unit: Unit,
    pub region: RegionKey,
}

pub struct UnitPositionView {
    pub nation: Seq<u8>,
    pub unit_type: UnitType,
    pub region: RegionName,
}

impl View for UnitPosition {
    type V = UnitPositionView;

    open spec fn view(&self) -> UnitPositionView {
        UnitPositionView {
            nation: self.unit.nation@,
            unit_type: self.unit.unit_type,
            region: self.region@,
        }
    }
}

impl UnitPosition {
    /// The unit in the region.
    pub fn new(unit: Unit, region: RegionKey) -> (r: UnitPosition)
        ensures
            r@ == (UnitPositionView {
                nation: unit.nation@,
                unit_type: unit.unit_type,
                region: region@,
            }),
    {
        UnitPosition { unit, region }
    }

    /// The nation that the unit belongs to.
    pub fn nation(&self) -> (r: &Nation)
        ensures
            r@ == self@.nation,
    {
        &self.unit.nation
    }

    /// The province in which the unit stands.
    pub fn province(&self) -> (r: &ProvinceKey)
        ensures
            r@ == self@.region.province,
    {
        self.region.province()
    }
}

impl Clone for UnitPosition {
    fn clone(&self) -> (r: UnitPosition)
        ensures
            r@ == self@,
    {
        UnitPosition { unit: self.unit.clone(), region: self.region.clone() }
    }
}

/// No two of the units stand in the same province.
pub open spec fn distinct_provinces(units: Seq<UnitPositionView>) -> bool {
    forall|i: int, j: int|
        0 <= i < j < units.len() ==> units[i].region.province != units[j].region.province
}

/// The views of a vector of unit positions.
pub open spec fn positions_view(units: Seq<UnitPosition>) -> Seq<UnitPositionView> {
    Seq::new(units.len(), |i: int| units[i]@)
}

} // verus!
