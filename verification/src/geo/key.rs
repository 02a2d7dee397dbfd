//! The names by which provinces and regions are known.
use vstd::prelude::*;
use vstd::string::StringSliceAdditionalSpecFns;
use vstd::std_specs::cmp::PartialEqSpecImpl;
use vstd::std_specs::convert::FromSpecImpl;
use crate::ShortName;
use crate::text::{bytes_clone, bytes_eq, bytes_to_string, lower, lower_byte, to_lower, to_lower_byte};

verus! {

/// What kind of unit can stand on a region or cross a border.
#[derive(Clone, Copy, Debug, PartialEq, Eq, Structural)]
pub enum Terrain {
    /// Only armies.
    Land,
    /// Armies and fleets.
    Coast,
    /// Only fleets.
    Sea,
}

/// The coast of a province that has more than one.
#[derive(Clone, Copy, Debug, PartialEq, Eq, Structural)]
pub enum Coast {
    North,
    East,
    South,
    West,
}

impl Coast {
    /// The lower-case letter that names the coast.
    pub open spec fn letter_spec(self) -> u8 {
        match self {
            Coast::North => 110,
            Coast::East => 101,
            Coast::South => 115,
            Coast::West => 119,
        }
    }

    /// The coast that a lower-case letter names.
    pub open spec fn of_letter(b: u8) -> Option<Coast> {
        if b == 110 {
            Some(Coast::North)
        } else if b == 101 {
            Some(Coast::East)
        } else if b == 115 {
            Some(Coast::South)
        } else if b == 119 {
            Some(Coast::West)
        } else {
            None
        }
    }

    /// The lower-case letter that names the coast.
    pub fn letter(self) -> (r: u8)
        ensures
            r == self.letter_spec(),
            Coast::of_letter(r) == Some(self),
    {
        match self {
            Coast::North => 110,
            Coast::East => 101,
            Coast::South => 115,
            Coast::West => 119,
        }
    }

    /// The coast that a lower-case letter names.
    pub fn from_letter(b: u8) -> (r: Option<Coast>)
        ensures
            r == Coast::of_letter(b),
    {
        if b == 110 {
            Some(Coast::North)
        } else if b == 101 {
            Some(Coast::East)
        } else if b == 115 {
            Some(Coast::South)
        } else if b == 119 {
            Some(Coast::West)
        } else {
            None
        }
    }
}

/// Whether two optional coasts are the same.
pub fn same_coast(a: Option<Coast>, b: Option<Coast>) -> (r: bool)
    ensures
        r == (a == b),
{
    match (a, b) {
        (None, None) => true,
        (Some(x), Some(y)) => x == y,
        _ => false,
    }
}

/// The short name of a province, lower-cased.
#[derive(Debug)]
pub struct ProvinceKey {
    name: Vec<u8>,
}

impl View for ProvinceKey {
    type V = Seq<u8>;

    /// The lower-cased short name.
    closed spec fn view(&self) -> Seq<u8> {
        self.name@
    }
}

impl ProvinceKey {
    /// The key of the province with the given short name.
    pub fn new(name: &str) -> (r: ProvinceKey)
        ensures
            r@ == lower(name.spec_bytes()),
    {
        ProvinceKey { name: to_lower(name.as_bytes()) }
    }

    /// The key of the province with the given short name, given as bytes.
    pub fn from_bytes(name: &[u8]) -> (r: ProvinceKey)
        ensures
            r@ == lower(name@),
    {
        ProvinceKey { name: to_lower(name) }
    }

    /// The bytes of the lower-cased short name.
    pub fn name(&self) -> (r: &Vec<u8>)
        ensures
            r@ == self@,
    {
        &self.name
    }
}

impl Clone for ProvinceKey {
    fn clone(&self) -> (r: ProvinceKey)
        ensures
            r@ == self@,
    {
        ProvinceKey { name: bytes_clone(&self.name) }
    }
}

impl PartialEq for ProvinceKey {
    fn eq(&self, other: &ProvinceKey) -> (r: bool) {
        bytes_eq(&self.name, &other.name)
    }
}

impl Eq for ProvinceKey {

}

impl PartialEqSpecImpl for ProvinceKey {
    open spec fn obeys_eq_spec() -> bool {
        true
    }

    open spec fn eq_spec(&self, other: &ProvinceKey) -> bool {
        self@ == other@
    }
}

impl<'a> From<&'a str> for ProvinceKey {
    fn from(name: &'a str) -> (r: ProvinceKey)
        ensures
            r@ == lower(name.spec_bytes()),
    {
        ProvinceKey::new(name)
    }
}

impl<'a> FromSpecImpl<&'a str> for ProvinceKey {
    open spec fn obeys_from_spec() -> bool {
        false
    }

    open spec fn from_spec(name: &'a str) -> ProvinceKey {
        arbitrary()
    }
}

impl ShortName for ProvinceKey {
    fn short_name(&self) -> (r: String)
        ensures
            vstd::utf8::valid_utf8(self@) ==> r@ == vstd::utf8::decode_utf8(self@),
    {
        bytes_to_string(&self.name)
    }
}

/// What a region key stands for: a province and, where the province has
/// several coasts, one of them.
pub struct RegionName {
    pub province: Seq<u8>,
    pub coast: Option<Coast>,
}

/// The region that a word names: a province's short name, followed by a
/// coast in the form `(nc)` where one is meant. `None` for the empty word
/// and for a bracket that names no coast.
pub open spec fn region_name_of(word: Seq<u8>) -> Option<RegionName> {
    let n = word.len() as int;
    if n >= 5 && word[n - 1] == 41 && word[n - 4] == 40 {
        if lower_byte(word[n - 2]) == 99 {
            match Coast::of_letter(lower_byte(word[n - 3])) {
                Some(c) => Some(RegionName { province: lower(word.subrange(0, n - 4)), coast: Some(c) }),
                None => None,
            }
        } else {
            None
        }
    } else if n >= 1 {
        Some(RegionName { province: lower(word), coast: None })
    } else {
        None
    }
}

/// The text of a region: the province's name, then the coast in brackets.
pub open spec fn region_text(r: RegionName) -> Seq<u8> {
    match r.coast {
        Some(c) => r.province + seq![40u8, c.letter_spec(), 99u8, 41u8],
        None => r.province,
    }
}

/// A place where a unit can stand: a province, or one coast of it.
#[derive(Debug)]
pub struct RegionKey {
    province: ProvinceKey,
    coast: Option<Coast>,
}

impl View for RegionKey {
    type V = RegionName;

    closed spec fn view(&self) -> RegionName {
        RegionName { province: self.province@, coast: self.coast }
    }
}

impl RegionKey {
    /// The region made of a province and an optional coast.
    pub fn new(province: ProvinceKey, coast: Option<Coast>) -> (r: RegionKey)
        ensures
            r@ == (RegionName { province: province@, coast }),
    {
        RegionKey { province, coast }
    }

    /// The region that a word names.
    pub fn parse(word: &[u8]) -> (r: Option<RegionKey>)
        ensures
            r is Some == region_name_of(word@) is Some,
            r is Some ==> r->0@ == region_name_of(word@)->0,
    {
        let n: usize = word.len();
        if n >= 5 && word[n - 1] == 41 && word[n - 4] == 40 {
            if to_lower_byte(word[n - 2]) == 99 {
                match Coast::from_letter(to_lower_byte(word[n - 3])) {
                    Some(c) => {
                        let head = vstd::slice::slice_subrange(word, 0, n - 4);
                        Some(RegionKey { province: ProvinceKey::from_bytes(head), coast: Some(c) })
                    },
                    None => None,
                }
            } else {
                None
            }
        } else if n >= 1 {
            Some(RegionKey { province: ProvinceKey::from_bytes(word), coast: None })
        } else {
            None
        }
    }

    /// The province that the region belongs to.
    pub fn province(&self) -> (r: &ProvinceKey)
        ensures
            r@ == self@.province,
    {
        &self.province
    }

    /// The coast of the region, if it is one coast of its province.
    pub fn coast(&self) -> (r: Option<Coast>)
        ensures
            r == self@.coast,
    {
        self.coast
    }

    /// Whether the region lies in the given province.
    pub fn is_in(&self, province: &ProvinceKey) -> (r: bool)
        ensures
            r == (self@.province == province@),
    {
        self.province.eq(province)
    }

    /// The bytes of the region's text.
    pub fn text(&self) -> (r: Vec<u8>)
        ensures
            r@ == region_text(self@),
    {
        let mut out = bytes_clone(self.province.name());
        match self.coast {
            Some(c) => {
                out.push(40);
                out.push(c.letter());
                out.push(99);
                out.push(41);
            },
            None => {},
        }
        out
    }
}

impl Clone for RegionKey {
    fn clone(&self) -> (r: RegionKey)
        ensures
            r@ == self@,
    {
        RegionKey { province: self.province.clone(), coast: self.coast }
    }
}

impl PartialEq for RegionKey {
    fn eq(&self, other: &RegionKey) -> (r: bool) {
        self.province.eq(&other.province) && same_coast(self.coast, other.coast)
    }
}

impl Eq for RegionKey {

}

impl PartialEqSpecImpl for RegionKey {
    open spec fn obeys_eq_spec() -> bool {
        true
    }

    open spec fn eq_spec(&self, other: &RegionKey) -> bool {
        self@ == other@
    }
}

impl core::str::FromStr for RegionKey {
    type Err = ();

    fn from_str(s: &str) -> (r: Result<RegionKey, ()>)
        ensures
            r is Ok == region_name_of(s.spec_bytes()) is Some,
            r is Ok ==> r->Ok_0@ == region_name_of(s.spec_bytes())->0,
    {
        match RegionKey::parse(s.as_bytes()) {
            Some(k) => Ok(k),
            None => Err(()),
        }
    }
}

impl ShortName for RegionKey {
    fn short_name(&self) -> (r: String)
        ensures
            vstd::utf8::valid_utf8(region_text(self@)) ==> r@ == vstd::utf8::decode_utf8(
                region_text(self@),
            ),
    {
        bytes_to_string(&self.text())
    }
}

} // verus!
