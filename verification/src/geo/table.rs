//! Boards from text. A board is described by records of words:
//!
//! - `sea NAME`: a sea province;
//! - `land NAME CENTER`, `coast NAME CENTER`: a province without a coast, or
//!   with one; `CENTER` is `-` for no supply center, `*` for a supply center
//!   that is no nation's home, and else the nation whose home supply center
//!   the province is;
//! - `split NAME COASTS CENTER`: a province with several coasts, each named
//!   by its letter in `COASTS`; armies stand in the province, fleets on one
//!   of the coasts;
//! - `army A B`, `fleet A B`, `both A B`: a border between the regions `A`
//!   and `B` that only armies, only fleets, or both cross.
//!
//! A word that begins no record is passed over.
use vstd::prelude::*;
use crate::geo::key::{Coast, ProvinceKey, region_name_of, RegionKey, RegionName, Terrain};
use crate::geo::map::{Border, BorderView, Province, ProvinceView, Region, RegionView, SupplyCenter,
    SupplyCenterView, WorldMap, WorldMapView};
use crate::nation::Nation;
use crate::parser::words::{split_words, words_of, words_view};
use crate::text::{lower, lower_byte, lower_eq, to_lower_byte};

verus! {

/// The word `sea`.
pub open spec fn sea_word() -> Seq<u8> {
    seq![115u8, 101u8, 97u8]
}

/// The word `land`.
pub open spec fn land_word() -> Seq<u8> {
    seq![108u8, 97u8, 110u8, 100u8]
}

/// The word `coast`.
pub open spec fn coast_word() -> Seq<u8> {
    seq![99u8, 111u8, 97u8, 115u8, 116u8]
}

/// The word `split`.
pub open spec fn split_word() -> Seq<u8> {
    seq![115u8, 112u8, 108u8, 105u8, 116u8]
}

/// The word `army`.
pub open spec fn army_word() -> Seq<u8> {
    seq![97u8, 114u8, 109u8, 121u8]
}

/// The word `fleet`.
pub open spec fn fleet_word() -> Seq<u8> {
    seq![102u8, 108u8, 101u8, 101u8, 116u8]
}

/// The word `both`.
pub open spec fn both_word() -> Seq<u8> {
    seq![98u8, 111u8, 116u8, 104u8]
}

/// The word `-`.
pub open spec fn dash_word() -> Seq<u8> {
    seq![45u8]
}

/// The word `*`.
pub open spec fn star_word() -> Seq<u8> {
    seq![42u8]
}

/// What the word says of a supply center: `-` for none, `*` for one that
/// is no nation's home, and else the nation whose home it is.
pub open spec fn center_of(w: Seq<u8>) -> SupplyCenterView {
    if w == dash_word() {
        SupplyCenterView::NoCenter
    } else if w == star_word() {
        SupplyCenterView::Neutral
    } else {
        SupplyCenterView::Home(lower(w))
    }
}

/// The terrain of the borders that a word names: `army` for land, `fleet`
/// for sea, `both` for coast.
pub open spec fn border_terrain(w: Seq<u8>) -> Option<Terrain> {
    if lower(w) == army_word() {
        Some(Terrain::Land)
    } else if lower(w) == fleet_word() {
        Some(Terrain::Sea)
    } else if lower(w) == both_word() {
        Some(Terrain::Coast)
    } else {
        None
    }
}

/// The board with a province of the given terrain and its one region.
pub open spec fn with_simple(
    m: WorldMapView,
    name: Seq<u8>,
    terrain: Terrain,
    center: SupplyCenterView,
) -> WorldMapView {
    m.with_province(ProvinceView { name, terrain, supply_center: center }).with_region(
        RegionView { name: RegionName { province: name, coast: None }, terrain },
    )
}

/// The board with a region for each coast that the first `k` letters name.
pub open spec fn with_coasts(m: WorldMapView, name: Seq<u8>, letters: Seq<u8>, k: int)
    -> WorldMapView
    decreases k,
{
    if k <= 0 {
        m
    } else {
        let prev = with_coasts(m, name, letters, k - 1);
        match Coast::of_letter(lower_byte(letters[k - 1])) {
            Some(c) => prev.with_region(
                RegionView {
                    name: RegionName { province: name, coast: Some(c) },
                    terrain: Terrain::Sea,
                },
            ),
            None => prev,
        }
    }
}

/// The board with a province of several coasts: a region for armies, and
/// one for fleets on each coast.
pub open spec fn with_split(
    m: WorldMapView,
    name: Seq<u8>,
    letters: Seq<u8>,
    center: SupplyCenterView,
) -> WorldMapView {
    with_coasts(
        m.with_province(
            ProvinceView { name, terrain: Terrain::Coast, supply_center: center },
        ).with_region(
            RegionView { name: RegionName { province: name, coast: None }, terrain: Terrain::Land },
        ),
        name,
        letters,
        letters.len() as int,
    )
}

/// The board with a border between the regions that the two words name;
/// unchanged where one of them names no region.
pub open spec fn with_joined(m: WorldMapView, a: Seq<u8>, b: Seq<u8>, terrain: Terrain)
    -> WorldMapView {
    match region_name_of(a) {
        Some(ra) => match region_name_of(b) {
            Some(rb) => m.with_border(BorderView { a: ra, b: rb, terrain }),
            None => m,
        },
        None => m,
    }
}

/// The board after the record that begins with the word at `i`, and the
/// number of words of that record. A record that the words cut short takes
/// all the words that are left and changes nothing.
pub open spec fn record_at(m: WorldMapView, w: Seq<Seq<u8>>, i: int) -> (WorldMapView, int) {
    let left = w.len() - i;
    let key = lower(w[i]);
    if key == sea_word() {
        if left < 2 {
            (m, left)
        } else {
            (with_simple(m, lower(w[i + 1]), Terrain::Sea, SupplyCenterView::NoCenter), 2)
        }
    } else if key == land_word() || key == coast_word() {
        if left < 3 {
            (m, left)
        } else {
            (
                with_simple(
                    m,
                    lower(w[i + 1]),
                    if key == land_word() {
                        Terrain::Land
                    } else {
                        Terrain::Coast
                    },
                    center_of(w[i + 2]),
                ),
                3,
            )
        }
    } else if key == split_word() {
        if left < 4 {
            (m, left)
        } else {
            (with_split(m, lower(w[i + 1]), w[i + 2], center_of(w[i + 3])), 4)
        }
    } else {
        match border_terrain(w[i]) {
            Some(t) => if left < 3 {
                (m, left)
            } else {
                (with_joined(m, w[i + 1], w[i + 2], t), 3)
            },
            None => (m, 1),
        }
    }
}

/// The board after the records from the word at `i` on.
pub open spec fn records_from(m: WorldMapView, w: Seq<Seq<u8>>, i: int) -> WorldMapView
    decreases w.len() - i,
{
    if i < 0 || i >= w.len() {
        m
    } else {
        let step = record_at(m, w, i);
        if step.1 < 1 {
            m
        } else {
            records_from(step.0, w, i + step.1)
        }
    }
}

/// The board without provinces.
pub open spec fn empty_board() -> WorldMapView {
    WorldMapView { provinces: Seq::empty(), regions: Seq::empty(), borders: Seq::empty() }
}

/// The board that the text describes.
pub open spec fn table_map(text: Seq<u8>) -> WorldMapView {
    records_from(empty_board(), words_of(text), 0)
}

/// What the word says of a supply center.
fn parse_center(w: &Vec<u8>) -> (r: SupplyCenter)
    ensures
        r@ == center_of(w@),
{
    if w.len() == 1 && w[0] == 45 {
        assert(w@ =~= dash_word());
        SupplyCenter::NoCenter
    } else if w.len() == 1 && w[0] == 42 {
        assert(w@ =~= star_word());
        SupplyCenter::Neutral
    } else {
        SupplyCenter::Home(Nation::from_bytes(w.as_slice()))
    }
}

/// Adds a province of the given terrain and its one region.
fn add_simple(map: &mut WorldMap, name: &Vec<u8>, terrain: Terrain, center: SupplyCenter)
    requires
        old(map).wf(),
    ensures
        final(map).wf(),
        final(map)@ == with_simple(old(map)@, lower(name@), terrain, center@),
{
    map.add_province(
        Province { short_name: ProvinceKey::from_bytes(name.as_slice()), terrain, supply_center: center },
    );
    map.add_region(
        Region { key: RegionKey::new(ProvinceKey::from_bytes(name.as_slice()), None), terrain },
    );
}

/// Adds a province of several coasts.
fn add_split(map: &mut WorldMap, name: &Vec<u8>, letters: &Vec<u8>, center: SupplyCenter)
    requires
        old(map).wf(),
    ensures
        final(map).wf(),
        final(map)@ == with_split(old(map)@, lower(name@), letters@, center@),
{
    map.add_province(
        Province {
            short_name: ProvinceKey::from_bytes(name.as_slice()),
            terrain: Terrain::Coast,
            supply_center: center,
        },
    );
    map.add_region(
        Region {
            key: RegionKey::new(ProvinceKey::from_bytes(name.as_slice()), None),
            terrain: Terrain::Land,
        },
    );
    let ghost base = map@;
    let mut k: usize = 0;
    while k < letters.len()
        invariant
            k <= letters.len(),
            map.wf(),
            map@ == with_coasts(base, lower(name@), letters@, k as int),
        decreases letters.len() - k,
    {
        match Coast::from_letter(to_lower_byte(letters[k])) {
            Some(c) => {
                map.add_region(
                    Region {
                        key: RegionKey::new(ProvinceKey::from_bytes(name.as_slice()), Some(c)),
                        terrain: Terrain::Sea,
                    },
                );
            },
            None => {},
        }
        k += 1;
    }
}

/// Adds a border between the regions that the two words name.
fn add_joined(map: &mut WorldMap, a: &Vec<u8>, b: &Vec<u8>, terrain: Terrain)
    requires
        old(map).wf(),
    ensures
        final(map).wf(),
        final(map)@ == with_joined(old(map)@, a@, b@, terrain),
{
    match RegionKey::parse(a.as_slice()) {
        Some(ra) => match RegionKey::parse(b.as_slice()) {
            Some(rb) => {
                map.add_border(Border { a: ra, b: rb, terrain });
            },
            None => {},
        },
        None => {},
    }
}

/// The terrain of the borders that a word names.
fn parse_border_terrain(w: &Vec<u8>) -> (r: Option<Terrain>)
    ensures
        r == border_terrain(w@),
{
    let army = vec![97u8, 114u8, 109u8, 121u8];
    let fleet = vec![102u8, 108u8, 101u8, 101u8, 116u8];
    let both = vec![98u8, 111u8, 116u8, 104u8];
    if lower_eq(w, &army) {
        Some(Terrain::Land)
    } else if lower_eq(w, &fleet) {
        Some(Terrain::Sea)
    } else if lower_eq(w, &both) {
        Some(Terrain::Coast)
    } else {
        None
    }
}

/// Adds what the record says that begins with the word at `i`, and says how
/// many words the record has.
fn add_record(map: &mut WorldMap, w: &Vec<Vec<u8>>, i: usize) -> (used: usize)
    requires
        old(map).wf(),
        i < w@.len(),
    ensures
        final(map).wf(),
        (final(map)@, used as int) == record_at(old(map)@, words_view(w@), i as int),
        1 <= used <= w@.len() - i,
{
    let left: usize = w.len() - i;
    let sea = vec![115u8, 101u8, 97u8];
    let land = vec![108u8, 97u8, 110u8, 100u8];
    let coast = vec![99u8, 111u8, 97u8, 115u8, 116u8];
    let split = vec![115u8, 112u8, 108u8, 105u8, 116u8];
    let key = &w[i];
    if lower_eq(key, &sea) {
        if left < 2 {
            return left;
        }
        add_simple(map, &w[i + 1], Terrain::Sea, SupplyCenter::NoCenter);
        2
    } else if lower_eq(key, &land) {
        if left < 3 {
            return left;
        }
        add_simple(map, &w[i + 1], Terrain::Land, parse_center(&w[i + 2]));
        3
    } else if lower_eq(key, &coast) {
        if left < 3 {
            return left;
        }
        add_simple(map, &w[i + 1], Terrain::Coast, parse_center(&w[i + 2]));
        3
    } else if lower_eq(key, &split) {
        if left < 4 {
            return left;
        }
        add_split(map, &w[i + 1], &w[i + 2], parse_center(&w[i + 3]));
        4
    } else {
        match parse_border_terrain(key) {
            Some(t) => {
                if left < 3 {
                    return left;
                }
                add_joined(map, &w[i + 1], &w[i + 2], t);
                3
            },
            None => 1,
        }
    }
}

/// The board that the text describes.
pub fn map_from_table(text: &[u8]) -> (r: WorldMap)
    ensures
        r.wf(),
        r@ == table_map(text@),
{
    let words = split_words(text);
    let ghost ws = words_view(words@);
    let mut map = WorldMap::new();
    assert(map@ =~= empty_board()) by {
        assert(map@.provinces =~= Seq::empty());
        assert(map@.regions =~= Seq::empty());
        assert(map@.borders =~= Seq::empty());
    }
    let mut i: usize = 0;
    while i < words.len()
        invariant
            i <= words.len(),
            map.wf(),
            ws == words_view(words@),
            records_from(map@, ws, i as int) == table_map(text@),
        decreases words.len() - i,
    {
        let used = add_record(&mut map, &words, i);
        i += used;
    }
    map
}

} // verus!
