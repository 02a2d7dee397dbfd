use diplomacy::geo::{
    map_from_table, standard_map, Border, Coast, Province, ProvinceKey, Region, RegionKey,
    SupplyCenter, Terrain, WorldMap, STANDARD_BOARD,
};
use diplomacy::{Nation, ShortName, UnitType};
use std::str::FromStr;

fn reg(s: &str) -> RegionKey {
    RegionKey::from_str(s).unwrap()
}

#[test]
fn standard_map_has_the_board() {
    let map = standard_map();
    assert_eq!(75, map.provinces().len());
    assert_eq!(81, map.regions().len());
    assert_eq!(
        34,
        map.provinces().iter().filter(|p| p.is_supply_center()).count()
    );
    assert_eq!(218, map.borders().len());
    assert_eq!(
        19,
        map.provinces().iter().filter(|p| p.terrain == Terrain::Sea).count()
    );
}

#[test]
fn names_are_told_apart_by_their_letters_alone() {
    assert_eq!(Nation::from("ENG"), Nation::from("eng"));
    assert_ne!(Nation::from("eng"), Nation::from("ger"));
    assert_eq!(ProvinceKey::from("Lon"), ProvinceKey::new("lon"));
    assert_eq!("lon", ProvinceKey::from("LON").short_name());
    assert_eq!("eng", Nation::from("Eng").short_name());
}

#[test]
fn regions_from_text() {
    assert_eq!(RegionKey::new(ProvinceKey::from("spa"), Some(Coast::North)), reg("Spa(NC)"));
    assert_eq!(RegionKey::new(ProvinceKey::from("bul"), Some(Coast::East)), reg("bul(ec)"));
    assert_eq!(RegionKey::new(ProvinceKey::from("stp"), Some(Coast::South)), reg("stp(sc)"));
    assert_eq!(RegionKey::new(ProvinceKey::from("xyz"), Some(Coast::West)), reg("xyz(wc)"));
    assert_eq!(RegionKey::new(ProvinceKey::from("par"), None), reg("par"));
    assert_eq!("spa(nc)", reg("SPA(nc)").short_name());
    assert_eq!("par", reg("Par").short_name());
    assert!(RegionKey::from_str("").is_err());
    assert!(RegionKey::from_str("spa(xc)").is_err());
    assert!(RegionKey::from_str("spa(nx)").is_err());
    assert!(reg("spa(sc)").is_in(&ProvinceKey::from("spa")));
    assert_eq!(Some(Coast::South), reg("spa(sc)").coast());
}

#[test]
fn borders_of_the_standard_map() {
    let map = standard_map();
    let between = |a: &str, b: &str| map.find_border_between(&reg(a), &reg(b)).map(|b| b.terrain);
    assert_eq!(Some(Terrain::Land), between("par", "bur"));
    assert_eq!(Some(Terrain::Land), between("bur", "par"));
    assert_eq!(Some(Terrain::Coast), between("bre", "pic"));
    assert_eq!(Some(Terrain::Sea), between("eng", "bre"));
    assert_eq!(Some(Terrain::Sea), between("spa(sc)", "mar"));
    assert_eq!(Some(Terrain::Land), between("spa", "mar"));
    assert_eq!(None, between("spa(nc)", "mar"));
    assert_eq!(None, between("par", "mun"));
    assert_eq!(
        2,
        map.find_borders_between(&reg("por"), &ProvinceKey::from("spa")).len()
            - map.find_borders_between(&reg("spa"), &ProvinceKey::from("por")).len()
    );
    assert_eq!(
        vec!["yor", "wal", "nth", "eng"],
        map.find_bordering(&ProvinceKey::from("lon"), None)
            .iter()
            .map(|r| r.short_name())
            .collect::<Vec<_>>()
    );
    assert_eq!(
        vec!["yor", "wal"],
        map.find_bordering(&ProvinceKey::from("lon"), Some(Terrain::Coast))
            .iter()
            .map(|r| r.short_name())
            .collect::<Vec<_>>()
    );
    assert!(map.provinces_adjacent(&ProvinceKey::from("spa"), &ProvinceKey::from("mao")));
    assert!(!map.provinces_adjacent(&ProvinceKey::from("spa"), &ProvinceKey::from("par")));
    assert!(map.province_adjacent_to(&ProvinceKey::from("spa"), &reg("lyo")));
}

#[test]
fn units_and_terrain() {
    assert!(UnitType::Army.can_occupy(Terrain::Land));
    assert!(UnitType::Army.can_occupy(Terrain::Coast));
    assert!(!UnitType::Army.can_occupy(Terrain::Sea));
    assert!(UnitType::Fleet.can_occupy(Terrain::Sea));
    assert!(UnitType::Fleet.can_occupy(Terrain::Coast));
    assert!(!UnitType::Fleet.can_occupy(Terrain::Land));
    let map = standard_map();
    let border = map.find_border_between(&reg("eng"), &reg("bre")).unwrap();
    assert!(border.is_passable_by(UnitType::Fleet));
    assert!(!border.is_passable_by(UnitType::Army));
    assert_eq!(Terrain::Land, map.find_region(&reg("spa")).unwrap().terrain());
    assert_eq!(Terrain::Sea, map.find_region(&reg("spa(nc)")).unwrap().terrain());
    assert!(map.find_region(&reg("spa(ec)")).is_none());
    assert!(map.find_province(&ProvinceKey::from("swi")).is_none());
}

#[test]
fn a_board_is_built_piece_by_piece() {
    let mut map = WorldMap::new();
    let province = |name: &str, sc: SupplyCenter| Province {
        short_name: ProvinceKey::from(name),
        terrain: Terrain::Land,
        supply_center: sc,
    };
    let region = |name: &str| Region { key: reg(name), terrain: Terrain::Land };
    let border = |a: &str, b: &str| Border { a: reg(a), b: reg(b), terrain: Terrain::Land };
    assert!(map.add_province(province("one", SupplyCenter::Neutral)));
    assert!(!map.add_province(province("ONE", SupplyCenter::NoCenter)));
    assert!(map.add_province(province("two", SupplyCenter::Home(Nation::from("x")))));
    assert!(!map.add_region(region("six")));
    assert!(map.add_region(region("one")));
    assert!(!map.add_region(region("one")));
    assert!(!map.add_border(border("one", "two")));
    assert!(map.add_region(region("two")));
    assert!(map.add_border(border("one", "two")));
    assert!(!map.add_border(border("two", "one")));
    assert!(!map.add_border(border("one", "one")));
    assert_eq!(1, map.borders().len());
    assert_eq!(Some(1), map.province_index(&ProvinceKey::from("two")));
    assert_eq!(Some(0), map.region_index(&reg("one")));
}

#[test]
fn a_board_from_text() {
    let map = map_from_table(
        b"sea eng  COAST Bre fra\n land par fra\tcoast pic -  split spa ns *  land bel *
          both bre pic  army bre par  fleet eng bre  army par pic
          army par par  fleet eng spa(nc)  fleet eng spa(ec)  army bre mun  nonsense
          both bre pic  fleet pic",
    );
    assert_eq!(6, map.provinces().len());
    assert_eq!(8, map.regions().len());
    assert_eq!(5, map.borders().len());
    let names: Vec<String> = map.provinces().iter().map(|p| p.short_name.short_name()).collect();
    assert_eq!(vec!["eng", "bre", "par", "pic", "spa", "bel"], names);
    let bre = map.find_province(&ProvinceKey::from("bre")).unwrap();
    assert_eq!(Terrain::Coast, bre.terrain);
    assert!(matches!(&bre.supply_center, SupplyCenter::Home(n) if *n == Nation::from("fra")));
    assert!(matches!(
        map.find_province(&ProvinceKey::from("bel")).unwrap().supply_center,
        SupplyCenter::Neutral
    ));
    assert!(matches!(
        map.find_province(&ProvinceKey::from("pic")).unwrap().supply_center,
        SupplyCenter::NoCenter
    ));
    assert_eq!(Terrain::Land, map.find_region(&reg("spa")).unwrap().terrain());
    assert_eq!(Terrain::Sea, map.find_region(&reg("spa(sc)")).unwrap().terrain());
    assert_eq!(
        Some(Terrain::Sea),
        map.find_border_between(&reg("spa(nc)"), &reg("eng")).map(|b| b.terrain)
    );
}

#[test]
fn the_standard_board_is_read_from_its_text() {
    let again = map_from_table(STANDARD_BOARD.as_bytes());
    let map = standard_map();
    assert_eq!(map.provinces().len(), again.provinces().len());
    assert_eq!(map.borders().len(), again.borders().len());
    assert!(map_from_table(b"").provinces().is_empty());
}
