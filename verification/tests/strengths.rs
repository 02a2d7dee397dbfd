use diplomacy::geo::{standard_map, ProvinceKey, RegionKey};
use diplomacy::judge::calc::{direct_path, dislodger_of, is_head_to_head, path_exists};
use diplomacy::judge::context::ResolverContext;
use diplomacy::judge::step::Step;
use diplomacy::judge::strength::{
    attack_strength, defend_strength, foreign_supports, hold_strength, in_head_to_head,
    lost_head_to_head, prevent_strength, resistance,
};
use diplomacy::order::Order;
use diplomacy::{Nation, UnitType};
use std::str::FromStr;

fn parse(lines: &[&str]) -> Vec<Order> {
    lines.iter().map(|l| Order::from_str(l).unwrap()).collect()
}

fn done<T>(step: Step<T>) -> T {
    match step {
        Step::Done(v) => v,
        Step::Need(j) => panic!("the verdict of the order at {} is needed", j),
    }
}

#[test]
fn strengths_of_a_supported_attack() {
    let map = standard_map();
    let ctx = ResolverContext::new(
        &map,
        parse(&[
            "ger: A ber -> sil",
            "ger: A mun supports A ber -> sil",
            "rus: A war -> sil",
            "aus: A boh hold",
            "rus: A gal -> boh",
            "aus: A vie supports A gal -> boh",
            "ger: A tyr supports A gal -> boh",
            "ita: A ven hold",
            "ita: A rom supports A ven",
        ]),
    );
    let told = vec![
        Some(true), Some(true), Some(false), Some(true), Some(false), Some(true), Some(true),
        Some(true), Some(true),
    ];
    // one more than the supports
    assert_eq!(2, done(attack_strength(&ctx, &told, 0)));
    assert_eq!(2, done(prevent_strength(&ctx, &told, 0)));
    assert_eq!(1, done(attack_strength(&ctx, &told, 2)));
    assert_eq!(1, done(prevent_strength(&ctx, &told, 2)));
    // nothing stands in sil
    assert_eq!(0, done(hold_strength(&ctx, &told, &ProvinceKey::from("sil"))));
    assert_eq!(0, done(resistance(&ctx, &told, 0)));
    // the Italian army holds with one support, the Austrian army alone
    assert_eq!(2, done(hold_strength(&ctx, &told, &ProvinceKey::from("ven"))));
    assert_eq!(1, done(hold_strength(&ctx, &told, &ProvinceKey::from("boh"))));
    assert_eq!(1, done(resistance(&ctx, &told, 4)));
    // the Austrian support for the attack on the Austrian army does not
    // count in the attack, but it counts in keeping others out
    assert_eq!(2, done(attack_strength(&ctx, &told, 4)));
    assert_eq!(3, done(prevent_strength(&ctx, &told, 4)));
    assert_eq!(1, foreign_supports(&ctx, &vec![5, 6], &Nation::from("aus")));
    assert_eq!(2, foreign_supports(&ctx, &vec![5, 6], &Nation::from("rus")));
    // a support that failed does not count
    let cut = vec![
        Some(true), Some(false), Some(false), Some(true), Some(false), Some(true), Some(false),
        Some(true), Some(false),
    ];
    assert_eq!(1, done(attack_strength(&ctx, &cut, 0)));
    assert_eq!(1, done(attack_strength(&ctx, &cut, 4)));
    assert_eq!(1, done(hold_strength(&ctx, &cut, &ProvinceKey::from("ven"))));
    // a support whose verdict is not known is asked for
    let unknown = vec![None; 9];
    assert!(matches!(attack_strength(&ctx, &unknown, 0), Step::Need(1)));
    assert!(matches!(hold_strength(&ctx, &unknown, &ProvinceKey::from("ven")), Step::Need(8)));
}

#[test]
fn strengths_head_to_head() {
    let map = standard_map();
    let ctx = ResolverContext::new(
        &map,
        parse(&[
            "ger: A ber -> pru",
            "rus: A pru -> ber",
            "ger: A sil supports A ber -> pru",
            "rus: A war -> sil",
            "ger: F kie -> ber",
        ]),
    );
    let told = vec![Some(true), Some(false), Some(true), Some(false), Some(true)];
    assert!(is_head_to_head(&ctx, 0, 1));
    assert!(is_head_to_head(&ctx, 1, 0));
    assert!(!is_head_to_head(&ctx, 4, 0));
    assert!(in_head_to_head(&ctx, 0));
    assert!(!in_head_to_head(&ctx, 4));
    assert!(!in_head_to_head(&ctx, 3));
    assert_eq!(2, done(defend_strength(&ctx, &told, 0)));
    assert_eq!(1, done(defend_strength(&ctx, &told, 1)));
    // head to head the attack must beat the defend strength
    assert_eq!(1, done(resistance(&ctx, &told, 0)));
    assert_eq!(2, done(resistance(&ctx, &told, 1)));
    // the fleet follows a unit that leaves: nothing holds ber
    assert_eq!(0, done(hold_strength(&ctx, &told, &ProvinceKey::from("ber"))));
    assert_eq!(1, done(attack_strength(&ctx, &told, 4)));
    // a unit whose move failed holds with 1
    assert_eq!(1, done(hold_strength(&ctx, &told, &ProvinceKey::from("pru"))));
    // the loser of the battle keeps nobody out of ber
    assert!(done(lost_head_to_head(&ctx, &told, 1)));
    assert!(!done(lost_head_to_head(&ctx, &told, 0)));
    assert_eq!(0, done(prevent_strength(&ctx, &told, 1)));
    assert_eq!(Some(0), done(dislodger_of(&ctx, &told, 1)));
    assert_eq!(None, done(dislodger_of(&ctx, &told, 2)));
}

#[test]
fn strengths_against_the_own_nation() {
    let map = standard_map();
    let ctx = ResolverContext::new(
        &map,
        parse(&[
            "ger: A ber -> sil",
            "ger: A mun supports A ber -> sil",
            "ger: A sil -> gal",
            "eng: A lon -> bel",
            "eng: F wal -> lon",
        ]),
    );
    // against a unit of the mover's own nation that stays the attack is 0
    let stays = vec![Some(false), Some(true), Some(false), Some(false), Some(false)];
    assert_eq!(0, done(attack_strength(&ctx, &stays, 0)));
    let leaves = vec![Some(true), Some(true), Some(true), Some(false), Some(false)];
    assert_eq!(2, done(attack_strength(&ctx, &leaves, 0)));
    // without a path there is no strength
    assert!(!direct_path(&ctx, 3));
    assert!(direct_path(&ctx, 0));
    assert!(!done(path_exists(&ctx, &stays, 3)));
    assert_eq!(0, done(attack_strength(&ctx, &stays, 3)));
    assert_eq!(0, done(prevent_strength(&ctx, &stays, 3)));
    assert_eq!(1, done(hold_strength(&ctx, &stays, &ProvinceKey::from("lon"))));
}

#[test]
fn occupants_after_a_phase() {
    let map = standard_map();
    let ctx = ResolverContext::new(
        &map,
        parse(&[
            "fra: F gas -> spa(nc)",
            "ita: A ven -> tri",
            "ita: A tyr supports A ven -> tri",
            "aus: A tri hold",
        ]),
    );
    let outcome = ctx.resolve();
    assert!(outcome.has_one_unit_per_province());
    let spa = outcome.find_province_occupier(&ProvinceKey::from("spa")).unwrap();
    assert_eq!(RegionKey::from_str("spa(nc)").unwrap(), spa.region);
    assert!(outcome.find_province_occupier(&ProvinceKey::from("gas")).is_none());
    assert!(outcome.find_region_occupier(&RegionKey::from_str("spa").unwrap()).is_none());
    let tri = outcome.find_region_occupier(&RegionKey::from_str("tri").unwrap()).unwrap();
    assert_eq!(Nation::from("ita"), *tri.nation());
    assert_eq!(UnitType::Army, tri.unit_type());
    assert!(outcome.find_province_occupier(&ProvinceKey::from("ven")).is_none());

    let crowded = ResolverContext::new(&map, parse(&["fra: A par hold", "ger: A par -> bur"]));
    assert!(!crowded.resolve().has_one_unit_per_province());
}
