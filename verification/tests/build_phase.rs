use diplomacy::geo::{standard_map, ProvinceKey, RegionKey};
use diplomacy::judge::build::{
    to_initial_ownerships, Adjustment, BuildUnitError, OrderOutcome, Outcome, OutcomeError,
    Ownerships, ResolverContext, ResolverState, WorldState,
};
use diplomacy::judge::OrderState;
use diplomacy::order::{BuildCommand, BuildOrder};
use diplomacy::variant::standard;
use diplomacy::{Nation, ShortName, Unit, UnitPosition, UnitType};
use std::str::FromStr;

fn reg(s: &str) -> RegionKey {
    RegionKey::from_str(s).unwrap()
}

fn unit(nation: &str, unit_type: UnitType, at: &str) -> UnitPosition {
    UnitPosition::new(Unit::new(Nation::from(nation), unit_type), reg(at))
}

fn order(nation: &str, unit_type: UnitType, at: &str, command: BuildCommand) -> BuildOrder {
    BuildOrder::new(Nation::from(nation), unit_type, reg(at), command)
}

fn places(outcome: &Outcome) -> Vec<String> {
    outcome
        .unit_positions()
        .iter()
        .map(|p| format!("{} {}", p.nation().short_name(), p.region.short_name()))
        .collect()
}

#[test]
fn to_initial_ownerships_for_standard_map() {
    let map = standard_map();
    let ownerships = to_initial_ownerships(&map);

    assert_eq!(
        Some(&Nation::from("AUS")),
        ownerships.get(&ProvinceKey::from("bud"))
    );

    assert_eq!(None, ownerships.get(&ProvinceKey::from("bel")));
}

#[test]
fn initial_ownerships_cover_the_home_supply_centers() {
    let map = standard_map();
    let ownerships = to_initial_ownerships(&map);
    assert_eq!(22, ownerships.len());
    assert_eq!(Some(&Nation::from("rus")), ownerships.get(&ProvinceKey::from("stp")));
    assert_eq!(Some(&Nation::from("tur")), ownerships.get(&ProvinceKey::from("SMY")));
    assert_eq!(None, ownerships.get(&ProvinceKey::from("nth")));
}

#[test]
fn build_in_home_supply_center_succeeds() {
    let variant = standard();
    let last_time = to_initial_ownerships(variant.map());
    let world = WorldState::new(
        vec![Nation::from("aus")],
        vec![unit("aus", UnitType::Army, "vie"), unit("aus", UnitType::Fleet, "tri")],
    )
    .unwrap();
    let first = order("aus", UnitType::Army, "bud", BuildCommand::Build);
    let second = order("aus", UnitType::Army, "bel", BuildCommand::Build);
    let context = ResolverContext::new(
        variant.as_build_judge(),
        &last_time,
        &world,
        vec![&first, &second],
    );
    let outcome = context.resolve();

    assert_eq!(Some(OrderOutcome::Succeeds), outcome.get(&first));
    assert_eq!(Some(OrderOutcome::InvalidProvince), outcome.get(&second));
    assert_eq!(2, outcome.orders().len());
    assert_eq!(vec!["aus vie", "aus tri", "aus bud"], places(&outcome));
    assert_eq!(
        Some(&Nation::from("aus")),
        outcome.sc_ownerships().get(&ProvinceKey::from("bud"))
    );
    assert_eq!(OrderState::Succeeds, OrderState::from(OrderOutcome::Succeeds));
    assert_eq!(OrderState::Fails, OrderState::from(OrderOutcome::InvalidProvince));
}

#[test]
fn empty_ownerships_refuse_to_run() {
    let variant = standard();
    let last_time = Ownerships::new();
    let world = WorldState::new(vec![Nation::from("aus")], vec![]).unwrap();
    assert!(ResolverContext::try_new(variant.as_build_judge(), &last_time, &world, vec![]).is_none());

    let seeded = to_initial_ownerships(variant.map());
    assert!(ResolverContext::try_new(variant.as_build_judge(), &seeded, &world, vec![]).is_some());

    // no phase is resolved without seeded ownerships, whatever the orders
    let build = order("aus", UnitType::Army, "bud", BuildCommand::Build);
    assert!(ResolverContext::resolve_phase(
        variant.as_build_judge(),
        &last_time,
        &world,
        vec![&build]
    )
    .is_none());
    let outcome = ResolverContext::resolve_phase(
        variant.as_build_judge(),
        &seeded,
        &world,
        vec![&build],
    )
    .unwrap();
    assert_eq!(Some(OrderOutcome::Succeeds), outcome.get(&build));
    let context =
        ResolverContext::new(variant.as_build_judge(), &seeded, &world, vec![&build]);
    assert_eq!(22, context.last_time().len());
}

fn resolve_all(
    units: Vec<UnitPosition>,
    owned: &[(&str, &str)],
    orders: &[BuildOrder],
) -> (Vec<Option<OrderOutcome>>, Vec<String>) {
    let variant = standard();
    let mut last_time = Ownerships::new();
    for (province, nation) in owned {
        last_time.insert(ProvinceKey::from(*province), Nation::from(*nation));
    }
    let world = WorldState::new(vec![], units).unwrap();
    let context = ResolverContext::new(
        variant.as_build_judge(),
        &last_time,
        &world,
        orders.iter().collect(),
    );
    let outcome = context.resolve();
    (orders.iter().map(|o| outcome.get(o)).collect(), places(&outcome))
}

#[test]
fn build_verdicts() {
    let owned = [("bud", "aus"), ("vie", "aus"), ("tri", "ita"), ("mun", "ger"), ("ber", "ger"), ("kie", "ger")];
    let units = vec![
        unit("ger", UnitType::Army, "mun"),
        unit("ita", UnitType::Army, "ven"),
        unit("ita", UnitType::Army, "tyr"),
    ];
    let orders = [
        // a fleet cannot be built inland
        order("aus", UnitType::Fleet, "bud", BuildCommand::Build),
        // a home supply center that another nation holds
        order("aus", UnitType::Army, "tri", BuildCommand::Build),
        // no home supply center of the nation
        order("aus", UnitType::Army, "mun", BuildCommand::Build),
        // a nation that may build cannot disband
        order("aus", UnitType::Army, "vie", BuildCommand::Disband),
        order("aus", UnitType::Army, "bud", BuildCommand::Build),
        // an order that is given again keeps its outcome
        order("aus", UnitType::Army, "bud", BuildCommand::Build),
        order("aus", UnitType::Army, "vie", BuildCommand::Build),
        // a unit stands in the province
        order("ger", UnitType::Army, "mun", BuildCommand::Build),
        order("ger", UnitType::Fleet, "kie", BuildCommand::Build),
        order("ger", UnitType::Army, "ber", BuildCommand::Build),
        // a nation that owns as many supply centers as it has units
        order("ita", UnitType::Army, "rom", BuildCommand::Build),
    ];
    let (verdicts, places) = resolve_all(units, &owned, &orders);
    assert_eq!(
        vec![
            Some(OrderOutcome::InvalidTerrain),
            Some(OrderOutcome::ForeignControlled),
            Some(OrderOutcome::InvalidProvince),
            Some(OrderOutcome::RedeploymentProhibited),
            Some(OrderOutcome::Succeeds),
            Some(OrderOutcome::Succeeds),
            Some(OrderOutcome::Succeeds),
            Some(OrderOutcome::OccupiedProvince),
            Some(OrderOutcome::Succeeds),
            Some(OrderOutcome::Succeeds),
            Some(OrderOutcome::RedeploymentProhibited),
        ],
        verdicts
    );
    assert_eq!(
        vec!["ger mun", "ita ven", "ita tyr", "aus bud", "aus vie", "ger kie", "ger ber"],
        places
    );
}

#[test]
fn all_builds_used() {
    let owned = [("bud", "aus"), ("vie", "aus"), ("tri", "aus")];
    let units = vec![unit("aus", UnitType::Army, "gal"), unit("aus", UnitType::Army, "boh")];
    let orders = [
        order("aus", UnitType::Army, "bud", BuildCommand::Build),
        order("aus", UnitType::Army, "vie", BuildCommand::Build),
    ];
    let (verdicts, places) = resolve_all(units, &owned, &orders);
    assert_eq!(
        vec![Some(OrderOutcome::Succeeds), Some(OrderOutcome::AllBuildsUsed)],
        verdicts
    );
    assert_eq!(vec!["aus gal", "aus boh", "aus bud"], places);
}

#[test]
fn disband_verdicts() {
    let owned = [("mos", "rus")];
    let units = vec![
        unit("rus", UnitType::Army, "mos"),
        unit("rus", UnitType::Army, "ukr"),
        unit("rus", UnitType::Fleet, "bla"),
        unit("tur", UnitType::Army, "arm"),
    ];
    let orders = [
        order("rus", UnitType::Army, "lvn", BuildCommand::Disband),
        order("rus", UnitType::Army, "arm", BuildCommand::Disband),
        order("rus", UnitType::Army, "ukr", BuildCommand::Disband),
        order("rus", UnitType::Fleet, "bla", BuildCommand::Disband),
        order("rus", UnitType::Army, "mos", BuildCommand::Disband),
        order("rus", UnitType::Army, "war", BuildCommand::Build),
    ];
    let (verdicts, places) = resolve_all(units, &owned, &orders);
    assert_eq!(
        vec![
            Some(OrderOutcome::DisbandingNonexistentUnit),
            Some(OrderOutcome::DisbandingForeignUnit),
            Some(OrderOutcome::Succeeds),
            Some(OrderOutcome::Succeeds),
            Some(OrderOutcome::AllDisbandsUsed),
            Some(OrderOutcome::RedeploymentProhibited),
        ],
        verdicts
    );
    // the Turkish army has no supply center to live on
    assert_eq!(vec!["rus mos"], places);
}

#[test]
fn civil_disorder_takes_the_farthest_unit() {
    let owned = [("mos", "rus")];
    let units = vec![unit("rus", UnitType::Army, "mos"), unit("rus", UnitType::Army, "boh")];
    let (_, places) = resolve_all(units, &owned, &[]);
    assert_eq!(vec!["rus mos"], places);
}

#[test]
fn civil_disorder_takes_fleets_before_armies_and_then_by_name() {
    let owned = [("mos", "rus"), ("war", "rus")];
    let units = vec![
        unit("rus", UnitType::Army, "sil"),
        unit("rus", UnitType::Army, "gal"),
        unit("rus", UnitType::Fleet, "pru"),
        unit("rus", UnitType::Army, "mos"),
    ];
    // sil, gal and pru lie one border from war; the fleet goes first, then
    // the army in gal, which comes before sil in the alphabet
    let (_, places) = resolve_all(units, &owned, &[]);
    assert_eq!(vec!["rus sil", "rus mos"], places);
}

#[test]
fn distance_from_home_counts_borders() {
    let variant = standard();
    let judge = variant.as_build_judge();
    let rus = Nation::from("rus");
    assert_eq!(0, judge.distance_from_home(&rus, &ProvinceKey::from("mos")));
    assert_eq!(1, judge.distance_from_home(&rus, &ProvinceKey::from("sil")));
    assert_eq!(2, judge.distance_from_home(&rus, &ProvinceKey::from("boh")));
    assert_eq!(75, judge.distance_from_home(&rus, &ProvinceKey::from("atlantis")));
    assert_eq!(
        75,
        judge.distance_from_home(&Nation::from("nobody"), &ProvinceKey::from("mos"))
    );
}

#[test]
fn outcome_rejects_two_units_in_one_province() {
    let units = vec![
        unit("fra", UnitType::Army, "spa"),
        unit("fra", UnitType::Army, "par"),
        unit("ita", UnitType::Fleet, "spa(sc)"),
    ];
    match Outcome::new(vec![], Ownerships::new(), units) {
        Err(OutcomeError::MultipleUnitsInSameProvince(p)) => {
            assert_eq!(ProvinceKey::from("spa"), p)
        }
        Ok(_) => panic!("two units stand in spa"),
    }
    assert!(WorldState::new(
        vec![],
        vec![unit("fra", UnitType::Army, "spa"), unit("ita", UnitType::Fleet, "spa(nc)")]
    )
    .is_none());
}

#[test]
fn outcome_finds_occupiers() {
    let units = vec![unit("fra", UnitType::Army, "par"), unit("ita", UnitType::Fleet, "spa(sc)")];
    let outcome = Outcome::new(vec![], Ownerships::new(), units).unwrap();
    let found = outcome.find_province_occupier(&ProvinceKey::from("spa")).unwrap();
    assert_eq!(Nation::from("ita"), *found.nation());
    assert!(outcome.find_region_occupier(&reg("spa(nc)")).is_none());
    assert_eq!(UnitType::Fleet, outcome.find_region_occupier(&reg("spa(sc)")).unwrap().unit_type());
    assert!(outcome.find_province_occupier(&ProvinceKey::from("bur")).is_none());
}

#[test]
fn ownership_does_not_depend_on_the_orders() {
    let variant = standard();
    let last_time = to_initial_ownerships(variant.map());
    let world = WorldState::new(
        vec![Nation::from("aus")],
        vec![unit("aus", UnitType::Army, "vie"), unit("ita", UnitType::Army, "tri")],
    )
    .unwrap();
    let build = order("aus", UnitType::Army, "bud", BuildCommand::Build);
    let with = ResolverContext::new(variant.as_build_judge(), &last_time, &world, vec![&build])
        .resolve();
    let without =
        ResolverContext::new(variant.as_build_judge(), &last_time, &world, vec![]).resolve();
    for province in ["bud", "vie", "tri", "ven", "bel"] {
        let key = ProvinceKey::from(province);
        assert_eq!(with.sc_ownerships().get(&key), without.sc_ownerships().get(&key));
    }
    assert_eq!(
        Some(&Nation::from("ita")),
        with.sc_ownerships().get(&ProvinceKey::from("tri"))
    );
}

#[test]
fn positions_in_the_terms_of_the_variant() {
    let variant = standard();
    let judge = variant.as_build_judge();
    assert_eq!(Some(&Nation::from("aus")), judge.get_nation(&Nation::from("AUS")));
    assert_eq!(None, judge.get_nation(&Nation::from("swi")));
    let known = unit("aus", UnitType::Army, "bud");
    let kept = judge.preserve_position(&known);
    assert_eq!(reg("bud"), kept.region);
    assert_eq!(Nation::from("aus"), *kept.nation());
    assert!(judge.try_preserve_position(&known).is_some());
    assert!(judge.try_preserve_position(&unit("swi", UnitType::Army, "bud")).is_none());
    assert!(judge.try_preserve_position(&unit("aus", UnitType::Army, "spa(ec)")).is_none());
    assert!(judge.is_home(&Nation::from("aus"), &ProvinceKey::from("bud")));
    assert!(!judge.is_home(&Nation::from("aus"), &ProvinceKey::from("ven")));
    assert_eq!(7, variant.nations().len());
}

#[test]
fn units_are_built_and_disbanded_in_the_state() {
    let world = WorldState::new(
        vec![Nation::from("aus")],
        vec![unit("ita", UnitType::Army, "ven")],
    )
    .unwrap();
    assert_eq!(2, world.nations().len());
    assert_eq!(1, world.unit_count(&Nation::from("ita")));
    assert_eq!(0, world.unit_count(&Nation::from("aus")));
    assert_eq!(Some(&Nation::from("ita")), world.occupier(&ProvinceKey::from("ven")));
    assert_eq!(vec![(UnitType::Army, reg("ven"))], world.units(&Nation::from("ita")));
    let data = vec![Adjustment {
        nation: Nation::from("aus"),
        command: BuildCommand::Build,
        remaining: 2,
    }];
    let mut state = ResolverState::new(&world, &vec![Nation::from("tur")], data);
    assert_eq!(Some(0), state.adjustment_index(&Nation::from("aus")));
    assert_eq!(None, state.adjustment_index(&Nation::from("ita")));
    assert_eq!(Ok(()), state.build_unit(unit("aus", UnitType::Army, "bud")));
    assert_eq!(Ok(()), state.build_unit(unit("aus", UnitType::Army, "bud")));
    assert_eq!(Ok(()), state.build_unit(unit("tur", UnitType::Fleet, "con")));
    assert_eq!(
        Err(BuildUnitError::UnknownNation),
        state.build_unit(unit("swi", UnitType::Army, "mun"))
    );
    assert_eq!(3, state.unit_positions().len());
    assert_eq!(Some(&Nation::from("aus")), state.occupier(&ProvinceKey::from("bud")));
    assert!(!state.disband_unit(&unit("aus", UnitType::Fleet, "bud")));
    assert!(state.disband_unit(&unit("ita", UnitType::Army, "ven")));
    assert!(state.find_province_occupier(&ProvinceKey::from("ven")).is_none());
    state.debit(0);
    assert_eq!(1, state.data()[0].remaining);
    let first = order("aus", UnitType::Army, "bud", BuildCommand::Build);
    assert_eq!(None, state.resolved(&first));
    state.record(first.clone(), OrderOutcome::Succeeds);
    assert_eq!(Some(OrderOutcome::Succeeds), state.resolved(&first));
    assert_eq!(1, state.to_order_outcomes().len());
}
