use diplomacy::geo::{standard_map, ProvinceKey, RegionKey};
use diplomacy::judge::context::ResolverContext;
use diplomacy::judge::retreat::{Dislodged, OrderOutcome, Start};
use diplomacy::judge::OrderState;
use diplomacy::order::{MainCommand, Order, RetreatCommand, RetreatOrder, SupportedOrder};
use diplomacy::{Nation, ShortName, Unit, UnitPosition, UnitType};
use std::str::FromStr;

fn reg(s: &str) -> RegionKey {
    RegionKey::from_str(s).unwrap()
}

fn unit(nation: &str, unit_type: UnitType, at: &str) -> UnitPosition {
    UnitPosition::new(Unit::new(Nation::from(nation), unit_type), reg(at))
}

fn retreat(nation: &str, unit_type: UnitType, at: &str, to: Option<&str>) -> RetreatOrder {
    let command = match to {
        Some(d) => RetreatCommand::Move(reg(d)),
        None => RetreatCommand::Hold,
    };
    RetreatOrder::new(Nation::from(nation), unit_type, reg(at), command)
}

fn places(units: &[UnitPosition]) -> Vec<String> {
    units
        .iter()
        .map(|p| format!("{} {}", p.nation().short_name(), p.region.short_name()))
        .collect()
}

#[test]
fn retreat_after_a_main_phase() {
    let map = standard_map();
    let orders = vec![
        Order::new(Nation::from("ger"), UnitType::Army, reg("ber"), MainCommand::Move(reg("sil"))),
        Order::new(
            Nation::from("ger"),
            UnitType::Army,
            reg("mun"),
            MainCommand::Support(SupportedOrder::Move(UnitType::Army, reg("ber"), reg("sil"))),
        ),
        Order::new(Nation::from("rus"), UnitType::Army, reg("sil"), MainCommand::Hold),
        Order::new(Nation::from("aus"), UnitType::Army, reg("boh"), MainCommand::Move(reg("gal"))),
        Order::new(Nation::from("rus"), UnitType::Army, reg("war"), MainCommand::Move(reg("gal"))),
    ];
    let ctx = ResolverContext::new(&map, orders);
    let outcome = ctx.resolve();
    assert!(!outcome.is_stalled());
    assert_eq!(Some(0), outcome.dislodger(2));
    assert_eq!(None, outcome.dislodger(0));
    assert!(outcome.is_contested(&ProvinceKey::from("gal")));
    assert!(!outcome.is_contested(&ProvinceKey::from("sil")));
    assert_eq!(
        vec!["ger sil", "ger mun", "aus boh", "rus war"],
        places(&outcome.unit_positions())
    );

    let start = Start::from_outcome(&map, &outcome).unwrap();
    assert_eq!(1, start.dislodged().len());
    let verdicts = |orders: Vec<RetreatOrder>| -> Vec<OrderOutcome> {
        start.resolve(orders).verdicts().clone()
    };
    // the attack came from ber; moves bounced in gal; a unit stands in boh;
    // no border leads to ukr
    assert_eq!(
        vec![OrderOutcome::InvalidDestination],
        verdicts(vec![retreat("rus", UnitType::Army, "sil", Some("ber"))])
    );
    assert_eq!(
        vec![OrderOutcome::InvalidDestination],
        verdicts(vec![retreat("rus", UnitType::Army, "sil", Some("gal"))])
    );
    assert_eq!(
        vec![OrderOutcome::InvalidDestination],
        verdicts(vec![retreat("rus", UnitType::Army, "sil", Some("boh"))])
    );
    assert_eq!(
        vec![OrderOutcome::InvalidDestination],
        verdicts(vec![retreat("rus", UnitType::Army, "sil", Some("ukr"))])
    );
    assert_eq!(
        vec![OrderOutcome::DisbandsAsOrdered],
        verdicts(vec![retreat("rus", UnitType::Army, "sil", None)])
    );
    assert_eq!(
        vec![OrderOutcome::InvalidRecipient],
        verdicts(vec![retreat("rus", UnitType::Army, "war", Some("pru"))])
    );
    let moved = start.resolve(vec![
        retreat("rus", UnitType::Army, "sil", Some("pru")),
        retreat("rus", UnitType::Army, "sil", Some("pru")),
    ]);
    assert_eq!(
        &vec![OrderOutcome::Moves, OrderOutcome::InvalidRecipient],
        moved.verdicts()
    );
    assert_eq!(
        vec!["ger sil", "ger mun", "aus boh", "rus war", "rus pru"],
        places(&moved.unit_positions())
    );
    assert_eq!(OrderState::Succeeds, OrderState::from(OrderOutcome::Moves));
    assert_eq!(OrderState::Succeeds, OrderState::from(OrderOutcome::DisbandsAsOrdered));
    assert_eq!(OrderState::Fails, OrderState::from(OrderOutcome::Prevented(1)));
}

#[test]
fn two_retreats_to_one_province_both_fail() {
    let map = standard_map();
    let start = Start::new(
        &map,
        vec![
            Dislodged {
                position: unit("rus", UnitType::Army, "sil"),
                attacker_from: ProvinceKey::from("ber"),
            },
            Dislodged {
                position: unit("rus", UnitType::Army, "war"),
                attacker_from: ProvinceKey::from("lvn"),
            },
        ],
        vec![unit("ger", UnitType::Army, "sil"), unit("ger", UnitType::Army, "war")],
        vec![],
    )
    .unwrap();
    let outcome = start.resolve(vec![
        retreat("rus", UnitType::Army, "sil", Some("gal")),
        retreat("rus", UnitType::Army, "war", Some("gal")),
    ]);
    assert_eq!(
        &vec![OrderOutcome::Prevented(1), OrderOutcome::Prevented(0)],
        outcome.verdicts()
    );
    assert_eq!(vec!["ger sil", "ger war"], places(&outcome.unit_positions()));
}

#[test]
fn start_rejects_two_units_in_one_province() {
    let map = standard_map();
    assert!(Start::new(
        &map,
        vec![],
        vec![unit("ger", UnitType::Army, "sil"), unit("rus", UnitType::Army, "sil")],
        vec![],
    )
    .is_none());
}
