use diplomacy::geo::{standard_map, RegionKey};
use diplomacy::judge::context::ResolverContext;
use diplomacy::judge::outcome::{AttackOutcome, ConvoyOutcome, HoldOutcome, OrderOutcome};
use diplomacy::judge::support::SupportOutcome;
use diplomacy::judge::OrderState;
use diplomacy::order::{ConvoyedMove, MainCommand, Order, SupportedOrder};
use diplomacy::{Nation, ShortName, UnitType};
use std::str::FromStr;

fn reg(s: &str) -> RegionKey {
    RegionKey::from_str(s).unwrap()
}

fn parse(lines: &[&str]) -> Vec<Order> {
    lines.iter().map(|l| Order::from_str(l).unwrap()).collect()
}

/// The verdicts of the orders, `true` for success, and whether the reasons
/// agree with them.
fn judge(lines: &[&str]) -> (Vec<bool>, bool) {
    let map = standard_map();
    let ctx = ResolverContext::new(&map, parse(lines));
    let outcome = ctx.resolve();
    let verdicts = (0..outcome.len())
        .map(|i| outcome.verdict(i) == OrderState::Succeeds)
        .collect();
    (verdicts, !outcome.is_stalled())
}

fn places(lines: &[&str]) -> Vec<String> {
    let map = standard_map();
    let ctx = ResolverContext::new(&map, parse(lines));
    let outcome = ctx.resolve();
    outcome
        .unit_positions()
        .iter()
        .map(|p| format!("{} {}", p.nation().short_name(), p.region.short_name()))
        .collect()
}

#[test]
fn supported_hold_prevents_dislodgement() {
    let (v, settled) = judge(&[
        "aus: F adr supports A tri -> ven",
        "aus: A tri -> ven",
        "ita: A ven hold",
        "ita: A tyr supports A ven",
    ]);
    assert_eq!(vec![true, false, true, true], v);
    assert!(settled);
}

#[test]
fn a_move_cuts_support_on_hold() {
    let (v, settled) = judge(&[
        "aus: F adr supports A tri -> ven",
        "aus: A tri -> ven",
        "aus: A vie -> tyr",
        "ita: A ven hold",
        "ita: A tyr supports A ven",
    ]);
    assert_eq!(vec![true, true, false, false, false], v);
    assert!(settled);
}

#[test]
fn support_to_hold_on_a_moving_unit_does_not_count() {
    let (v, _) = judge(&[
        "ger: A ber supports A pru",
        "ger: F kie supports A ber",
        "rus: F bal supports A pru -> ber",
        "rus: A pru -> ber",
    ]);
    assert_eq!(vec![false, true, true, false], v);
}

#[test]
fn a_supported_attack_beats_a_lone_counter_attack() {
    // head to head the supported army from tri beats the army from ven
    let (v, settled) = judge(&[
        "aus: F adr supports A tri -> ven",
        "aus: A tri -> ven",
        "ita: A ven -> tri",
    ]);
    assert_eq!(vec![true, true, false], v);
    assert!(settled);
}

#[test]
fn support_is_not_cut_from_the_province_it_attacks() {
    let (v, settled) = judge(&[
        "ger: A mun supports A sil -> boh",
        "ger: A sil -> boh",
        "aus: A boh -> mun",
    ]);
    assert_eq!(vec![true, true, false], v);
    assert!(settled);
    assert_eq!(
        vec!["ger mun", "ger boh"],
        places(&[
            "ger: A mun supports A sil -> boh",
            "ger: A sil -> boh",
            "aus: A boh -> mun",
        ])
    );
}

#[test]
fn a_dislodged_unit_gives_no_support() {
    let map = standard_map();
    let ctx = ResolverContext::new(
        &map,
        parse(&[
            "ger: A mun supports A sil -> boh",
            "ger: A sil -> boh",
            "aus: A boh hold",
            "aus: A tyr -> mun",
            "aus: A bur supports A tyr -> mun",
        ]),
    );
    let outcome = ctx.resolve();
    assert_eq!(OrderOutcome::Support(SupportOutcome::CutBy(3)), outcome.outcome(0));
    assert_eq!(OrderOutcome::Move(AttackOutcome::OccupierDefended), outcome.outcome(1));
    assert_eq!(OrderOutcome::Hold(HoldOutcome::Succeeds), outcome.outcome(2));
    assert_eq!(OrderOutcome::Move(AttackOutcome::Succeeds), outcome.outcome(3));
    assert_eq!(Some(3), outcome.dislodger(0));
    assert!(!outcome.is_stalled());
}

#[test]
fn three_army_circular_movement() {
    let (v, settled) = judge(&["tur: F ank -> con", "tur: A con -> smy", "tur: A smy -> ank"]);
    assert_eq!(vec![true, true, true], v);
    assert!(settled);
}

#[test]
fn a_disrupted_circular_movement() {
    let (v, settled) = judge(&[
        "tur: F ank -> con",
        "tur: A con -> smy",
        "tur: A smy -> ank",
        "tur: A bul -> con",
    ]);
    assert_eq!(vec![false, false, false, false], v);
    assert!(settled);
}

#[test]
fn units_swap_places_only_by_convoy() {
    let (v, _) = judge(&["ita: A rom -> ven", "ita: A ven -> rom"]);
    assert_eq!(vec![false, false], v);
    let (v, settled) = judge(&[
        "eng: A lon -> bel",
        "eng: F nth convoys lon -> bel",
        "fra: A bel -> lon",
        "fra: F eng convoys bel -> lon",
    ]);
    assert_eq!(vec![true, true, true, true], v);
    assert!(settled);
}

#[test]
fn the_loser_of_a_head_to_head_battle_keeps_nobody_out() {
    let (v, settled) = judge(&[
        "ger: A ber -> pru",
        "ger: F kie -> ber",
        "ger: A sil supports A ber -> pru",
        "rus: A pru -> ber",
    ]);
    assert_eq!(vec![true, true, true, false], v);
    assert!(settled);
    assert_eq!(
        vec!["ger pru", "ger ber", "ger sil"],
        places(&[
            "ger: A ber -> pru",
            "ger: F kie -> ber",
            "ger: A sil supports A ber -> pru",
            "rus: A pru -> ber",
        ])
    );
}

#[test]
fn no_self_dislodgement_in_a_head_to_head_battle() {
    let (v, _) = judge(&[
        "ger: A ber -> kie",
        "ger: F kie -> ber",
        "ger: A mun supports A ber -> kie",
    ]);
    assert_eq!(vec![false, false, true], v);
}

#[test]
fn foreign_support_does_not_help_against_its_own_unit() {
    // the attack on the German army counts no German support
    let (v, _) = judge(&[
        "aus: A boh -> mun",
        "ger: A sil supports A boh -> mun",
        "ger: A mun hold",
    ]);
    assert_eq!(vec![false, true, true], v);
}

#[test]
fn a_dislodged_convoy_does_not_carry() {
    let (v, settled) = judge(&[
        "eng: F nth convoys lon -> hol",
        "eng: A lon -> hol",
        "ger: A hol supports A bel",
        "ger: A bel supports A hol",
        "ger: F hel supports F ska -> nth",
        "ger: F ska -> nth",
        "fra: A pic -> bel",
        "fra: A bur supports A pic -> bel",
    ]);
    assert_eq!(vec![false, false, true, false, true, true, false, true], v);
    assert!(settled);
}

#[test]
fn a_simple_convoy_paradox() {
    let map = standard_map();
    let ctx = ResolverContext::new(
        &map,
        parse(&[
            "eng: F lon supports F wal -> eng",
            "eng: F wal -> eng",
            "fra: A bre -> lon",
            "fra: F eng convoys bre -> lon",
        ]),
    );
    let outcome = ctx.resolve();
    let verdicts: Vec<bool> =
        (0..4).map(|i| outcome.verdict(i) == OrderState::Succeeds).collect();
    assert_eq!(vec![true, true, false, false], verdicts);
    assert!(!outcome.is_stalled());
}

#[test]
fn the_paradox_of_two_attacks_on_the_convoy() {
    // the convoyed army would cut the support that the attack on its own
    // convoy needs, while a second attack bounces the first: the convoy is
    // counted as failed, and the two attacks on it bounce
    let map = standard_map();
    let ctx = ResolverContext::new(
        &map,
        parse(&[
            "eng: F lon supports F wal -> eng",
            "eng: F wal -> eng",
            "fra: A bre -> lon",
            "fra: F eng convoys bre -> lon",
            "ger: F nth supports F bel -> eng",
            "ger: F bel -> eng",
        ]),
    );
    let outcome = ctx.resolve();
    let verdicts: Vec<bool> =
        (0..6).map(|i| outcome.verdict(i) == OrderState::Succeeds).collect();
    assert_eq!(vec![true, false, false, false, true, false], verdicts);
    assert_eq!(OrderOutcome::Convoy(ConvoyOutcome::Paradox), outcome.outcome(3));
    assert_eq!(None, outcome.dislodger(3));
    assert!(!outcome.is_stalled());
}

#[test]
fn a_betrayal_paradox() {
    let (v, settled) = judge(&[
        "eng: F lon -> nth",
        "eng: F nth convoys bel -> lon",
        "fra: F eng supports A bel -> lon",
        "fra: A bel -> lon",
        "ger: F hel supports F ska -> nth",
        "ger: F ska -> nth",
    ]);
    // the convoying fleet is dislodged, so the army stays in bel and the
    // fleet in lon cannot follow into nth either
    assert_eq!(vec![false, false, true, false, true, true], v);
    assert!(settled);
}

#[test]
fn fleets_keep_to_their_coasts() {
    let (v, _) = judge(&["fra: F gas -> spa(sc)"]);
    assert_eq!(vec![false], v);
    let (v, _) = judge(&["fra: F gas -> spa(nc)", "ita: F wes -> spa(sc)"]);
    assert_eq!(vec![false, false], v);
    let (v, _) = judge(&["fra: F gas -> spa(nc)"]);
    assert_eq!(vec![true], v);
    let (v, _) = judge(&["fra: F mar supports F gas -> spa(nc)", "fra: F gas -> spa(nc)", "ita: F wes -> spa(sc)"]);
    assert_eq!(vec![true, true, false], v);
}

#[test]
fn orders_to_places_off_the_board_fail() {
    let map = standard_map();
    let ctx = ResolverContext::new(
        &map,
        vec![
            Order::new(
                Nation::from("fra"),
                UnitType::Army,
                reg("par"),
                MainCommand::Move(reg("atlantis")),
            ),
            Order::new(Nation::from("fra"), UnitType::Army, reg("bur"), MainCommand::Move(reg("bur"))),
            Order::new(
                Nation::from("fra"),
                UnitType::Army,
                reg("gas"),
                MainCommand::Support(SupportedOrder::Hold(UnitType::Army, reg("gas"))),
            ),
            Order::new(
                Nation::from("fra"),
                UnitType::Army,
                reg("mar"),
                MainCommand::Convoy(ConvoyedMove::new(reg("spa"), reg("pie"))),
            ),
        ],
    );
    let outcome = ctx.resolve();
    assert_eq!(OrderOutcome::Move(AttackOutcome::NoPath), outcome.outcome(0));
    assert_eq!(OrderOutcome::Move(AttackOutcome::MoveToSelf), outcome.outcome(1));
    assert_eq!(OrderOutcome::Support(SupportOutcome::SupportingSelf), outcome.outcome(2));
    assert_eq!(OrderOutcome::Convoy(ConvoyOutcome::NotAtSea), outcome.outcome(3));
    assert!(!outcome.is_stalled());
}

#[test]
fn no_two_units_share_a_province_after_a_phase() {
    let lines = [
        "eng: F nwg -> nth",
        "ger: F nth -> nwy",
        "rus: F nwy -> nwg",
        "ger: F ska supports F nth -> nwy",
        "ger: A ber -> sil",
        "rus: A war -> sil",
        "aus: A boh hold",
        "ita: A ven -> tri",
        "aus: A tri hold",
        "ita: A tyr supports A ven -> tri",
    ];
    let after = places(&lines);
    assert_eq!(
        vec![
            "eng nth", "ger nwy", "rus nwg", "ger ska", "ger ber", "rus war", "aus boh",
            "ita tri", "ita tyr"
        ],
        after
    );
    let mut provinces: Vec<String> = after.iter().map(|p| p[4..7].to_string()).collect();
    provinces.sort();
    provinces.dedup();
    assert_eq!(after.len(), provinces.len());
}

#[test]
fn outcomes_say_why() {
    let map = standard_map();
    let ctx = ResolverContext::new(
        &map,
        parse(&[
            "ger: A ber -> pru",
            "rus: A pru -> ber",
            "ger: A sil supports A ber -> pru",
            "eng: F nth convoys lon -> hol",
            "eng: A lon -> hol",
            "ger: F hel supports F ska -> nth",
            "ger: F ska -> nth",
            "fra: A par hold",
            "fra: F mao convoys bre -> spa",
            "ita: A ven hold",
            "aus: A tri -> ven",
            "aus: A tyr supports A tri -> ven",
        ]),
    );
    let outcome = ctx.resolve();
    assert!(!outcome.is_stalled());
    assert_eq!(OrderOutcome::Move(AttackOutcome::Succeeds), outcome.outcome(0));
    assert_eq!(OrderOutcome::Move(AttackOutcome::LostHeadToHead), outcome.outcome(1));
    assert_eq!(OrderOutcome::Support(SupportOutcome::NotDisrupted), outcome.outcome(2));
    assert_eq!(OrderOutcome::Convoy(ConvoyOutcome::Dislodged(6)), outcome.outcome(3));
    assert_eq!(OrderOutcome::Move(AttackOutcome::NoPath), outcome.outcome(4));
    assert_eq!(OrderOutcome::Hold(HoldOutcome::Succeeds), outcome.outcome(7));
    assert_eq!(OrderOutcome::Convoy(ConvoyOutcome::NotDisrupted), outcome.outcome(8));
    assert_eq!(OrderOutcome::Hold(HoldOutcome::Dislodged(10)), outcome.outcome(9));
    assert_eq!(Some(0), outcome.dislodger(1));
    assert_eq!(Some(6), outcome.dislodger(3));
    assert_eq!(Some(10), outcome.dislodger(9));
    assert_eq!(OrderState::Succeeds, OrderState::from(outcome.outcome(0)));
    assert_eq!(OrderState::Fails, OrderState::from(outcome.outcome(1)));
    assert_eq!(OrderState::Succeeds, OrderState::from(true));
    assert_eq!(OrderState::Fails, OrderState::from(false));
    assert!(bool::from(OrderState::Succeeds));
    assert!(!bool::from(OrderState::Fails));
    assert_eq!(OrderState::Fails, OrderState::from(SupportOutcome::CutBy(1)));
    assert_eq!(OrderState::Succeeds, OrderState::from(SupportOutcome::NotDisrupted));
    assert!(!SupportOutcome::SupportingSelf.is_successful());
}
