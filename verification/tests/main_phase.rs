use diplomacy::geo::{standard_map, ProvinceKey, RegionKey};
use diplomacy::judge::context::ResolverContext;
use diplomacy::judge::convoy::{route_exists, route_steps, routes, ConvoyRouteError};
use diplomacy::judge::resolver::{Resolution, ResolverState};
use diplomacy::judge::rulebook::Rulebook;
use diplomacy::judge::outcome::{AttackOutcome, ConvoyOutcome, OrderOutcome};
use diplomacy::judge::support::{
    can_reach, find_cutting_order, find_for, is_order_cut, is_successful, is_supporting_self,
    order_cuts, SupportOutcome,
};
use diplomacy::judge::step::Step;
use diplomacy::judge::{adjudicate, OrderState};
use diplomacy::order::{ConvoyedMove, MainCommand, MoveCommand, Order, SupportedOrder};
use diplomacy::{Nation, ShortName, UnitType};
use std::str::FromStr;

fn reg(s: &str) -> RegionKey {
    RegionKey::from_str(s).unwrap()
}

fn mv(nation: &str, unit_type: UnitType, from: &str, to: &str) -> Order {
    Order::new(
        Nation::from(nation),
        unit_type,
        reg(from),
        MoveCommand::new(reg(to)).into(),
    )
}

fn hold(nation: &str, unit_type: UnitType, at: &str) -> Order {
    Order::new(Nation::from(nation), unit_type, reg(at), MainCommand::Hold)
}

fn support_move(nation: &str, unit_type: UnitType, at: &str, who: UnitType, from: &str, to: &str) -> Order {
    Order::new(
        Nation::from(nation),
        unit_type,
        reg(at),
        MainCommand::Support(SupportedOrder::Move(who, reg(from), reg(to))),
    )
}

fn support_hold(nation: &str, unit_type: UnitType, at: &str, who: UnitType, target: &str) -> Order {
    Order::new(
        Nation::from(nation),
        unit_type,
        reg(at),
        MainCommand::Support(SupportedOrder::Hold(who, reg(target))),
    )
}

fn convoy(nation: &str, at: &str, from: &str, to: &str) -> Order {
    Order::new(
        Nation::from(nation),
        UnitType::Fleet,
        reg(at),
        ConvoyedMove::new(reg(from), reg(to)).into(),
    )
}

fn verdicts(orders: Vec<Order>) -> Vec<OrderState> {
    let map = standard_map();
    adjudicate(&map, orders).into_iter().map(|(_, s)| s).collect()
}

#[test]
fn dipmath_figure9() {
    let map = standard_map();
    let eng = Nation::from("eng");
    let ger = Nation::from("ger");
    let rus = Nation::from("rus");

    let orders = vec![
        Order::new(
            eng,
            UnitType::Fleet,
            reg("nwg"),
            MoveCommand::new(reg("nth")).into(),
        ),
        Order::new(
            ger.clone(),
            UnitType::Fleet,
            reg("nth"),
            MoveCommand::new(reg("nwy")).into(),
        ),
        Order::new(
            rus,
            UnitType::Fleet,
            reg("nwy"),
            MoveCommand::new(reg("nwg")).into(),
        ),
        Order::new(
            ger,
            UnitType::Fleet,
            reg("ska"),
            MainCommand::Support(SupportedOrder::Move(
                UnitType::Fleet,
                reg("nth"),
                reg("nwy"),
            )),
        ),
    ];

    let result = adjudicate(&map, orders);
    assert_eq!(4, result.len());

    for (_, r) in result.iter() {
        assert_eq!(&OrderState::Succeeds, r);
    }
}

#[test]
fn dipmath_figure6() {
    let aus = Nation::from("aus");
    let ger = Nation::from("ger");
    let rus = Nation::from("rus");

    let orders = vec![
        Order::new(
            ger.clone(),
            UnitType::Army,
            reg("ber"),
            MoveCommand::new(reg("sil")).into(),
        ),
        Order::new(
            ger.clone(),
            UnitType::Army,
            reg("mun"),
            MainCommand::Support(SupportedOrder::Move(UnitType::Army, reg("ber"), reg("sil"))),
        ),
        Order::new(
            rus,
            UnitType::Army,
            reg("war"),
            MoveCommand::new(reg("sil")).into(),
        ),
        Order::new(
            aus,
            UnitType::Army,
            reg("boh"),
            MoveCommand::new(reg("sil")).into(),
        ),
    ];

    let map = standard_map();
    assert!(map.find_border_between(&reg("ber"), &reg("sil")).is_some());
    assert!(map.find_border_between(&reg("war"), &reg("sil")).is_some());
    assert!(map.find_border_between(&reg("sil"), &reg("boh")).is_some());

    let result = adjudicate(&map, orders);
    assert_eq!(4, result.len());
    for (o, r) in &result {
        if o.nation == ger {
            assert_eq!(r, &OrderState::Succeeds);
        } else {
            assert_eq!(r, &OrderState::Fails);
        }
    }
}

#[test]
fn dipmath_figure16() {
    let tur = Nation::from("tur");
    let aus = Nation::from("aus");
    let ita = Nation::from("ita");

    let orders = vec![
        Order::new(
            tur.clone(),
            UnitType::Fleet,
            reg("aeg"),
            MoveCommand::new(reg("ion")).into(),
        ),
        Order::new(
            tur,
            UnitType::Fleet,
            reg("gre"),
            SupportedOrder::Move(UnitType::Fleet, reg("aeg"), reg("ion")).into(),
        ),
        Order::new(
            aus,
            UnitType::Fleet,
            reg("alb"),
            SupportedOrder::Move(UnitType::Fleet, reg("aeg"), reg("ion")).into(),
        ),
        Order::new(
            ita.clone(),
            UnitType::Army,
            reg("tun"),
            MoveCommand::new(reg("gre")).into(),
        ),
        Order::new(
            ita.clone(),
            UnitType::Fleet,
            reg("ion"),
            ConvoyedMove::new(reg("tun"), reg("gre")).into(),
        ),
    ];

    let map = standard_map();
    let state = adjudicate(&map, orders);
    assert_eq!(5, state.len());
    for (o, r) in &state {
        if o.nation == ita {
            assert_eq!(r, &OrderState::Fails);
        } else {
            assert_eq!(r, &OrderState::Succeeds);
        }
    }
}

fn pathfinder_convoy(l: &str, f: &str, t: &str) -> Order {
    Order::new(
        Nation::from("eng"),
        UnitType::Fleet,
        RegionKey::new(ProvinceKey::new(l), None),
        ConvoyedMove::new(
            RegionKey::new(ProvinceKey::new(f), None),
            RegionKey::new(ProvinceKey::new(t), None),
        )
        .into(),
    )
}

#[test]
fn pathfinder() {
    let convoys = vec![
        pathfinder_convoy("ska", "lon", "swe"),
        pathfinder_convoy("eng", "lon", "swe"),
        pathfinder_convoy("nth", "lon", "swe"),
        pathfinder_convoy("nwg", "lon", "swe"),
    ];

    let map = standard_map();
    let routes = route_steps(
        &map,
        &convoys,
        &vec![0, 1, 2, 3],
        &ProvinceKey::new("lon"),
        &ProvinceKey::new("swe"),
        vec![],
    );
    for r in &routes {
        println!("CHAIN");
        for o in r.iter() {
            println!("  {}", convoys[*o].region.short_name());
        }
    }

    assert_eq!(2, routes.len());
    assert_eq!(vec![vec![1, 2, 0], vec![2, 0]], routes);
}

#[test]
fn is_support_successful() {
    let ger = Nation::from("ger");
    let supp_com = SupportedOrder::Move(UnitType::Fleet, reg("nth"), reg("nwy"));
    let orders = vec![
        Order::new(
            ger.clone(),
            UnitType::Fleet,
            reg("ska"),
            MainCommand::Support(supp_com.clone()),
        ),
        Order::new(
            ger,
            UnitType::Fleet,
            reg("nth"),
            MainCommand::Move(reg("nwy")),
        ),
    ];

    let map = standard_map();
    assert!(supp_com.backs(&orders[1]));
    assert!(can_reach(&map, &orders[1], &orders[0]));

    let resolver_ctx = ResolverContext::new(&map, orders.clone());
    let mut res_state = ResolverState::with_adjudicator(Rulebook, resolver_ctx.len());
    let mut seen = vec![None, None];
    let supporters = loop {
        match find_for(&resolver_ctx, &seen, 1) {
            Step::Done(s) => break s,
            Step::Need(j) => {
                seen[j] = Some(res_state.resolve_at(&resolver_ctx, j) == OrderState::Succeeds)
            }
        }
    };
    assert!(!supporters.is_empty());
    assert_eq!(vec![0], supporters);
}

#[test]
fn a_rule_asks_for_the_verdict_that_it_needs() {
    let map = standard_map();
    let ctx = ResolverContext::new(
        &map,
        vec![
            support_move("eng", UnitType::Fleet, "nth", UnitType::Fleet, "ska", "nwy"),
            mv("eng", UnitType::Fleet, "ska", "nwy"),
            mv("ger", UnitType::Fleet, "hel", "nth"),
            mv("ger", UnitType::Army, "lon", "nth"),
            convoy("ger", "eng", "lon", "nth"),
        ],
    );
    // the supporter's own verdict is needed before it counts
    assert!(matches!(find_for(&ctx, &vec![None; 5], 1), Step::Need(0)));
    assert!(matches!(is_successful(&ctx, &vec![None; 5], 1, 0), Step::Need(0)));
    assert!(matches!(is_successful(&ctx, &vec![Some(false); 5], 1, 0), Step::Done(false)));
    assert!(matches!(is_successful(&ctx, &vec![None; 5], 2, 0), Step::Done(false)));
    // the fleet from hel cuts the support without asking anything
    assert!(matches!(is_order_cut(&ctx, &vec![None; 5], 0), Step::Done(true)));
    assert!(matches!(find_cutting_order(&ctx, &vec![None; 5], 0), Step::Done(Some(2))));
    // whether the army from lon has a path depends on its convoy
    assert!(matches!(order_cuts(&ctx, &vec![None; 5], 0, 3), Step::Need(4)));
    let carried = vec![None, None, None, None, Some(true)];
    assert!(matches!(order_cuts(&ctx, &carried, 0, 3), Step::Done(true)));
    assert!(matches!(route_exists(&ctx, &carried, 3), Step::Done(true)));
    let sunk = vec![None, None, None, None, Some(false)];
    assert!(matches!(order_cuts(&ctx, &sunk, 0, 3), Step::Done(false)));
    assert!(matches!(routes(&ctx, &sunk, 3), Step::Done(Ok(r)) if r.is_empty()));
    assert!(matches!(
        routes(&ctx, &sunk, 2),
        Step::Done(Err(ConvoyRouteError::CanOnlyConvoyArmy))
    ));
    let holding = ResolverContext::new(&map, vec![hold("fra", UnitType::Army, "par")]);
    assert!(matches!(
        routes(&holding, &vec![None], 0),
        Step::Done(Err(ConvoyRouteError::CanOnlyConvoyMove))
    ));
    assert!(matches!(route_exists(&holding, &vec![None], 0), Step::Done(false)));
    assert!(is_supporting_self(&support_hold("fra", UnitType::Army, "par", UnitType::Army, "par")));
    assert!(!is_supporting_self(&support_hold("fra", UnitType::Army, "par", UnitType::Army, "bur")));
}

#[test]
fn orders_are_resolved_one_by_one_or_all_at_once() {
    let map = standard_map();
    let ctx = ResolverContext::new(
        &map,
        vec![
            mv("ger", UnitType::Army, "ber", "sil"),
            mv("rus", UnitType::Army, "war", "sil"),
            support_move("ger", UnitType::Army, "mun", UnitType::Army, "ber", "sil"),
        ],
    );
    let mut state = ResolverState::with_adjudicator(Rulebook, ctx.len());
    assert_eq!(Resolution::Unresolved, state.entry(1));
    assert_eq!(OrderState::Fails, state.resolve_at(&ctx, 1));
    assert_eq!(Resolution::Resolved(false), state.entry(1));
    // the verdict of the support was needed on the way, that of the other
    // move was not
    assert_eq!(Resolution::Resolved(true), state.entry(2));
    assert_eq!(Resolution::Unresolved, state.entry(0));
    assert_eq!(OrderState::Succeeds, state.resolve_at(&ctx, 0));
    let outcome = ctx.resolve_using(Rulebook);
    assert_eq!(
        vec![OrderState::Succeeds, OrderState::Fails, OrderState::Succeeds],
        (0..3).map(|i| outcome.verdict(i)).collect::<Vec<_>>()
    );
    assert_eq!(
        Some(OrderOutcome::Move(AttackOutcome::Prevented(0))),
        outcome.get(&mv("rus", UnitType::Army, "war", "sil"))
    );
    assert_eq!(None, outcome.get(&mv("rus", UnitType::Army, "war", "pru")));
}

#[test]
fn support_t6b04_support_to_unreachable_coast_allowed() {
    let fra = Nation::from("fra");
    let spa_nc = RegionKey::from_str("spa(nc)").unwrap();
    let supp_com = SupportedOrder::Move(UnitType::Fleet, reg("gas"), spa_nc.clone());
    let orders = vec![
        Order::new(
            fra.clone(),
            UnitType::Fleet,
            reg("gas"),
            MainCommand::Move(spa_nc),
        ),
        Order::new(fra, UnitType::Fleet, reg("mar"), supp_com.clone().into()),
        Order::new(
            Nation::from("ita"),
            UnitType::Fleet,
            reg("wes"),
            MainCommand::Move(reg("spa(sc)")),
        ),
    ];

    let map = standard_map();
    assert!(supp_com.backs(&orders[0]));
    assert!(can_reach(&map, &orders[0], &orders[1]));
}

#[test]
fn support_cut_makes_the_move_fail() {
    // A: F nth supports F ska -> nwy; B: F hel -> nth cuts the support, and
    // the move into the held province fails.
    let r = verdicts(vec![
        support_move("eng", UnitType::Fleet, "nth", UnitType::Fleet, "ska", "nwy"),
        mv("eng", UnitType::Fleet, "ska", "nwy"),
        mv("ger", UnitType::Fleet, "hel", "nth"),
        hold("rus", UnitType::Fleet, "nwy"),
    ]);
    assert_eq!(
        vec![OrderState::Fails, OrderState::Fails, OrderState::Fails, OrderState::Succeeds],
        r
    );
}

#[test]
fn uncut_support_dislodges() {
    let map = standard_map();
    let orders = vec![
        support_move("eng", UnitType::Fleet, "nth", UnitType::Fleet, "ska", "nwy"),
        mv("eng", UnitType::Fleet, "ska", "nwy"),
        hold("rus", UnitType::Fleet, "nwy"),
    ];
    let ctx = ResolverContext::new(&map, orders);
    let outcome = ctx.resolve();
    assert!(!outcome.is_stalled());
    assert_eq!(OrderOutcome::Support(SupportOutcome::NotDisrupted), outcome.outcome(0));
    assert_eq!(OrderOutcome::Move(AttackOutcome::Succeeds), outcome.outcome(1));
    assert_eq!(OrderState::Fails, outcome.verdict(2));
}

#[test]
fn standoff_fails_all_movers() {
    let r = verdicts(vec![
        mv("ger", UnitType::Army, "ber", "sil"),
        mv("rus", UnitType::Army, "war", "sil"),
    ]);
    assert_eq!(vec![OrderState::Fails, OrderState::Fails], r);
}

#[test]
fn lone_mover_takes_empty_province() {
    let r = verdicts(vec![mv("ger", UnitType::Army, "ber", "sil")]);
    assert_eq!(vec![OrderState::Succeeds], r);
}

#[test]
fn head_to_head_of_equal_strength_fails_both() {
    let r = verdicts(vec![
        mv("ger", UnitType::Army, "ber", "sil"),
        mv("rus", UnitType::Army, "sil", "ber"),
    ]);
    assert_eq!(vec![OrderState::Fails, OrderState::Fails], r);
}

#[test]
fn no_self_dislodge() {
    let map = standard_map();
    let orders = vec![
        mv("ger", UnitType::Army, "ber", "sil"),
        support_move("ger", UnitType::Army, "mun", UnitType::Army, "ber", "sil"),
        hold("ger", UnitType::Army, "sil"),
    ];
    let ctx = ResolverContext::new(&map, orders);
    let outcome = ctx.resolve();
    assert_eq!(OrderOutcome::Move(AttackOutcome::FriendlyFire), outcome.outcome(0));
    assert_eq!(OrderState::Succeeds, outcome.verdict(2));
    assert!(!outcome.is_stalled());
}

#[test]
fn circular_movement_succeeds() {
    let r = verdicts(vec![
        mv("tur", UnitType::Fleet, "ank", "con"),
        mv("tur", UnitType::Army, "con", "smy"),
        mv("tur", UnitType::Army, "smy", "ank"),
    ]);
    assert_eq!(vec![OrderState::Succeeds, OrderState::Succeeds, OrderState::Succeeds], r);
}

#[test]
fn army_cannot_walk_on_water() {
    let map = standard_map();
    let ctx = ResolverContext::new(&map, vec![mv("eng", UnitType::Army, "lon", "bel")]);
    let outcome = ctx.resolve();
    assert_eq!(OrderOutcome::Move(AttackOutcome::NoPath), outcome.outcome(0));
}

#[test]
fn convoyed_army_lands() {
    let r = verdicts(vec![
        mv("eng", UnitType::Army, "lon", "bel"),
        convoy("eng", "nth", "lon", "bel"),
    ]);
    assert_eq!(vec![OrderState::Succeeds, OrderState::Succeeds], r);
}

#[test]
fn fleet_on_the_coast_cannot_convoy() {
    let map = standard_map();
    let ctx = ResolverContext::new(
        &map,
        vec![mv("eng", UnitType::Army, "lon", "bel"), convoy("eng", "hol", "lon", "bel")],
    );
    let outcome = ctx.resolve();
    assert_eq!(OrderOutcome::Convoy(ConvoyOutcome::NotAtSea), outcome.outcome(1));
    assert_eq!(OrderState::Fails, outcome.verdict(0));
}

#[test]
fn an_order_given_twice_counts_once() {
    let r = verdicts(vec![
        mv("ger", UnitType::Army, "ber", "sil"),
        mv("ger", UnitType::Army, "ber", "sil"),
    ]);
    assert_eq!(vec![OrderState::Succeeds], r);
}

#[test]
fn adjudication_is_repeatable() {
    let orders = || {
        vec![
            mv("tur", UnitType::Fleet, "aeg", "ion"),
            support_move("tur", UnitType::Fleet, "gre", UnitType::Fleet, "aeg", "ion"),
            mv("ita", UnitType::Army, "tun", "gre"),
            convoy("ita", "ion", "tun", "gre"),
            support_hold("aus", UnitType::Fleet, "alb", UnitType::Fleet, "ion"),
        ]
    };
    assert_eq!(verdicts(orders()), verdicts(orders()));
}

#[test]
fn a_dislodged_unit_gives_no_support_wherever_the_attack_comes_from() {
    // the army in mun supports the attack on boh; the army in boh moves
    // into mun with support and dislodges it: the support is cut, though
    // the move comes from the province that the supported move attacks
    let map = standard_map();
    let ctx = ResolverContext::new(
        &map,
        vec![
            support_move("ger", UnitType::Army, "mun", UnitType::Army, "sil", "boh"),
            mv("ger", UnitType::Army, "sil", "boh"),
            mv("aus", UnitType::Army, "boh", "mun"),
            support_move("aus", UnitType::Army, "tyr", UnitType::Army, "boh", "mun"),
        ],
    );
    // no order cuts the support, but the move from boh was told as a success
    assert!(matches!(
        find_cutting_order(&ctx, &vec![None, None, Some(true), None], 0),
        Step::Done(None)
    ));
    assert!(matches!(
        is_order_cut(&ctx, &vec![None, None, Some(true), None], 0),
        Step::Done(true)
    ));
    assert!(matches!(
        is_order_cut(&ctx, &vec![None, None, Some(false), None], 0),
        Step::Done(false)
    ));
    assert!(matches!(is_order_cut(&ctx, &vec![None; 4], 0), Step::Need(2)));
    let outcome = ctx.resolve();
    assert!(!outcome.is_stalled());
    assert_eq!(OrderOutcome::Support(SupportOutcome::CutBy(2)), outcome.outcome(0));
    assert_eq!(
        vec![OrderState::Fails, OrderState::Succeeds, OrderState::Succeeds, OrderState::Succeeds],
        (0..4).map(|i| outcome.verdict(i)).collect::<Vec<_>>()
    );
}

#[test]
fn a_turn_that_stalls_carries_out_no_order() {
    let map = standard_map();
    let ctx = ResolverContext::new(
        &map,
        vec![mv("ger", UnitType::Army, "ber", "sil"), hold("rus", UnitType::Army, "war")],
    );
    let outcome = ctx.resolve();
    assert!(!outcome.is_stalled());
    let stalled = outcome.stall();
    assert!(stalled.is_stalled());
    assert!(stalled.is_settled());
    assert_eq!(2, stalled.len());
    assert_eq!(OrderOutcome::Stalled, stalled.outcome(0));
    assert_eq!(OrderState::Fails, stalled.verdict(0));
    assert_eq!(OrderState::Fails, stalled.verdict(1));
    assert_eq!(OrderState::Fails, OrderState::from(OrderOutcome::Stalled));
    assert_eq!(None, stalled.dislodger(1));
    let after = stalled.unit_positions();
    assert_eq!(reg("ber"), after[0].region);
    assert_eq!(reg("war"), after[1].region);
}
