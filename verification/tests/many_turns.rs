use diplomacy::geo::{standard_map, RegionKey, WorldMap};
use diplomacy::judge::context::ResolverContext;
use diplomacy::judge::OrderState;
use diplomacy::order::{ConvoyedMove, MainCommand, Order, SupportedOrder};
use diplomacy::{Nation, UnitType};

/// A small generator of numbers that is the same on every run.
struct Numbers(u64);

impl Numbers {
    fn next(&mut self, below: usize) -> usize {
        self.0 = self.0.wrapping_mul(6364136223846793005).wrapping_add(1442695040888963407);
        ((self.0 >> 33) as usize) % below
    }
}

fn turn(map: &WorldMap, numbers: &mut Numbers, nations: &[&str], units: usize) -> Vec<Order> {
    let regions = map.regions();
    let mut taken: Vec<RegionKey> = Vec::new();
    let mut stands: Vec<(Nation, UnitType, RegionKey)> = Vec::new();
    while stands.len() < units {
        let region = regions[numbers.next(regions.len())].key.clone();
        if taken.iter().any(|r| r.province() == region.province()) {
            continue;
        }
        let unit_type = match region.coast() {
            Some(_) => UnitType::Fleet,
            None => {
                if numbers.next(2) == 0 {
                    UnitType::Army
                } else {
                    UnitType::Fleet
                }
            }
        };
        taken.push(region.clone());
        stands.push((Nation::from(nations[numbers.next(nations.len())]), unit_type, region));
    }
    let neighbour = |numbers: &mut Numbers, from: &RegionKey| -> RegionKey {
        let near = map.find_bordering(from.province(), None);
        if near.is_empty() {
            from.clone()
        } else {
            near[numbers.next(near.len())].clone()
        }
    };
    let mut orders = Vec::new();
    for k in 0..stands.len() {
        let (nation, unit_type, region) = stands[k].clone();
        let other = stands[numbers.next(stands.len())].clone();
        let command = match numbers.next(8) {
            0 => MainCommand::Hold,
            1 | 2 | 3 => MainCommand::Move(neighbour(numbers, &region)),
            4 => MainCommand::Move(stands[numbers.next(stands.len())].2.clone()),
            5 => MainCommand::Support(SupportedOrder::Hold(other.1, other.2)),
            6 => {
                let to = neighbour(numbers, &other.2);
                MainCommand::Support(SupportedOrder::Move(other.1, other.2, to))
            }
            _ => {
                let to = neighbour(numbers, &region);
                MainCommand::Convoy(ConvoyedMove::new(other.2, to))
            }
        };
        orders.push(Order::new(nation, unit_type, region, command));
    }
    // let some of the supports and convoys hit what was ordered
    for k in 0..orders.len() {
        let target = numbers.next(orders.len());
        let wanted = match (&orders[k].command, &orders[target].command) {
            (MainCommand::Support(_), MainCommand::Move(d)) if numbers.next(2) == 0 => {
                Some(MainCommand::Support(SupportedOrder::Move(
                    orders[target].unit_type,
                    orders[target].region.clone(),
                    d.clone(),
                )))
            }
            (MainCommand::Convoy(_), MainCommand::Move(d)) => Some(MainCommand::Convoy(
                ConvoyedMove::new(orders[target].region.clone(), d.clone()),
            )),
            _ => None,
        };
        if let Some(command) = wanted {
            orders[k].command = command;
        }
    }
    orders
}

fn check(map: &WorldMap, orders: Vec<Order>) -> bool {
    let given = orders.len();
    let ctx = ResolverContext::new(map, orders);
    let outcome = ctx.resolve();
    assert_eq!(given, outcome.len());
    assert!(outcome.has_one_unit_per_province());
    assert!(!outcome.is_stalled());
    let settled = !outcome.is_stalled();
    {
        let after = outcome.unit_positions();
        for a in 0..after.len() {
            for b in 0..a {
                assert!(after[a].province() != after[b].province());
            }
        }
        let orders = outcome.orders();
        for m in 0..orders.len() {
            for o in 0..orders.len() {
                if m != o
                    && outcome.verdict(m) == OrderState::Succeeds
                    && orders[m].is_move_to_province(orders[o].region.province())
                    && orders[m].nation == orders[o].nation
                {
                    assert!(orders[o].is_move() && outcome.verdict(o) == OrderState::Succeeds);
                }
            }
        }
    }
    settled
}

#[test]
fn many_turns_of_few_units() {
    let map = standard_map();
    let mut numbers = Numbers(1);
    let mut settled = 0;
    for _ in 0..400 {
        let orders = turn(&map, &mut numbers, &["eng", "fra", "ger"], 6);
        if check(&map, orders) {
            settled += 1;
        }
    }
    println!("{} of 400 turns did not stall", settled);
    assert_eq!(400, settled);
}

#[test]
fn many_turns_of_many_units() {
    let map = standard_map();
    let mut numbers = Numbers(7);
    let mut settled = 0;
    for _ in 0..60 {
        let orders = turn(&map, &mut numbers, &["aus", "eng", "fra", "ger", "ita", "rus", "tur"], 34);
        if check(&map, orders) {
            settled += 1;
        }
    }
    println!("{} of 60 turns did not stall", settled);
    assert_eq!(60, settled);
}

#[test]
fn many_turns_in_a_crowded_corner() {
    let map = standard_map();
    let mut numbers = Numbers(42);
    let corner = ["lon", "wal", "yor", "eng", "nth", "bel", "pic", "bre", "hol", "iri", "mao"];
    let mut unsettled = 0;
    for _ in 0..300 {
        let mut orders = Vec::new();
        for name in corner.iter() {
            if numbers.next(3) == 0 {
                continue;
            }
            let region = RegionKey::new(diplomacy::geo::ProvinceKey::from(*name), None);
            let sea = ["eng", "nth", "iri", "mao"].contains(name);
            let unit_type = if sea || numbers.next(3) == 0 { UnitType::Fleet } else { UnitType::Army };
            let nation = Nation::from(["eng", "fra", "ger"][numbers.next(3)]);
            let to = |numbers: &mut Numbers| {
                RegionKey::new(
                    diplomacy::geo::ProvinceKey::from(corner[numbers.next(corner.len())]),
                    None,
                )
            };
            let command = match numbers.next(6) {
                0 => MainCommand::Hold,
                1 | 2 => MainCommand::Move(to(&mut numbers)),
                3 => MainCommand::Support(SupportedOrder::Move(
                    if numbers.next(2) == 0 { UnitType::Army } else { UnitType::Fleet },
                    to(&mut numbers),
                    to(&mut numbers),
                )),
                4 => MainCommand::Support(SupportedOrder::Hold(
                    if numbers.next(2) == 0 { UnitType::Army } else { UnitType::Fleet },
                    to(&mut numbers),
                )),
                _ => MainCommand::Convoy(ConvoyedMove::new(to(&mut numbers), to(&mut numbers))),
            };
            orders.push(Order::new(nation, unit_type, region, command));
        }
        if !check(&map, orders) {
            unsettled += 1;
        }
    }
    println!("{} of 300 turns stalled", unsettled);
    assert_eq!(0, unsettled);
}
