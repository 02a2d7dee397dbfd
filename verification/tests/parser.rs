use diplomacy::geo::RegionKey;
use diplomacy::order::{
    BuildCommand, BuildOrder, ConvoyedMove, MainCommand, Order, RetreatCommand, RetreatOrder,
    SupportedOrder,
};
use diplomacy::parser::{Error, ErrorKind, FromWords};
use diplomacy::{Nation, UnitType};
use std::str::FromStr;

type OrderParseResult = Result<Order, Error>;

fn reg(s: &str) -> RegionKey {
    RegionKey::from_str(s).unwrap()
}

fn kind(line: &str) -> ErrorKind {
    match Order::from_str(line) {
        Ok(o) => panic!("{} was read as {}", line, o.to_string()),
        Err(e) => e.kind(),
    }
}

#[test]
fn hold() {
    let h_order: OrderParseResult = "AUS: F Tri hold".parse();
    println!("{}", h_order.unwrap().to_string());
}

#[test]
fn army_move() {
    let m_order: OrderParseResult = "ENG: A Lon -> Bel".parse();
    println!("{}", m_order.unwrap().to_string());
}

#[test]
fn hold_is_read_as_written() {
    let order: Order = "AUS: F Tri hold".parse().unwrap();
    assert_eq!(
        Order::new(Nation::from("aus"), UnitType::Fleet, reg("tri"), MainCommand::Hold),
        order
    );
    assert_eq!("aus: F tri hold", order.to_string());
}

#[test]
fn move_is_read_as_written() {
    let order: Order = "ENG: A Lon -> Bel".parse().unwrap();
    assert_eq!(
        Order::new(
            Nation::from("eng"),
            UnitType::Army,
            reg("lon"),
            MainCommand::Move(reg("bel"))
        ),
        order
    );
    assert_eq!("eng: A lon -> bel", order.to_string());
}

#[test]
fn supports_and_convoys_are_read() {
    let support: Order = "ger: F ska supports F nth -> nwy".parse().unwrap();
    assert_eq!(
        MainCommand::Support(SupportedOrder::Move(UnitType::Fleet, reg("nth"), reg("nwy"))),
        support.command
    );
    let hold: Order = "fra:  A par   SUPPORTS A bur".parse().unwrap();
    assert_eq!(
        MainCommand::Support(SupportedOrder::Hold(UnitType::Army, reg("bur"))),
        hold.command
    );
    let bare: Order = "fra: A par supports bur".parse().unwrap();
    assert_eq!(hold.command, bare.command);
    let bare_move: Order = "fra: A par supports bur -> pic".parse().unwrap();
    assert_eq!(
        MainCommand::Support(SupportedOrder::Move(UnitType::Army, reg("bur"), reg("pic"))),
        bare_move.command
    );
    let convoy: Order = "ita: fleet ion convoys tun -> gre".parse().unwrap();
    assert_eq!(
        MainCommand::Convoy(ConvoyedMove::new(reg("tun"), reg("gre"))),
        convoy.command
    );
    let coast: Order = "fra: F gas -> spa(nc)".parse().unwrap();
    assert_eq!(MainCommand::Move(reg("SPA(NC)")), coast.command);
}

#[test]
fn text_of_an_order_names_the_order() {
    let orders = vec![
        Order::new(Nation::from("aus"), UnitType::Fleet, reg("tri"), MainCommand::Hold),
        Order::new(
            Nation::from("fra"),
            UnitType::Fleet,
            reg("gas"),
            MainCommand::Move(reg("spa(nc)")),
        ),
        Order::new(
            Nation::from("ger"),
            UnitType::Fleet,
            reg("ska"),
            MainCommand::Support(SupportedOrder::Move(UnitType::Fleet, reg("nth"), reg("nwy"))),
        ),
        Order::new(
            Nation::from("rus"),
            UnitType::Army,
            reg("mos"),
            MainCommand::Support(SupportedOrder::Hold(UnitType::Fleet, reg("stp(sc)"))),
        ),
        Order::new(
            Nation::from("ita"),
            UnitType::Fleet,
            reg("ion"),
            MainCommand::Convoy(ConvoyedMove::new(reg("tun"), reg("gre"))),
        ),
    ];
    let texts = vec![
        "aus: F tri hold",
        "fra: F gas -> spa(nc)",
        "ger: F ska supports F nth -> nwy",
        "rus: A mos supports F stp(sc)",
        "ita: F ion convoys tun -> gre",
    ];
    for (order, text) in orders.iter().zip(texts) {
        assert_eq!(text, order.to_string());
        assert_eq!(*order, Order::from_str(&order.to_string()).unwrap());
    }
}

#[test]
fn errors_of_the_parser() {
    assert_eq!(ErrorKind::TooFewWords, kind("aus: F"));
    assert_eq!(ErrorKind::TooFewWords, kind("aus: F tri"));
    assert_eq!(ErrorKind::InvalidUnitType, kind("aus: X tri hold"));
    assert_eq!(ErrorKind::InvalidRegion, kind("fra: F spa(xc) hold"));
    assert_eq!(ErrorKind::UnknownCommand, kind("aus: F tri dances"));
    assert_eq!(ErrorKind::MalformedMove, kind("aus: F tri ->"));
    assert_eq!(ErrorKind::MalformedSupport, kind("aus: F tri supports"));
    assert_eq!(ErrorKind::MalformedSupport, kind("aus: F tri supports A ven -> tyr now"));
    assert_eq!(ErrorKind::MalformedConvoy, kind("aus: F adr convoys ven"));
    let error = Order::from_str("aus: F tri dances").unwrap_err();
    assert_eq!("dances", error.text());
}

#[test]
fn commands_from_words() {
    let words = |s: &str| -> Vec<Vec<u8>> {
        s.split_whitespace().map(|w| w.as_bytes().to_vec()).collect()
    };
    assert_eq!(MainCommand::Hold, MainCommand::from_words(&words("HOLDS")).unwrap());
    assert_eq!(
        MainCommand::Move(reg("bel")),
        MainCommand::from_words(&words("-> bel")).unwrap()
    );
    assert!(matches!(
        RetreatCommand::from_words(&words("hold")).unwrap(),
        RetreatCommand::Hold
    ));
    assert!(matches!(
        RetreatCommand::from_words(&words("-> bur")).unwrap(),
        RetreatCommand::Move(_)
    ));
    assert_eq!(BuildCommand::Build, BuildCommand::from_words(&words("build")).unwrap());
    assert_eq!(BuildCommand::Disband, BuildCommand::from_words(&words("Disband")).unwrap());
    assert_eq!(
        ErrorKind::UnknownCommand,
        BuildCommand::from_words(&words("hold")).unwrap_err().kind()
    );
    assert_eq!(
        ErrorKind::MalformedConvoy,
        ConvoyedMove::from_words(&words("a b")).unwrap_err().kind()
    );
    assert_eq!(
        ErrorKind::MalformedSupport,
        SupportedOrder::from_words(&words("")).unwrap_err().kind()
    );
}

#[test]
fn build_and_retreat_orders_are_read() {
    let build: BuildOrder = "aus: A bud build".parse().unwrap();
    assert_eq!(
        BuildOrder::new(Nation::from("aus"), UnitType::Army, reg("bud"), BuildCommand::Build),
        build
    );
    let retreat: RetreatOrder = "rus: A sil -> gal".parse().unwrap();
    assert_eq!(Nation::from("rus"), retreat.nation);
    assert!(matches!(retreat.command, RetreatCommand::Move(_)));
    assert_eq!(
        ErrorKind::UnknownCommand,
        RetreatOrder::from_str("rus: A sil supports A gal").unwrap_err().kind()
    );
}

#[test]
fn text_of_build_and_retreat_orders_names_the_order() {
    let builds = vec![
        (
            BuildOrder::new(Nation::from("aus"), UnitType::Army, reg("bud"), BuildCommand::Build),
            "aus: A bud build",
        ),
        (
            BuildOrder::new(
                Nation::from("rus"),
                UnitType::Fleet,
                reg("stp(sc)"),
                BuildCommand::Disband,
            ),
            "rus: F stp(sc) disband",
        ),
    ];
    for (order, text) in builds.iter() {
        assert_eq!(*text, order.to_string());
        assert_eq!(*order, BuildOrder::from_str(&order.to_string()).unwrap());
    }
    let hold = RetreatOrder::new(
        Nation::from("rus"),
        UnitType::Army,
        reg("sil"),
        RetreatCommand::Hold,
    );
    assert_eq!("rus: A sil hold", hold.to_string());
    let again = RetreatOrder::from_str(&hold.to_string()).unwrap();
    assert_eq!(hold.to_string(), again.to_string());
    assert!(matches!(again.command, RetreatCommand::Hold));
    let moves = RetreatOrder::new(
        Nation::from("fra"),
        UnitType::Fleet,
        reg("mao"),
        RetreatCommand::Move(reg("spa(nc)")),
    );
    assert_eq!("fra: F mao -> spa(nc)", moves.to_string());
    let again = RetreatOrder::from_str(&moves.to_string()).unwrap();
    assert_eq!(Nation::from("fra"), again.nation);
    assert_eq!(UnitType::Fleet, again.unit_type);
    assert_eq!(reg("mao"), again.region);
    assert!(matches!(again.command, RetreatCommand::Move(d) if d == reg("spa(nc)")));
}
