//! Orders of the three phases of a turn.
use vstd::prelude::*;
use vstd::std_specs::cmp::PartialEqSpecImpl;
use vstd::std_specs::convert::FromSpecImpl;
use crate::geo::key::{ProvinceKey, RegionKey, RegionName};
use crate::nation::Nation;
use crate::unit::UnitType;

verus! {

/// An order that a support backs.
#[derive(Debug)]
pub enum SupportedOrder {
    /// The unit of the given type in the given region stays where it is.
    Hold(UnitType, RegionKey),
    /// The unit of the given type moves from the first region to the second.
    Move(UnitType, RegionKey, RegionKey),
}

pub enum SupportedView {
    Hold(UnitType, RegionName),
    Move(UnitType, RegionName, RegionName),
}

impl SupportedView {
    /// A supported move must go somewhere.
    pub open spec fn is_legal(self) -> bool {
        match self {
            SupportedView::Hold(_, _) => true,
            SupportedView::Move(_, from, to) => from != to,
        }
    }

    /// Whether `order` is the order that the support backs: the same unit in
    /// the same region, and either no move at all or the very same move.
    pub open spec fn backs(self, order: OrderView) -> bool {
        match self {
            SupportedView::Hold(unit_type, region) => !order.is_move() && order.unit_type
                == unit_type && order.region == region,
            SupportedView::Move(unit_type, from, to) => order.unit_type == unit_type
                && order.region == from && order.command == CommandView::Move(to),
        }
    }
}

impl View for SupportedOrder {
    type V = SupportedView;

    open spec fn view(&self) -> SupportedView {
        match self {
            SupportedOrder::Hold(u, r) => SupportedView::Hold(*u, r@),
            SupportedOrder::Move(u, f, t) => SupportedView::Move(*u, f@, t@),
        }
    }
}

impl SupportedOrder {
    /// A supported move must go somewhere.
    pub fn is_legal(&self) -> (r: bool)
        ensures
            r == self@.is_legal(),
    {
        match self {
            SupportedOrder::Hold(_, _) => true,
            SupportedOrder::Move(_, from, to) => !from.eq(to),
        }
    }

    /// Whether `order` is the order that the support backs.
    pub fn backs(&self, order: &Order) -> (r: bool)
        ensures
            r == self@.backs(order@),
    {
        match self {
            SupportedOrder::Hold(unit_type, region) => !order.is_move() && order.unit_type
                == *unit_type && order.region.eq(region),
            SupportedOrder::Move(unit_type, from, to) => {
                if order.unit_type == *unit_type && order.region.eq(from) {
                    match &order.command {
                        MainCommand::Move(dest) => dest.eq(to),
                        _ => false,
                    }
                } else {
                    false
                }
            },
        }
    }
}

impl Clone for SupportedOrder {
    fn clone(&self) -> (r: SupportedOrder)
        ensures
            r@ == self@,
    {
        match self {
            SupportedOrder::Hold(u, reg) => SupportedOrder::Hold(*u, reg.clone()),
            SupportedOrder::Move(u, f, t) => SupportedOrder::Move(*u, f.clone(), t.clone()),
        }
    }
}

impl PartialEq for SupportedOrder {
    fn eq(&self, other: &SupportedOrder) -> (r: bool) {
        match (self, other) {
            (SupportedOrder::Hold(u1, r1), SupportedOrder::Hold(u2, r2)) => *u1 == *u2 && r1.eq(
                r2,
            ),
            (SupportedOrder::Move(u1, f1, t1), SupportedOrder::Move(u2, f2, t2)) => *u1 == *u2
                && f1.eq(f2) && t1.eq(t2),
            _ => false,
        }
    }
}

impl PartialEqSpecImpl for SupportedOrder {
    open spec fn obeys_eq_spec() -> bool {
        true
    }

    open spec fn eq_spec(&self, other: &SupportedOrder) -> bool {
        self@ == other@
    }
}

/// A move of an army that a fleet carries.
#[derive(Debug)]
pub struct ConvoyedMove {
    from: RegionKey,
    to: RegionKey,
}

impl View for ConvoyedMove {
    type V = (RegionName, RegionName);

    closed spec fn view(&self) -> (RegionName, RegionName) {
        (self.from@, self.to@)
    }
}

impl ConvoyedMove {
    /// The convoyed move of the army in `from` to `to`.
    pub fn new(from: RegionKey, to: RegionKey) -> (r: ConvoyedMove)
        ensures
            r@ == (from@, to@),
    {
        ConvoyedMove { from, to }
    }

    /// Where the army starts.
    pub fn from(&self) -> (r: &RegionKey)
        ensures
            r@ == self@.0,
    {
        &self.from
    }

    /// Where the army is to land.
    pub fn to(&self) -> (r: &RegionKey)
        ensures
            r@ == self@.1,
    {
        &self.to
    }

    /// Whether `order` is the move that the convoy carries.
    pub fn carries(&self, order: &Order) -> (r: bool)
        ensures
            r == carries(self@.0, self@.1, order@),
    {
        if order.unit_type == UnitType::Army && order.region.eq(&self.from) {
            match &order.command {
                MainCommand::Move(dest) => dest.eq(&self.to),
                _ => false,
            }
        } else {
            false
        }
    }
}

/// Whether `order` is the move of the army in `from` to `to`.
pub open spec fn carries(from: RegionName, to: RegionName, order: OrderView) -> bool {
    order.unit_type == UnitType::Army && order.region == from && order.command
        == CommandView::Move(to)
}

impl Clone for ConvoyedMove {
    fn clone(&self) -> (r: ConvoyedMove)
        ensures
            r@ == self@,
    {
        ConvoyedMove { from: self.from.clone(), to: self.to.clone() }
    }
}

/// A move to a region.
#[derive(Debug)]
pub struct MoveCommand {
    dest: RegionKey,
}

impl MoveCommand {
    /// The move to `dest`.
    pub fn new(dest: RegionKey) -> (r: MoveCommand)
        ensures
            r.dest()@ == dest@,
    {
        MoveCommand { dest }
    }

    /// Where the move goes.
    pub closed spec fn dest(&self) -> RegionKey {
        self.dest
    }

    /// The command that orders this move.
    pub fn into_command(self) -> (r: MainCommand)
        ensures
            r@ == CommandView::Move(self.dest()@),
    {
        MainCommand::Move(self.dest)
    }
}

/// What a unit is ordered to do in a main phase.
#[derive(Debug)]
pub enum MainCommand {
    /// Stay in place.
    Hold,
    /// Go to another region.
    Move(RegionKey),
    /// Back another unit's order.
    Support(SupportedOrder),
    /// Carry an army across the sea.
    Convoy(ConvoyedMove),
}

pub enum CommandView {
    Hold,
    Move(RegionName),
    Support(SupportedView),
    Convoy(RegionName, RegionName),
}

impl View for MainCommand {
    type V = CommandView;

    open spec fn view(&self) -> CommandView {
        match self {
            MainCommand::Hold => CommandView::Hold,
            MainCommand::Move(d) => CommandView::Move(d@),
            MainCommand::Support(s) => CommandView::Support(s@),
            MainCommand::Convoy(c) => CommandView::Convoy(c@.0, c@.1),
        }
    }
}

impl Clone for MainCommand {
    fn clone(&self) -> (r: MainCommand)
        ensures
            r@ == self@,
    {
        match self {
            MainCommand::Hold => MainCommand::Hold,
            MainCommand::Move(d) => MainCommand::Move(d.clone()),
            MainCommand::Support(s) => MainCommand::Support(s.clone()),
            MainCommand::Convoy(c) => MainCommand::Convoy(c.clone()),
        }
    }
}

impl PartialEq for MainCommand {
    fn eq(&self, other: &MainCommand) -> (r: bool) {
        match (self, other) {
            (MainCommand::Hold, MainCommand::Hold) => true,
            (MainCommand::Move(a), MainCommand::Move(b)) => a.eq(b),
            (MainCommand::Support(a), MainCommand::Support(b)) => a.eq(b),
            (MainCommand::Convoy(a), MainCommand::Convoy(b)) => a.from().eq(b.from()) && a.to().eq(
                b.to(),
            ),
            _ => false,
        }
    }
}

impl PartialEqSpecImpl for MainCommand {
    open spec fn obeys_eq_spec() -> bool {
        true
    }

    open spec fn eq_spec(&self, other: &MainCommand) -> bool {
        self@ == other@
    }
}

impl From<MoveCommand> for MainCommand {
    fn from(m: MoveCommand) -> (r: MainCommand)
        ensures
            r@ == CommandView::Move(m.dest()@),
    {
        m.into_command()
    }
}

impl FromSpecImpl<MoveCommand> for MainCommand {
    open spec fn obeys_from_spec() -> bool {
        false
    }

    open spec fn from_spec(m: MoveCommand) -> MainCommand {
        arbitrary()
    }
}

impl From<SupportedOrder> for MainCommand {
    fn from(s: SupportedOrder) -> (r: MainCommand) {
        MainCommand::Support(s)
    }
}

impl FromSpecImpl<SupportedOrder> for MainCommand {
    open spec fn obeys_from_spec() -> bool {
        true
    }

    open spec fn from_spec(s: SupportedOrder) -> MainCommand {
        MainCommand::Support(s)
    }
}

impl From<ConvoyedMove> for MainCommand {
    fn from(c: ConvoyedMove) -> (r: MainCommand) {
        MainCommand::Convoy(c)
    }
}

impl FromSpecImpl<ConvoyedMove> for MainCommand {
    open spec fn obeys_from_spec() -> bool {
        true
    }

    open spec fn from_spec(c: ConvoyedMove) -> MainCommand {
        MainCommand::Convoy(c)
    }
}

/// An order of a main phase: a unit of a nation, the region where it
/// stands, and what it is to do.
#[derive(Debug)]
pub struct Order {
    pub nation: Nation,
    pub unit_type: UnitType,
    pub region: RegionKey,
    pub command: MainCommand,
}

pub struct OrderView {
    pub nation: Seq<u8>,
    pub unit_type: UnitType,
    pub region: RegionName,
    pub command: CommandView,
}

impl OrderView {
    /// Whether the unit is ordered to move.
    pub open spec fn is_move(self) -> bool {
        self.command is Move
    }

    /// Where the unit is ordered to go, if it is ordered to move.
    pub open spec fn move_dest(self) -> Option<RegionName> {
        match self.command {
            CommandView::Move(d) => Some(d),
            _ => None,
        }
    }

    /// Whether the unit is ordered to move into the province.
    pub open spec fn is_move_to_province(self, p: Seq<u8>) -> bool {
        self.command matches CommandView::Move(d) && d.province == p
    }
}

impl View for Order {
    type V = OrderView;

    open spec fn view(&self) -> OrderView {
        OrderView {
            nation: self.nation@,
            unit_type: self.unit_type,
            region: self.region@,
            command: self.command@,
        }
    }
}

impl Order {
    /// The order with the given parts.
    pub fn new(nation: Nation, unit_type: UnitType, region: RegionKey, command: MainCommand) -> (r:
        Order)
        ensures
            r@ == (OrderView {
                nation: nation@,
                unit_type,
                region: region@,
                command: command@,
            }),
    {
        Order { nation, unit_type, region, command }
    }

    /// Whether the unit is ordered to move.
    pub fn is_move(&self) -> (r: bool)
        ensures
            r == self@.is_move(),
    {
        match self.command {
            MainCommand::Move(_) => true,
            _ => false,
        }
    }

    /// Where the unit is ordered to go, if it is ordered to move.
    pub fn move_dest(&self) -> (r: Option<&RegionKey>)
        ensures
            r is Some == self@.move_dest() is Some,
            r is Some ==> r->0@ == self@.move_dest()->0,
    {
        match &self.command {
            MainCommand::Move(d) => Some(d),
            _ => None,
        }
    }

    /// Whether the unit is ordered to move into the province.
    pub fn is_move_to_province(&self, p: &ProvinceKey) -> (r: bool)
        ensures
            r == self@.is_move_to_province(p@),
    {
        match &self.command {
            MainCommand::Move(d) => d.is_in(p),
            _ => false,
        }
    }
}

impl Clone for Order {
    fn clone(&self) -> (r: Order)
        ensures
            r@ == self@,
    {
        Order {
            nation: self.nation.clone(),
            unit_type: self.unit_type,
            region: self.region.clone(),
            command: self.command.clone(),
        }
    }
}

impl PartialEq for Order {
    fn eq(&self, other: &Order) -> (r: bool) {
        self.nation.eq(&other.nation) && self.unit_type == other.unit_type && self.region.eq(
            &other.region,
        ) && self.command.eq(&other.command)
    }
}

impl Eq for Order {

}

impl PartialEqSpecImpl for Order {
    open spec fn obeys_eq_spec() -> bool {
        true
    }

    open spec fn eq_spec(&self, other: &Order) -> bool {
        self@ == other@
    }
}

/// What a dislodged unit is ordered to do.
#[derive(Debug)]
pub enum RetreatCommand {
    /// Leave the board.
    Hold,
    /// Go to another region.
    Move(RegionKey),
}

pub enum RetreatCommandView {
    Hold,
    Move(RegionName),
}

impl View for RetreatCommand {
    type V = RetreatCommandView;

    open spec fn view(&self) -> RetreatCommandView {
        match self {
            RetreatCommand::Hold => RetreatCommandView::Hold,
            RetreatCommand::Move(d) => RetreatCommandView::Move(d@),
        }
    }
}

impl Clone for RetreatCommand {
    fn clone(&self) -> (r: RetreatCommand)
        ensures
            r@ == self@,
    {
        match self {
            RetreatCommand::Hold => RetreatCommand::Hold,
            RetreatCommand::Move(d) => RetreatCommand::Move(d.clone()),
        }
    }
}

/// An order of a retreat phase.
#[derive(Debug)]
pub struct RetreatOrder {
    pub nation: Nation,
    pub unit_type: UnitType,
    pub region: RegionKey,
    pub command: RetreatCommand,
}

pub struct RetreatOrderView {
    pub nation: Seq<u8>,
    pub unit_type: UnitType,
    pub region: RegionName,
    pub command: RetreatCommandView,
}

impl View for RetreatOrder {
    type V = RetreatOrderView;

    open spec fn view(&self) -> RetreatOrderView {
        RetreatOrderView {
            nation: self.nation@,
            unit_type: self.unit_type,
            region: self.region@,
            command: self.command@,
        }
    }
}

impl RetreatOrder {
    /// The order with the given parts.
    pub fn new(
        nation: Nation,
        unit_type: UnitType,
        region: RegionKey,
        command: RetreatCommand,
    ) -> (r: RetreatOrder)
        ensures
            r@ == (RetreatOrderView {
                nation: nation@,
                unit_type,
                region: region@,
                command: command@,
            }),
    {
        RetreatOrder { nation, unit_type, region, command }
    }
}

impl Clone for RetreatOrder {
    fn clone(&self) -> (r: RetreatOrder)
        ensures
            r@ == self@,
    {
        RetreatOrder {
            nation: self.nation.clone(),
            unit_type: self.unit_type,
            region: self.region.clone(),
            command: self.command.clone(),
        }
    }
}

/// What a nation orders in a build phase.
#[derive(Clone, Copy, Debug, PartialEq, Eq, Structural)]
pub enum BuildCommand {
    /// Place a new unit.
    Build,
    /// Take a unit off the board.
    Disband,
}

/// An order of a build phase.
#[derive(Debug)]
pub struct BuildOrder {
    pub nation: Nation,
    pub unit_type: UnitType,
    pub region: RegionKey,
    pub command: BuildCommand,
}

pub struct BuildOrderView {
    pub nation: Seq<u8>,
    pub unit_type: UnitType,
    pub region: RegionName,
    pub command: BuildCommand,
}

impl View for BuildOrder {
    type V = BuildOrderView;

    open spec fn view(&self) -> BuildOrderView {
        BuildOrderView {
            nation: self.nation@,
            unit_type: self.unit_type,
            region: self.region@,
            command: self.command,
        }
    }
}

impl BuildOrder {
    /// The order with the given parts.
    pub fn new(nation: Nation, unit_type: UnitType, region: RegionKey, command: BuildCommand) -> (r:
        BuildOrder)
        ensures
            r@ == (BuildOrderView { nation: nation@, unit_type, region: region@, command }),
    {
        BuildOrder { nation, unit_type, region, command }
    }
}

impl Clone for BuildOrder {
    fn clone(&self) -> (r: BuildOrder)
        ensures
            r@ == self@,
    {
        BuildOrder {
            nation: self.nation.clone(),
            unit_type: self.unit_type,
            region: self.region.clone(),
            command: self.command,
        }
    }
}

impl PartialEq for BuildOrder {
    fn eq(&self, other: &BuildOrder) -> (r: bool) {
        self.nation.eq(&other.nation) && self.unit_type == other.unit_type && self.region.eq(
            &other.region,
        ) && self.command == other.command
    }
}

impl PartialEqSpecImpl for BuildOrder {
    open spec fn obeys_eq_spec() -> bool {
        true
    }

    open spec fn eq_spec(&self, other: &BuildOrder) -> bool {
        self@ == other@
    }
}

/// The main-phase order, under the name that the judge uses.
pub type MappedMainOrder = Order;

/// The build-phase order, under the name that the judge uses.
pub type MappedBuildOrder = BuildOrder;

/// The retreat-phase order, under the name that the judge uses.
pub type MappedRetreatOrder = RetreatOrder;

} // verus!
