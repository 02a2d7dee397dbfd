//! What became of each kind of order in a main phase.
use vstd::prelude::*;
use vstd::std_specs::convert::FromSpecImpl;
use crate::judge::OrderState;
use crate::judge::support::SupportOutcome;

verus! {

/// What became of a unit that was ordered to hold.
#[derive(Debug, Clone, Copy, PartialEq, Eq, Structural)]
pub enum HoldOutcome {
    /// The unit stays where it is.
    Succeeds,
    /// The move at this place dislodged the unit.
    Dislodged(usize),
}

/// What became of a move.
#[derive(Debug, Clone, Copy, PartialEq, Eq, Structural)]
pub enum AttackOutcome {
    /// The unit was ordered into the province where it stands.
    MoveToSelf,
    /// No border and no convoy route leads to the destination.
    NoPath,
    /// The move would have dislodged a unit of its own nation.
    FriendlyFire,
    /// The move at this place into the same province was at least as strong.
    Prevented(usize),
    /// The unit in the destination held against the attack.
    OccupierDefended,
    /// The unit met the unit of the destination head to head and was not
    /// the stronger.
    LostHeadToHead,
    /// The unit moves.
    Succeeds,
}

/// What became of a convoy.
#[derive(Debug, Clone, Copy, PartialEq, Eq, Structural)]
pub enum ConvoyOutcome {
    /// Only a fleet at sea can convoy.
    NotAtSea,
    /// The convoy was part of a paradox and counts as failed.
    Paradox,
    /// The move at this place dislodged the fleet.
    Dislodged(usize),
    /// The fleet can carry.
    NotDisrupted,
}

/// What became of an order of a main phase, and why.
#[derive(Debug, Clone, Copy, PartialEq, Eq, Structural)]
pub enum OrderOutcome {
    Hold(HoldOutcome),
    Move(AttackOutcome),
    Support(SupportOutcome),
    Convoy(ConvoyOutcome),
    /// The turn stalled: the verdicts that were found do not agree with
    /// what the rules say once they are told every verdict, so no order of
    /// the turn is carried out and every unit stays where it is.
    Stalled,
}

impl OrderOutcome {
    /// Whether the order was carried out.
    pub open spec fn succeeds(self) -> bool {
        match self {
            OrderOutcome::Hold(h) => h == HoldOutcome::Succeeds,
            OrderOutcome::Move(m) => m == AttackOutcome::Succeeds,
            OrderOutcome::Support(s) => s == SupportOutcome::NotDisrupted,
            OrderOutcome::Convoy(c) => c == ConvoyOutcome::NotDisrupted,
            OrderOutcome::Stalled => false,
        }
    }

    /// The plain state of the order, `Succeeds` where the order was carried out,
    /// `Fails` for every other outcome.
    pub open spec fn state(self) -> OrderState {
        OrderState::of(self.succeeds())
    }

    /// Whether the order was carried out.
    pub fn is_successful(&self) -> (r: bool)
        ensures
            r == self.succeeds(),
    {
        match self {
            OrderOutcome::Hold(HoldOutcome::Succeeds) => true,
            OrderOutcome::Move(AttackOutcome::Succeeds) => true,
            OrderOutcome::Support(SupportOutcome::NotDisrupted) => true,
            OrderOutcome::Convoy(ConvoyOutcome::NotDisrupted) => true,
            _ => false,
        }
    }
}

impl From<OrderOutcome> for OrderState {
    fn from(outcome: OrderOutcome) -> (r: OrderState) {
        if outcome.is_successful() {
            OrderState::Succeeds
        } else {
            OrderState::Fails
        }
    }
}

impl FromSpecImpl<OrderOutcome> for OrderState {
    open spec fn obeys_from_spec() -> bool {
        true
    }

    open spec fn from_spec(outcome: OrderOutcome) -> OrderState {
        outcome.state()
    }
}

impl From<SupportOutcome> for OrderState {
    fn from(outcome: SupportOutcome) -> (r: OrderState) {
        if outcome.is_successful() {
            OrderState::Succeeds
        } else {
            OrderState::Fails
        }
    }
}

impl FromSpecImpl<SupportOutcome> for OrderState {
    open spec fn obeys_from_spec() -> bool {
        true
    }

    open spec fn from_spec(outcome: SupportOutcome) -> OrderState {
        OrderState::of(outcome.holds())
    }
}

} // verus!
