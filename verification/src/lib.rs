//! An adjudicator for orders in the board game Diplomacy.
use vstd::prelude::*;

pub mod text;
pub mod seqs;
pub mod nation;
pub mod unit;
pub mod geo;
pub mod order;
pub mod parser;
pub mod judge;
pub mod variant;

pub use nation::Nation;
pub use unit::{Unit, UnitPosition, UnitType};

verus! {

/// Format trait for short naming of objects in orders.
pub trait ShortName {
    /// The short display name of the object.
    fn short_name(&self) -> String;
}

} // verus!
