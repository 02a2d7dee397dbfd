//! Resolver for build phases.
pub mod laws;
pub mod outcome;
pub mod resolver;
pub mod state;
pub mod world;

pub use outcome::{OrderOutcome, Outcome, OutcomeError, OutcomeView};
pub use resolver::{ContextView, ResolverContext};
pub use state::{Adjustment, AdjustmentView, BuildUnitError, ResolverState, StateView};
pub use world::{to_initial_ownerships, Ownerships, WorldState, WorldStateView};
