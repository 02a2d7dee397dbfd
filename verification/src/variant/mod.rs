//! Builders for different variations on the Diplomacy rules.
use vstd::prelude::*;
use vstd::string::StringSliceAdditionalSpecFns;
use crate::geo::standard::{STANDARD_BOARD, standard_map};
use crate::geo::table::table_map;

pub mod disorder;
pub mod standard;

pub use standard::{Standard, StandardBuildJudge};

verus! {

/// Get the standard game of Diplomacy, without any customizations: the
/// vanilla rules on the standard board.
pub fn standard() -> (r: Standard)
    ensures
        r.map_view().wf(),
        r.map_view() == table_map(STANDARD_BOARD.spec_bytes()),
        r.nation_names() == standard::home_nations(r.map_view()),
{
    Standard::new(standard_map())
}

} // verus!
