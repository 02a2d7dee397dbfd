//! Provinces, regions and the borders between them.
pub mod key;
pub mod map;
pub mod standard;
pub mod table;

pub use key::{Coast, ProvinceKey, RegionKey, RegionName, Terrain};
pub use map::{Border, BorderView, Province, ProvinceView, Region, RegionView, SupplyCenter,
    SupplyCenterView, WorldMap, WorldMapView};
pub use standard::{standard_map, STANDARD_BOARD};
pub use table::map_from_table;
