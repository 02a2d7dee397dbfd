//! The text form of orders: `NATION: UNITTYPE REGION COMMAND`.
pub mod error;
pub mod orders;
pub mod roundtrip;
pub mod words;

pub use error::{Error, ErrorKind};
pub use orders::FromWords;
