//! Helpers shared by the engine.

pub mod datetime;
pub mod hashing;
pub mod identifiers;

pub use identifiers::get_uuid;
