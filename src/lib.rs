//! A third-person orbit camera rig in fixed-point coordinates.
//!
//! Positions are `i64` micro-units (one world unit is `UNIT` steps) and
//! blend factors are parts per million, so every stage of the rig is exact
//! integer arithmetic with a contract.
pub mod fixed;
pub mod vector;
pub mod third_person;
pub mod smoothing;
pub mod laws;
