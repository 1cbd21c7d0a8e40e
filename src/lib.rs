//! Gameplay rules of a small space-flight arcade game, held as integers.
//!
//! Lengths are counted in thousandths of a world unit, speeds in thousandths
//! of a unit per second and time in nanoseconds, so that every rule is exact.

pub mod speed;
pub mod timer;
pub mod space;
pub mod enemy;
pub mod motion;
