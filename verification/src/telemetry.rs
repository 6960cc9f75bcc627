//! # Telemetry
//!
//! Structs defining the telemetry interchange formats used across the project.
use vstd::prelude::*;

verus! {

/// Speeeeeeeeeed
#[derive(Debug, PartialEq, Eq, Structural)]
pub struct Speeeeeeeeeed {
    /// Velocity is represented in m/s
    pub velocity: i32,
    /// Acceleration is represented in cm/s²
    pub acceleration: i32,
}

} // verus!
