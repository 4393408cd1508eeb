//! A verified core for building interval-training workouts and exchanging
//! them as line-oriented course files (`.mrc`/`.crm`).
//!
//! Durations and power values are fixed-point numbers counted in hundredths,
//! matching the two fractional digits of the course format exactly.
pub mod text;
pub mod visualization;
pub mod workout_data;
pub mod workout_definition;
pub mod workout_design;

use vstd::prelude::*;

verus! {

/// Largest value (in hundredths) a course-file number may hold: 100000.00.
pub const MAX_HUNDREDTHS: u64 = 10_000_000;

} // verus!
