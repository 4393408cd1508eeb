//! Base types for constructing a workout: validated numbers and their
//! fixed two-decimal course-file rendering.
pub mod effort;
pub mod from_mrc;
pub mod from_plan_format;
pub mod plan_round_trip;
pub mod positive_float;
pub mod round_trip;
pub mod workout;

use vstd::prelude::*;

verus! {

/// Rendering a value as it appears in a course (`.mrc`/`.crm`) file.
pub trait ToMRC {
    fn to_mrc(&self) -> String;
}

} // verus!
