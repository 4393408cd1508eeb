//! Turning a workout into drawing instructions: proportioned boxes and
//! ramp triangles, and the color each effort is painted with.
pub mod colors;
pub mod layout;
