//! Fixed-point pose algebra and three-point circle fitting.
//!
//! Positions are integers counted in steps of a millionth of a scene unit
//! ([`point::STEPS_PER_UNIT`]); angles are integers counted in microradians
//! ([`pose::STEPS_PER_RADIAN`]). Axis convention: `x` is the lateral shift,
//! `y` the forward distance and `z` the height.
pub mod point;
pub mod circle;
pub mod pose;

pub use circle::{fit_flat_circle, Circumcenter};
pub use point::{GeometryError, Nearby, Point};
pub use pose::{Frame, Pose};
