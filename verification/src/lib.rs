//! A rope of point masses joined by breakable distance constraints, stepped
//! at a fixed rate under gravity, drag and a pointer-driven wind, with a
//! cutting gesture that severs the constraints it crosses.
//!
//! All quantities are fixed-point numbers: an `i64` that counts millionths of
//! a unit. Arithmetic saturates at the ends of the `i64` range.

pub mod constraint;
pub mod cut;
pub mod error;
pub mod fixed;
pub mod frame;
pub mod laws;
pub mod main_state;
pub mod node;
pub mod params;
pub mod vec2;
pub mod world;
