//! A free-flying first-person camera in fixed-point arithmetic.
//!
//! The camera keeps a position and two angles, turns keyboard and mouse
//! input into movement and look changes, lets itself fall under gravity,
//! and says where it looks. Every number is an `i64` that counts millionths:
//! of a world unit, of a degree, of a second. Nothing here can fail or
//! panic; a value that outgrows `i64` sticks at the end of its range.
//!
//! - [`fixed`]: the arithmetic on such numbers.
//! - [`trig`]: sine and cosine of an angle in degrees.
//! - [`vector`]: vectors of three such numbers.
//! - [`camera`]: the camera and its operations.
//! - [`theorems`]: what holds of the camera over several operations.

pub mod camera;
pub mod fixed;
pub mod theorems;
pub mod trig;
pub mod vector;
