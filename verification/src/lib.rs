//! Gameplay core of a physics-based merge game, in exact integer arithmetic.
//!
//! Balls of increasing size fall into a container; two touching balls of the
//! same size merge into one ball of the next size. The host engine owns the
//! entities, steps the physics and draws the scene; this crate decides what
//! happens: which balls merge, where the next ball is placed, how pointer and
//! touch input is classified, how the score moves and when the container
//! grows.
//!
//! All lengths are integers counted in thousandths of a world unit, so every
//! rule is stated and proved without rounding.

pub mod balls;
pub mod input;
pub mod points;
pub mod scene_scale;
pub mod setup;
pub mod units;
