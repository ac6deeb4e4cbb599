//! Fixed-point quantities shared by every component.
//!
//! World lengths are counted in thousandths of a world unit. Screen positions
//! are counted in whatever unit the host samples its pointer in; the crate only
//! subtracts them and hands them back.

use vstd::prelude::*;

verus! {

/// Number of length steps in one world unit.
pub const UNIT: u32 = 1000;

/// An exact non-negative fraction `num / den`.
#[derive(Clone, Copy, Debug, PartialEq, Eq, Structural)]
pub struct Ratio {
    pub num: u64,
    pub den: u64,
}

impl Ratio {
    /// A ratio is well formed when its denominator is not zero.
    pub open spec fn wf(self) -> bool {
        self.den > 0
    }

    /// The fraction is strictly greater than one.
    pub open spec fn exceeds_one(self) -> bool {
        self.num > self.den
    }
}

/// A point or a displacement in world space, in thousandths of a unit.
#[derive(Clone, Copy, Debug, PartialEq, Eq, Structural)]
pub struct Vec3 {
    pub x: i32,
    pub y: i32,
    pub z: i32,
}

/// A pointer position on the screen.
#[derive(Clone, Copy, Debug, PartialEq, Eq, Structural)]
pub struct Vec2 {
    pub x: i32,
    pub y: i32,
}

/// The exact difference of two screen positions.
#[derive(Clone, Copy, Debug, PartialEq, Eq, Structural)]
pub struct Movement {
    pub x: i64,
    pub y: i64,
}

} // verus!
