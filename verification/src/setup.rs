//! The container: its size, the request to resize it, and where its walls
//! stand.

use vstd::prelude::*;
use crate::units::Vec3;

verus! {

/// Half-extents of the container along the three axes.
#[derive(Clone, Copy, Debug, PartialEq, Eq, Structural)]
pub struct BoxSize {
    pub x: u32,
    pub y: u32,
    pub z: u32,
}

/// The half-extents the container starts with: 4 by 6 by 4 units.
pub open spec fn default_box_size() -> BoxSize {
    BoxSize { x: 4000, y: 6000, z: 4000 }
}

impl Default for BoxSize {
    fn default() -> (size: Self)
        ensures
            size == default_box_size(),
    {
        Self { x: 4000, y: 6000, z: 4000 }
    }
}

/// A request to give the container new half-extents.
#[derive(Clone, Copy, Debug, PartialEq, Eq, Structural)]
pub struct BoxScaleEvent {
    pub x: u32,
    pub y: u32,
    pub z: u32,
}

/// The axis that a wall faces.
#[derive(Clone, Copy, Debug, PartialEq, Eq, Structural)]
pub enum WallAxis {
    X,
    Y,
    Z,
}

/// The side of the container on which a wall stands.
#[derive(Clone, Copy, Debug, PartialEq, Eq, Structural)]
pub enum WallSide {
    Negative,
    Positive,
}

/// Marks a wall of the container: the axis it faces and its side.
#[derive(Clone, Copy, Debug, PartialEq, Eq, Structural)]
pub struct WallTag(pub WallAxis, pub WallSide);

/// Thickness of a wall's collider: a hundredth of a unit.
pub const WALL_THICKNESS: u32 = 10;

/// Width of the wall that faces `axis`, for a container of half-extents
/// `(x, y, z)`.
pub open spec fn wall_width(axis: WallAxis, x: u32, y: u32, z: u32) -> nat {
    match axis {
        WallAxis::X => 2 * z as nat,
        WallAxis::Y => 2 * x as nat,
        WallAxis::Z => 2 * x as nat,
    }
}

/// Height of the wall that faces `axis`, for a container of half-extents
/// `(x, y, z)`.
pub open spec fn wall_height(axis: WallAxis, x: u32, y: u32, z: u32) -> nat {
    match axis {
        WallAxis::X => 2 * y as nat,
        WallAxis::Y => 2 * z as nat,
        WallAxis::Z => 2 * y as nat,
    }
}

/// The half-extent of the container along `axis`.
pub open spec fn half_extent(axis: WallAxis, x: u32, y: u32, z: u32) -> u32 {
    match axis {
        WallAxis::X => x,
        WallAxis::Y => y,
        WallAxis::Z => z,
    }
}

/// Where the centre of a wall lies along its own axis.
pub open spec fn wall_offset(tag: WallTag, x: u32, y: u32, z: u32) -> int {
    match tag.1 {
        WallSide::Negative => -(half_extent(tag.0, x, y, z) as int),
        WallSide::Positive => half_extent(tag.0, x, y, z) as int,
    }
}

/// Width and height of a wall's collider.
#[derive(Clone, Copy, Debug, PartialEq, Eq, Structural)]
pub struct WallExtent {
    pub width: u64,
    pub height: u64,
}

/// Width and height of the wall that faces `axis`.
pub fn wall_extent(axis: WallAxis, x: u32, y: u32, z: u32) -> (extent: WallExtent)
    ensures
        extent.width == wall_width(axis, x, y, z),
        extent.height == wall_height(axis, x, y, z),
{
    match axis {
        WallAxis::X => WallExtent { width: 2 * (z as u64), height: 2 * (y as u64) },
        WallAxis::Y => WallExtent { width: 2 * (x as u64), height: 2 * (z as u64) },
        WallAxis::Z => WallExtent { width: 2 * (x as u64), height: 2 * (y as u64) },
    }
}

/// Where a wall stands and how large it is. The position is exact: its
/// coordinates are whole thousandths that may exceed what a `Vec3` holds.
#[derive(Clone, Copy, Debug, PartialEq, Eq, Structural)]
pub struct WallLayout {
    pub x: i64,
    pub y: i64,
    pub z: i64,
    pub extent: WallExtent,
    pub tag: WallTag,
}

/// The layout of one wall of a container of size `box_size`: centred on its
/// axis at the distance of the half-extent, on the side that `tag` names.
pub fn wall_layout(box_size: &BoxSize, tag: WallTag) -> (layout: WallLayout)
    ensures
        layout.tag == tag,
        layout.extent.width == wall_width(tag.0, box_size.x, box_size.y, box_size.z),
        layout.extent.height == wall_height(tag.0, box_size.x, box_size.y, box_size.z),
        layout.x == if tag.0 == WallAxis::X {
            wall_offset(tag, box_size.x, box_size.y, box_size.z)
        } else {
            0
        },
        layout.y == if tag.0 == WallAxis::Y {
            wall_offset(tag, box_size.x, box_size.y, box_size.z)
        } else {
            0
        },
        layout.z == if tag.0 == WallAxis::Z {
            wall_offset(tag, box_size.x, box_size.y, box_size.z)
        } else {
            0
        },
{
    let extent = wall_extent(tag.0, box_size.x, box_size.y, box_size.z);
    let reach: i64 = match tag.0 {
        WallAxis::X => box_size.x as i64,
        WallAxis::Y => box_size.y as i64,
        WallAxis::Z => box_size.z as i64,
    };
    let offset: i64 = match tag.1 {
        WallSide::Negative => -reach,
        WallSide::Positive => reach,
    };
    match tag.0 {
        WallAxis::X => WallLayout { x: offset, y: 0, z: 0, extent, tag },
        WallAxis::Y => WallLayout { x: 0, y: offset, z: 0, extent, tag },
        WallAxis::Z => WallLayout { x: 0, y: 0, z: offset, extent, tag },
    }
}

/// Whether `point` lies within the container's footprint, its rim included.
pub open spec fn over_box(point: Vec3, box_size: BoxSize) -> bool {
    &&& -(box_size.x as int) <= point.x <= box_size.x as int
    &&& -(box_size.z as int) <= point.z <= box_size.z as int
}

} // verus!
