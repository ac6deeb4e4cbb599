//! The container scaler: what a request to resize the container comes to.

use vstd::prelude::*;
use crate::setup::{
    default_box_size, wall_extent, wall_height, wall_width, BoxScaleEvent, BoxSize, WallExtent,
    WallTag,
};
use crate::units::Ratio;

verus! {

/// Speed at which the container grows to its new size, as a multiple of the
/// nominal speed of one second.
pub const BOX_GROW_SPEED: u32 = 1;

/// A scale factor for each axis.
#[derive(Clone, Copy, Debug, PartialEq, Eq, Structural)]
pub struct Scale3 {
    pub x: Ratio,
    pub y: Ratio,
    pub z: Ratio,
}

/// The scale of a container with half-extents `(x, y, z)`, relative to the
/// size the container starts with.
pub open spec fn scale_of_box(x: u32, y: u32, z: u32) -> Scale3 {
    Scale3 {
        x: Ratio { num: x as u64, den: default_box_size().x as u64 },
        y: Ratio { num: y as u64, den: default_box_size().y as u64 },
        z: Ratio { num: z as u64, den: default_box_size().z as u64 },
    }
}

/// What a resize comes to: the new collider of each wall, in the order of
/// the walls given, and the scale the container's visuals grow from and to.
#[derive(Debug)]
pub struct BoxResize {
    pub colliders: Vec<WallExtent>,
    pub start: Scale3,
    pub end: Scale3,
}

/// The scale of a container with half-extents `(x, y, z)`.
fn box_scale_factors(x: u32, y: u32, z: u32) -> (scale: Scale3)
    ensures
        scale == scale_of_box(x, y, z),
{
    let reference = BoxSize::default();
    Scale3 {
        x: Ratio { num: x as u64, den: reference.x as u64 },
        y: Ratio { num: y as u64, den: reference.y as u64 },
        z: Ratio { num: z as u64, den: reference.z as u64 },
    }
}

/// Carries out the request `event`, if there is one: the container takes the
/// size asked for, each wall of `walls` gets a collider that fits it, and
/// the visuals grow from the old scale to the new. Without a request nothing
/// changes.
pub fn box_scale(event: Option<BoxScaleEvent>, box_size: &mut BoxSize, walls: &Vec<WallTag>) -> (resize:
    Option<BoxResize>)
    ensures
        event is None ==> resize is None && *final(box_size) == *old(box_size),
        event matches Some(e) ==> {
            &&& *final(box_size) == (BoxSize { x: e.x, y: e.y, z: e.z })
            &&& resize matches Some(r)
            &&& r.start == scale_of_box(old(box_size).x, old(box_size).y, old(box_size).z)
            &&& r.end == scale_of_box(e.x, e.y, e.z)
            &&& r.colliders@.len() == walls@.len()
            &&& forall|k: int|
                0 <= k < walls@.len() ==> {
                    &&& (#[trigger] r.colliders@[k]).width == wall_width(walls@[k].0, e.x, e.y, e.z)
                    &&& r.colliders@[k].height == wall_height(walls@[k].0, e.x, e.y, e.z)
                }
        },
{
    let new_size = match event {
        Some(e) => e,
        None => {
            return None;
        },
    };
    let mut colliders: Vec<WallExtent> = Vec::new();
    let mut k: usize = 0;
    while k < walls.len()
        invariant
            k <= walls.len(),
            colliders@.len() == k,
            forall|w: int|
                0 <= w < k ==> {
                    &&& (#[trigger] colliders@[w]).width == wall_width(
                        walls@[w].0,
                        new_size.x,
                        new_size.y,
                        new_size.z,
                    )
                    &&& colliders@[w].height == wall_height(
                        walls@[w].0,
                        new_size.x,
                        new_size.y,
                        new_size.z,
                    )
                },
        decreases walls.len() - k,
    {
        colliders.push(wall_extent(walls[k].0, new_size.x, new_size.y, new_size.z));
        k += 1;
    }
    let start = box_scale_factors(box_size.x, box_size.y, box_size.z);
    let end = box_scale_factors(new_size.x, new_size.y, new_size.z);
    box_size.x = new_size.x;
    box_size.y = new_size.y;
    box_size.z = new_size.z;
    Some(BoxResize { colliders, start, end })
}

} // verus!
