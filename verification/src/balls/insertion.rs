//! The insertion controller.
//!
//! It keeps the preview ball under the placement gesture, inside the
//! container, and when the gesture ends it puts a real ball there and rolls a
//! new preview.

use rand::Rng;
use vstd::prelude::*;
use crate::balls::ball::{example_ball, new_ball, radius_of, Ball, BallSize};
use crate::input::{BallSpawnUpdate, CursorChangeType};
use crate::points::GamePoints;
use crate::setup::BoxSize;
use crate::units::Vec3;

verus! {

/// Room kept between the preview ball and the walls: a twentieth of a unit.
pub const PREVIEW_MARGIN: u32 = 50;

/// Rank of the next preview while the modifier is held.
pub const MODIFIER_SIZE: u8 = 5;

/// Lowest rank that a preview is rolled with.
pub const MIN_ROLLED_SIZE: u8 = 1;

/// Highest rank that a preview is rolled with.
pub const MAX_ROLLED_SIZE: u8 = 4;

/// Height at which a new preview waits until the next frame places it.
pub const PREVIEW_REST_HEIGHT: i32 = 4_000_000;

/// Height at which the first preview waits.
pub const FIRST_PREVIEW_HEIGHT: i32 = 400_000_000;

/// Where a new preview waits.
pub open spec fn preview_rest() -> Vec3 {
    Vec3 { x: 0, y: PREVIEW_REST_HEIGHT, z: 0 }
}

/// `v`, brought into `lo ..= hi`.
pub open spec fn clamp_to(v: int, lo: int, hi: int) -> int {
    if v < lo {
        lo
    } else if v > hi {
        hi
    } else {
        v
    }
}

/// What a preview of rank `size` keeps between its centre and a wall: its
/// radius and the margin.
pub open spec fn preview_reach(size: BallSize) -> int {
    radius_of(size.0 as nat) + PREVIEW_MARGIN
}

/// Whether a preview of rank `size` has room in a container of size
/// `box_size`.
pub open spec fn has_room(size: BallSize, box_size: BoxSize) -> bool {
    preview_reach(size) <= box_size.x && preview_reach(size) <= box_size.z
}

/// `position`, moved sideways as far as a preview of rank `size` needs to
/// stay inside the walls. Its height is left alone.
pub open spec fn kept_inside(position: Vec3, size: BallSize, box_size: BoxSize) -> Vec3 {
    Vec3 {
        x: clamp_to(
            position.x as int,
            preview_reach(size) - box_size.x,
            box_size.x - preview_reach(size),
        ) as i32,
        y: position.y,
        z: clamp_to(
            position.z as int,
            preview_reach(size) - box_size.z,
            box_size.z - preview_reach(size),
        ) as i32,
    }
}

/// A preview that has room is kept inside the walls, margin included, and
/// is not moved if it is inside already.
pub proof fn lemma_kept_inside(position: Vec3, size: BallSize, box_size: BoxSize)
    requires
        has_room(size, box_size),
    ensures
        -(box_size.x as int) + preview_reach(size) <= kept_inside(position, size, box_size).x
            <= box_size.x - preview_reach(size),
        -(box_size.z as int) + preview_reach(size) <= kept_inside(position, size, box_size).z
            <= box_size.z - preview_reach(size),
        kept_inside(position, size, box_size).y == position.y,
        kept_inside(kept_inside(position, size, box_size), size, box_size) == kept_inside(
            position,
            size,
            box_size,
        ),
{
}

/// How far down the guide line under the preview reaches: twice the height
/// of the container, less a tenth of a unit.
pub open spec fn guide_drop(box_size: BoxSize) -> int {
    2 * box_size.y - 100
}

/// What the controller does in a frame.
#[derive(Clone, Copy, Debug, PartialEq, Eq, Structural)]
pub enum Insertion {
    /// Nothing: there is no update, or no preview to move.
    Idle,
    /// The preview is hidden: no world point lies under the gesture.
    Hidden,
    /// The preview is shown at `position`, above a guide line that reaches
    /// `drop` downwards.
    Shown { position: Vec3, drop: i64 },
    /// The preview is shown at `position`; then `ball` enters the world
    /// there, with the orientation of the preview, and `next_example` takes
    /// the place of the preview.
    Placed { position: Vec3, drop: i64, ball: Ball, next_example: Ball },
}

/// Whether the frame places a ball: the placement gesture ended over the
/// container while a preview is there.
pub open spec fn places(event: Option<BallSpawnUpdate>, preview: Option<BallSize>) -> bool {
    &&& event matches Some(update)
    &&& preview is Some
    &&& update.position is Some
    &&& update.cursor_type == CursorChangeType::DragEnd
}

/// The rank of the preview, which is the rank of a ball placed; 0 without a
/// preview.
pub open spec fn placed_rank(preview: Option<BallSize>) -> int {
    match preview {
        Some(size) => size.0 as int,
        None => 0,
    }
}

/// Whether the frame shows the preview.
pub open spec fn shows(event: Option<BallSpawnUpdate>, preview: Option<BallSize>) -> bool {
    &&& event matches Some(update)
    &&& preview is Some
    &&& update.position is Some
}

/// What the controller does on the latest update `event`, with a preview of
/// rank `preview`, in a container of size `box_size`, when the next preview
/// would be of rank `next_size`.
pub open spec fn insertion_of(
    event: Option<BallSpawnUpdate>,
    preview: Option<BallSize>,
    box_size: BoxSize,
    next_size: u8,
) -> Insertion {
    match (event, preview) {
        (Some(update), Some(size)) => match update.position {
            None => Insertion::Hidden,
            Some(point) => {
                let position = kept_inside(point, size, box_size);
                let drop = guide_drop(box_size) as i64;
                if update.cursor_type == CursorChangeType::DragEnd {
                    Insertion::Placed {
                        position,
                        drop,
                        ball: Ball { translation: position, ..new_ball(size.0) },
                        next_example: example_ball(next_size, preview_rest()),
                    }
                } else {
                    Insertion::Shown { position, drop }
                }
            },
        },
        _ => Insertion::Idle,
    }
}

/// The rank of the preview that an insertion rolls; 0 where it rolls none.
pub open spec fn rolled_size(insertion: Insertion) -> u8 {
    match insertion {
        Insertion::Placed { next_example, .. } => next_example.size.0,
        _ => 0,
    }
}

/// Calls `rand::Rng::gen_range` on `rand::thread_rng()`, the generator of the
/// current thread, with the range `lo ..= hi`. Not proved, but taken from the
/// crate: the number drawn lies in that range, which must not be empty.
/// Which number it is, nothing says. The generator takes its seed from the
/// operating system, when a thread first uses it and again after it has
/// given out enough numbers, and gives up if there is none to be had.
#[verifier::external_body]
fn draw_between(lo: u8, hi: u8) -> (drawn: u8)
    requires
        lo <= hi,
    ensures
        lo <= drawn <= hi,
{
    rand::thread_rng().gen_range(lo..=hi)
}

/// The rank of the next preview: that of the modifier while it is held,
/// else the rank drawn.
pub fn next_size_from(modifier: bool, drawn: u8) -> (size: u8)
    ensures
        size == if modifier {
            MODIFIER_SIZE
        } else {
            drawn
        },
{
    if modifier {
        MODIFIER_SIZE
    } else {
        drawn
    }
}

/// Rolls the rank of the next preview: that of the modifier while it is
/// held, else one drawn at random from the ranks that are rolled.
pub fn roll_next_size(modifier: bool) -> (size: u8)
    ensures
        modifier ==> size == MODIFIER_SIZE,
        !modifier ==> MIN_ROLLED_SIZE <= size <= MAX_ROLLED_SIZE,
{
    let drawn: u8 = if modifier {
        MIN_ROLLED_SIZE
    } else {
        draw_between(MIN_ROLLED_SIZE, MAX_ROLLED_SIZE)
    };
    next_size_from(modifier, drawn)
}

/// `v`, brought to within `reach` of the walls at `extent` on either side.
fn clamp_axis(v: i32, reach: u32, extent: u32) -> (kept: i32)
    requires
        reach <= extent,
    ensures
        kept == clamp_to(v as int, reach - extent, extent - reach),
{
    let lo: i64 = reach as i64 - extent as i64;
    let hi: i64 = extent as i64 - reach as i64;
    let value: i64 = v as i64;
    if value < lo {
        lo as i32
    } else if value > hi {
        hi as i32
    } else {
        v
    }
}

/// Carries out one frame of the controller, given the rank `next_size` that
/// the next preview gets if a ball is placed. A placement adds the rank of
/// the placed ball to the points.
pub fn insert_with(
    event: Option<BallSpawnUpdate>,
    preview: Option<BallSize>,
    box_size: &BoxSize,
    next_size: u8,
    points: &mut GamePoints,
) -> (insertion: Insertion)
    requires
        shows(event, preview) ==> has_room(preview->0, *box_size),
        places(event, preview) ==> old(points).0 + placed_rank(preview) <= i32::MAX,
    ensures
        insertion == insertion_of(event, preview, *box_size, next_size),
        final(points).0 == old(points).0 + if places(event, preview) {
            placed_rank(preview)
        } else {
            0
        },
{
    let update = match event {
        Some(update) => update,
        None => {
            return Insertion::Idle;
        },
    };
    let size = match preview {
        Some(size) => size,
        None => {
            return Insertion::Idle;
        },
    };
    let point = match update.position {
        Some(point) => point,
        None => {
            return Insertion::Hidden;
        },
    };
    let reach: u32 = size.radius() + PREVIEW_MARGIN;
    let position = Vec3 {
        x: clamp_axis(point.x, reach, box_size.x),
        y: point.y,
        z: clamp_axis(point.z, reach, box_size.z),
    };
    let drop: i64 = 2 * (box_size.y as i64) - 100;
    if update.cursor_type == CursorChangeType::DragEnd {
        points.award(size.0 as i32);
        let mut ball = Ball::new(size.0);
        ball.translation = position;
        let rest = Vec3 { x: 0, y: PREVIEW_REST_HEIGHT, z: 0 };
        Insertion::Placed { position, drop, ball, next_example: Ball::example(next_size, rest) }
    } else {
        Insertion::Shown { position, drop }
    }
}

/// Carries out one frame of the controller: takes the latest update of the
/// placement gesture and the rank of the preview, if the host found one, and
/// says what to do. When a ball is placed, the rank of the next preview is
/// rolled: that of the modifier while it is held, else a random one.
pub fn insertion_check(
    event: Option<BallSpawnUpdate>,
    preview: Option<BallSize>,
    modifier: bool,
    box_size: &BoxSize,
    points: &mut GamePoints,
) -> (insertion: Insertion)
    requires
        shows(event, preview) ==> has_room(preview->0, *box_size),
        places(event, preview) ==> old(points).0 + placed_rank(preview) <= i32::MAX,
    ensures
        insertion == insertion_of(event, preview, *box_size, rolled_size(insertion)),
        insertion is Placed && modifier ==> rolled_size(insertion) == MODIFIER_SIZE,
        insertion is Placed && !modifier ==> MIN_ROLLED_SIZE <= rolled_size(insertion)
            <= MAX_ROLLED_SIZE,
        final(points).0 == old(points).0 + if places(event, preview) {
            placed_rank(preview)
        } else {
            0
        },
{
    let ends = match event {
        Some(update) => update.position.is_some() && update.cursor_type
            == CursorChangeType::DragEnd,
        None => false,
    };
    let next_size: u8 = if ends && preview.is_some() {
        roll_next_size(modifier)
    } else {
        0
    };
    insert_with(event, preview, box_size, next_size, points)
}

/// Whether a frame is one that the controller can carry out: a preview that
/// is shown has room in the container, and the points can hold the rank of a
/// ball that is placed.
pub open spec fn can_insert(
    event: Option<BallSpawnUpdate>,
    preview: Option<BallSize>,
    box_size: BoxSize,
    points: GamePoints,
) -> bool {
    &&& shows(event, preview) ==> has_room(preview->0, box_size)
    &&& places(event, preview) ==> points.0 + placed_rank(preview) <= i32::MAX
}

/// What `insertion_check` does, if the frame is one that the controller can
/// carry out; else nothing, and the points stay as they are.
pub fn try_insertion_check(
    event: Option<BallSpawnUpdate>,
    preview: Option<BallSize>,
    modifier: bool,
    box_size: &BoxSize,
    points: &mut GamePoints,
) -> (insertion: Option<Insertion>)
    ensures
        insertion is Some <==> can_insert(event, preview, *box_size, *old(points)),
        insertion matches Some(done) ==> {
            &&& done == insertion_of(event, preview, *box_size, rolled_size(done))
            &&& done is Placed && modifier ==> rolled_size(done) == MODIFIER_SIZE
            &&& done is Placed && !modifier ==> MIN_ROLLED_SIZE <= rolled_size(done)
                <= MAX_ROLLED_SIZE
            &&& final(points).0 == old(points).0 + if places(event, preview) {
                placed_rank(preview)
            } else {
                0
            }
        },
        insertion is None ==> *final(points) == *old(points),
{
    match (event, preview) {
        (Some(update), Some(size)) => {
            if update.position.is_some() {
                let reach: u32 = size.radius() + PREVIEW_MARGIN;
                if reach > box_size.x || reach > box_size.z {
                    return None;
                }
                if update.cursor_type == CursorChangeType::DragEnd && points.0 as i64 + (
                size.0 as i64) > i32::MAX as i64 {
                    return None;
                }
            }
        },
        _ => {},
    }
    Some(insertion_check(event, preview, modifier, box_size, points))
}

/// The preview that the game starts with: of rank one, high above the
/// container.
pub fn first_example() -> (ball: Ball)
    ensures
        ball == example_ball(1, Vec3 { x: 0, y: FIRST_PREVIEW_HEIGHT, z: 0 }),
{
    Ball::example(1, Vec3 { x: 0, y: FIRST_PREVIEW_HEIGHT, z: 0 })
}

} // verus!
