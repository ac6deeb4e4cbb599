use ball_merge::balls::ball::{Ball, BallSize, BodyKind};
use ball_merge::balls::insertion::{
    first_example, insert_with, insertion_check, next_size_from, roll_next_size,
    try_insertion_check, Insertion,
};
use ball_merge::input::{BallSpawnUpdate, CursorChangeType};
use ball_merge::points::GamePoints;
use ball_merge::setup::BoxSize;
use ball_merge::units::Vec3;

fn update(cursor_type: CursorChangeType, x: i32, y: i32, z: i32) -> Option<BallSpawnUpdate> {
    Some(BallSpawnUpdate { cursor_type, position: Some(Vec3 { x, y, z }) })
}

fn the_box() -> BoxSize {
    BoxSize { x: 4000, y: 6000, z: 4000 }
}

#[test]
fn no_update_does_nothing() {
    let mut points = GamePoints(3);
    let done = insertion_check(None, Some(BallSize(2)), false, &the_box(), &mut points);
    assert_eq!(done, Insertion::Idle);
    assert_eq!(points, GamePoints(3));
}

#[test]
fn no_preview_does_nothing() {
    let mut points = GamePoints(3);
    let done = insertion_check(
        update(CursorChangeType::DragEnd, 0, 6000, 0),
        None,
        false,
        &the_box(),
        &mut points,
    );
    assert_eq!(done, Insertion::Idle);
    assert_eq!(points, GamePoints(3));
}

#[test]
fn no_point_hides_the_preview() {
    let mut points = GamePoints(3);
    let event = Some(BallSpawnUpdate { cursor_type: CursorChangeType::DragEnd, position: None });
    let done = insertion_check(event, Some(BallSize(2)), false, &the_box(), &mut points);
    assert_eq!(done, Insertion::Hidden);
    assert_eq!(points, GamePoints(3));
}

#[test]
fn preview_follows_the_gesture() {
    let mut points = GamePoints(3);
    let done = insertion_check(
        update(CursorChangeType::Drag, 1200, 6000, -700),
        Some(BallSize(2)),
        false,
        &the_box(),
        &mut points,
    );
    assert_eq!(done, Insertion::Shown { position: Vec3 { x: 1200, y: 6000, z: -700 }, drop: 11_900 });
    assert_eq!(points, GamePoints(3));
}

#[test]
fn preview_is_kept_inside_the_walls() {
    // Rank 2: radius 1000 and margin 50 leave 2950 on either side.
    let mut points = GamePoints(0);
    let done = insertion_check(
        update(CursorChangeType::Move, 4000, 6000, -4000),
        Some(BallSize(2)),
        false,
        &the_box(),
        &mut points,
    );
    assert_eq!(done, Insertion::Shown { position: Vec3 { x: 2950, y: 6000, z: -2950 }, drop: 11_900 });
    let done = insertion_check(
        update(CursorChangeType::Move, -2951, 6000, 2950),
        Some(BallSize(2)),
        false,
        &the_box(),
        &mut points,
    );
    assert_eq!(done, Insertion::Shown { position: Vec3 { x: -2950, y: 6000, z: 2950 }, drop: 11_900 });
}

#[test]
fn preview_that_fills_the_box_stays_in_the_middle() {
    // Rank 11: radius 3700 and margin 50 leave 250 on either side.
    let mut points = GamePoints(0);
    let done = insertion_check(
        update(CursorChangeType::Move, i32::MAX, 1, i32::MIN),
        Some(BallSize(11)),
        false,
        &the_box(),
        &mut points,
    );
    assert_eq!(done, Insertion::Shown { position: Vec3 { x: 250, y: 1, z: -250 }, drop: 11_900 });
}

#[test]
fn ending_the_gesture_places_a_ball_and_scores_its_rank() {
    let mut points = GamePoints(10);
    let done = insert_with(
        update(CursorChangeType::DragEnd, 3500, 6000, 100),
        Some(BallSize(3)),
        &the_box(),
        2,
        &mut points,
    );
    let position = Vec3 { x: 2650, y: 6000, z: 100 };
    let mut ball = Ball::new(3);
    ball.translation = position;
    let next_example = Ball::example(2, Vec3 { x: 0, y: 4_000_000, z: 0 });
    assert_eq!(done, Insertion::Placed { position, drop: 11_900, ball, next_example });
    assert_eq!(points, GamePoints(13));
    assert_eq!(ball.rigid_body, BodyKind::Dynamic);
    assert_eq!(next_example.rigid_body, BodyKind::Kinematic);
    assert!(next_example.example);
}

#[test]
fn modifier_makes_the_next_preview_rank_five() {
    let mut points = GamePoints(0);
    let done = insertion_check(
        update(CursorChangeType::DragEnd, 0, 6000, 0),
        Some(BallSize(1)),
        true,
        &the_box(),
        &mut points,
    );
    match done {
        Insertion::Placed { ball, next_example, .. } => {
            assert_eq!(ball.size, BallSize(1));
            assert_eq!(next_example, Ball::example(5, Vec3 { x: 0, y: 4_000_000, z: 0 }));
        },
        _ => panic!("no ball placed"),
    }
    assert_eq!(points, GamePoints(1));
}

#[test]
fn rolled_preview_is_of_rank_one_to_four() {
    let mut seen = [false; 6];
    let mut points = GamePoints(0);
    for round in 0..400 {
        let done = insertion_check(
            update(CursorChangeType::DragEnd, 0, 6000, 0),
            Some(BallSize(4)),
            false,
            &the_box(),
            &mut points,
        );
        match done {
            Insertion::Placed { next_example, .. } => {
                assert!(next_example.size.0 >= 1 && next_example.size.0 <= 4);
                assert!(next_example.example);
                seen[next_example.size.0 as usize] = true;
            },
            _ => panic!("no ball placed"),
        }
        assert_eq!(points, GamePoints(4 * (round + 1)));
    }
    assert!(seen[1..=4].iter().filter(|s| **s).count() >= 2);
}

#[test]
fn roll_follows_the_modifier() {
    assert_eq!(roll_next_size(true), 5);
    let mut seen = [false; 5];
    for _ in 0..400 {
        let size = roll_next_size(false);
        assert!((1..=4).contains(&size));
        seen[size as usize] = true;
    }
    assert!(seen[1..=4].iter().filter(|s| **s).count() >= 2);
}

#[test]
fn next_size_is_the_draw_unless_the_modifier_is_held() {
    assert_eq!(next_size_from(true, 3), 5);
    assert_eq!(next_size_from(false, 3), 3);
    assert_eq!(next_size_from(false, 1), 1);
}

#[test]
fn game_starts_with_a_rank_one_preview() {
    assert_eq!(first_example(), Ball::example(1, Vec3 { x: 0, y: 400_000_000, z: 0 }));
}

#[test]
fn placing_adds_exactly_the_rank() {
    let mut points = GamePoints(-300);
    let done = insertion_check(
        update(CursorChangeType::DragEnd, 0, 6000, 0),
        Some(BallSize(4)),
        false,
        &the_box(),
        &mut points,
    );
    assert!(matches!(done, Insertion::Placed { .. }));
    assert_eq!(points, GamePoints(-296));
}

#[test]
fn checked_frame_is_the_frame() {
    let mut points = GamePoints(10);
    let done = try_insertion_check(
        update(CursorChangeType::DragEnd, 3500, 6000, 100),
        Some(BallSize(3)),
        true,
        &the_box(),
        &mut points,
    );
    let position = Vec3 { x: 2650, y: 6000, z: 100 };
    let mut ball = Ball::new(3);
    ball.translation = position;
    let next_example = Ball::example(5, Vec3 { x: 0, y: 4_000_000, z: 0 });
    assert_eq!(done, Some(Insertion::Placed { position, drop: 11_900, ball, next_example }));
    assert_eq!(points, GamePoints(13));
    let done = try_insertion_check(None, Some(BallSize(200)), true, &the_box(), &mut points);
    assert_eq!(done, Some(Insertion::Idle));
    let hidden = Some(BallSpawnUpdate { cursor_type: CursorChangeType::DragEnd, position: None });
    let done = try_insertion_check(hidden, Some(BallSize(200)), true, &the_box(), &mut points);
    assert_eq!(done, Some(Insertion::Hidden));
    assert_eq!(points, GamePoints(13));
}

#[test]
fn checked_frame_refuses_a_preview_without_room() {
    // Rank 12: radius 4000 and margin 50 do not fit half-extents of 4000.
    let mut points = GamePoints(10);
    let done = try_insertion_check(
        update(CursorChangeType::Drag, 0, 6000, 0),
        Some(BallSize(12)),
        false,
        &the_box(),
        &mut points,
    );
    assert_eq!(done, None);
    assert_eq!(points, GamePoints(10));
    let narrow = BoxSize { x: 4000, y: 6000, z: 1049 };
    let done = try_insertion_check(
        update(CursorChangeType::Drag, 0, 6000, 0),
        Some(BallSize(2)),
        false,
        &narrow,
        &mut points,
    );
    assert_eq!(done, None);
}

#[test]
fn checked_frame_refuses_points_that_would_overflow() {
    let mut points = GamePoints(i32::MAX - 2);
    let done = try_insertion_check(
        update(CursorChangeType::DragEnd, 0, 6000, 0),
        Some(BallSize(3)),
        false,
        &the_box(),
        &mut points,
    );
    assert_eq!(done, None);
    assert_eq!(points, GamePoints(i32::MAX - 2));
    let done = try_insertion_check(
        update(CursorChangeType::Drag, 0, 6000, 0),
        Some(BallSize(3)),
        false,
        &the_box(),
        &mut points,
    );
    assert!(matches!(done, Some(Insertion::Shown { .. })));
    let done = try_insertion_check(
        update(CursorChangeType::DragEnd, 0, 6000, 0),
        Some(BallSize(2)),
        false,
        &the_box(),
        &mut points,
    );
    assert!(matches!(done, Some(Insertion::Placed { .. })));
    assert_eq!(points, GamePoints(i32::MAX));
}
