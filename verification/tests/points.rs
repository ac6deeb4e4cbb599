use ball_merge::balls::ball::{BallSize, LiveBall};
use ball_merge::points::{ball_out_of_bounds, try_ball_out_of_bounds, GamePoints};
use ball_merge::units::Vec3;

fn ball_at(id: u64, size: u8, y: i32) -> LiveBall {
    LiveBall {
        id,
        size: BallSize(size),
        position: Vec3 { x: 0, y, z: 0 },
        velocity: Vec3 { x: 0, y: 0, z: 0 },
        example: false,
    }
}

#[test]
fn award_adds_exactly_the_points_given() {
    let mut points = GamePoints(7);
    points.award(3);
    assert_eq!(points, GamePoints(10));
}

#[test]
fn penalty_is_a_hundred_per_rank() {
    let mut points = GamePoints(1000);
    points.penalize_out_of_bounds(BallSize(4));
    assert_eq!(points, GamePoints(600));
}

#[test]
fn points_may_go_below_zero() {
    let mut points = GamePoints(50);
    points.penalize_out_of_bounds(BallSize(2));
    assert_eq!(points, GamePoints(-150));
}

#[test]
fn ball_below_the_floor_is_removed_and_costs_points() {
    let mut points = GamePoints(0);
    let balls = vec![ball_at(1, 3, -51_000)];
    let despawned = ball_out_of_bounds(&mut points, &balls);
    assert_eq!(despawned, vec![0]);
    assert_eq!(points, GamePoints(-300));
}

#[test]
fn ball_on_the_floor_stays() {
    let mut points = GamePoints(5);
    let balls = vec![ball_at(1, 3, -50_000), ball_at(2, 2, 0)];
    let despawned = ball_out_of_bounds(&mut points, &balls);
    assert!(despawned.is_empty());
    assert_eq!(points, GamePoints(5));
}

#[test]
fn every_fallen_ball_is_listed_in_order() {
    let mut points = GamePoints(10_000);
    let balls = vec![
        ball_at(10, 1, -50_001),
        ball_at(11, 9, 100),
        ball_at(12, 2, -70_000),
        ball_at(13, 0, -60_000),
        ball_at(14, 5, -49_999),
    ];
    let despawned = ball_out_of_bounds(&mut points, &balls);
    assert_eq!(despawned, vec![0, 2, 3]);
    assert_eq!(points, GamePoints(10_000 - 100 - 200));
}

#[test]
fn no_balls_no_change() {
    let mut points = GamePoints(-4);
    let despawned = ball_out_of_bounds(&mut points, &Vec::new());
    assert!(despawned.is_empty());
    assert_eq!(points, GamePoints(-4));
}

#[test]
fn checked_pass_takes_the_same_points() {
    let mut points = GamePoints(-296);
    let balls = vec![ball_at(1, 3, -51_000), ball_at(2, 4, 0)];
    assert_eq!(try_ball_out_of_bounds(&mut points, &balls), Some(vec![0]));
    assert_eq!(points, GamePoints(-596));
}

#[test]
fn checked_pass_leaves_points_that_cannot_hold_the_cost() {
    let mut points = GamePoints(i32::MIN + 299);
    let balls = vec![ball_at(1, 3, -51_000)];
    assert_eq!(try_ball_out_of_bounds(&mut points, &balls), None);
    assert_eq!(points, GamePoints(i32::MIN + 299));
    let mut points = GamePoints(i32::MIN + 300);
    assert_eq!(try_ball_out_of_bounds(&mut points, &balls), Some(vec![0]));
    assert_eq!(points, GamePoints(i32::MIN));
}
