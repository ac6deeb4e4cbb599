use ball_merge::balls::ball::{Ball, BallSize, BodyKind, DEFAULT_FRICTION, DEFAULT_RESTITUTION};
use ball_merge::units::{Ratio, Vec3};

#[test]
fn radius_follows_the_formula() {
    assert_eq!(BallSize(0).radius(), 400);
    assert_eq!(BallSize(1).radius(), 700);
    assert_eq!(BallSize(2).radius(), 1000);
    assert_eq!(BallSize(9).radius(), 3100);
    assert_eq!(BallSize(255).radius(), 76900);
}

#[test]
fn start_radius_follows_the_formula() {
    assert_eq!(BallSize(0).start_radius(), 95);
    assert_eq!(BallSize(1).start_radius(), 380);
    assert_eq!(BallSize(2).start_radius(), 665);
    assert_eq!(BallSize(9).start_radius(), 2660);
    assert_eq!(BallSize(255).start_radius(), 72770);
}

#[test]
fn scale_is_radius_over_start_radius() {
    assert_eq!(BallSize(2).scale(), Ratio { num: 1000, den: 665 });
    assert_eq!(BallSize(9).scale(), Ratio { num: 3100, den: 2660 });
}

#[test]
fn every_rank_starts_smaller_than_it_ends() {
    for n in 0..=255u8 {
        let size = BallSize(n);
        assert!(size.start_radius() > 0);
        assert!(size.radius() > size.start_radius());
        let scale = size.scale();
        assert!(scale.den > 0);
        assert!(scale.num > scale.den);
    }
}

#[test]
fn radius_grows_with_every_rank() {
    for n in 0..255u8 {
        assert!(BallSize(n + 1).radius() > BallSize(n).radius());
        assert!(BallSize(n + 1).start_radius() > BallSize(n).start_radius());
    }
}

#[test]
fn default_ball_is_a_resting_rank_one_ball() {
    let ball = Ball::default();
    assert_eq!(ball.size, BallSize(1));
    assert_eq!(ball.rigid_body, BodyKind::Dynamic);
    assert_eq!(ball.collider_radius, 380);
    assert_eq!(ball.vel, Vec3 { x: 0, y: 0, z: 0 });
    assert_eq!(ball.translation, Vec3 { x: 0, y: 0, z: 0 });
    assert_eq!(ball.scale, Ratio { num: 1, den: 1 });
    assert_eq!(ball.mass, 1);
    assert_eq!(ball.restitution, DEFAULT_RESTITUTION);
    assert_eq!(ball.friction, DEFAULT_FRICTION);
    assert_eq!(ball.restitution, 0);
    assert_eq!(ball.friction, 800);
    assert!(!ball.example);
}

#[test]
fn new_ball_has_the_values_of_its_rank() {
    let ball = Ball::new(3);
    assert_eq!(ball.size, BallSize(3));
    assert_eq!(ball.rigid_body, BodyKind::Dynamic);
    assert_eq!(ball.collider_radius, 950);
    assert_eq!(ball.scale, Ratio { num: 1300, den: 950 });
    assert_eq!(ball.mass, 90);
    assert_eq!(ball.vel, Vec3 { x: 0, y: 0, z: 0 });
    assert_eq!(ball.translation, Vec3 { x: 0, y: 0, z: 0 });
    assert_eq!(ball.friction, 800);
    assert!(!ball.example);
}

#[test]
fn new_ball_mass_is_ten_times_the_square_of_the_rank() {
    assert_eq!(Ball::new(0).mass, 0);
    assert_eq!(Ball::new(1).mass, 10);
    assert_eq!(Ball::new(9).mass, 810);
    assert_eq!(Ball::new(255).mass, 650250);
}

#[test]
fn example_ball_is_kinematic_and_light() {
    let at = Vec3 { x: 0, y: 4_000_000, z: 0 };
    let ball = Ball::example(4, at);
    assert_eq!(ball.size, BallSize(4));
    assert_eq!(ball.rigid_body, BodyKind::Kinematic);
    assert_eq!(ball.mass, 1);
    assert!(ball.example);
    assert_eq!(ball.translation, at);
    assert_eq!(ball.collider_radius, 1235);
    assert_eq!(ball.scale, Ratio { num: 1600, den: 1235 });
}

#[test]
fn template_index_is_capped_at_nine() {
    assert_eq!(Ball::template_index(0), 0);
    assert_eq!(Ball::template_index(5), 5);
    assert_eq!(Ball::template_index(9), 9);
    assert_eq!(Ball::template_index(10), 9);
    assert_eq!(Ball::template_index(255), 9);
}
