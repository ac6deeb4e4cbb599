//! The size model of a ball and the bundle of values a new ball starts with.

use vstd::prelude::*;
use crate::units::{Ratio, Vec3};

verus! {

/// Radius of a fully grown ball of rank `n`: `0.3 n + 0.4` units.
pub open spec fn radius_of(n: nat) -> nat {
    300 * n + 400
}

/// Radius of a ball of rank `n` right after it was created, before it grows:
/// `0.95 (0.3 n + 0.1)` units.
pub open spec fn start_radius_of(n: nat) -> nat {
    95 * (300 * n + 100) / 100
}

/// Rank of a ball.
#[derive(Clone, Copy, Debug, PartialEq, Eq, Structural)]
pub struct BallSize(pub u8);

impl BallSize {
    /// Radius of the fully grown ball.
    pub fn radius(&self) -> (r: u32)
        ensures
            r == radius_of(self.0 as nat),
    {
        300 * (self.0 as u32) + 400
    }

    /// Radius of the ball when it is created.
    pub fn start_radius(&self) -> (r: u32)
        ensures
            r == start_radius_of(self.0 as nat),
    {
        proof {
            lemma_start_radius_exact(self.0 as nat);
        }
        285 * (self.0 as u32) + 95
    }

    /// Factor by which a ball grows from its start radius to its radius.
    pub fn scale(&self) -> (r: Ratio)
        ensures
            r.num == radius_of(self.0 as nat),
            r.den == start_radius_of(self.0 as nat),
            r.wf(),
            r.exceeds_one(),
    {
        proof {
            lemma_start_radius_exact(self.0 as nat);
        }
        Ratio { num: self.radius() as u64, den: self.start_radius() as u64 }
    }
}

/// The start radius is a whole number of thousandths: no rounding takes place.
pub proof fn lemma_start_radius_exact(n: nat)
    ensures
        start_radius_of(n) == 285 * n + 95,
        start_radius_of(n) * 100 == 95 * (300 * n + 100),
{
    assert(95 * (300 * n + 100) == (285 * n + 95) * 100);
}

/// Every ball starts smaller than it ends, and never with radius zero.
pub proof fn lemma_radius_exceeds_start_radius(n: nat)
    ensures
        radius_of(n) > start_radius_of(n) > 0,
{
    lemma_start_radius_exact(n);
}

/// The next rank is strictly larger, grown and at creation.
pub proof fn lemma_radius_strictly_increasing(n: nat)
    ensures
        radius_of(n + 1) > radius_of(n),
        start_radius_of(n + 1) > start_radius_of(n),
{
    lemma_start_radius_exact(n);
    lemma_start_radius_exact(n + 1);
}

/// A larger rank has a larger radius, grown and at creation.
pub proof fn lemma_radius_monotonic(m: nat, n: nat)
    requires
        m < n,
    ensures
        radius_of(m) < radius_of(n),
        start_radius_of(m) < start_radius_of(n),
{
    lemma_start_radius_exact(m);
    lemma_start_radius_exact(n);
}

/// Highest rank with visuals of its own; the host draws larger balls like it.
pub const MAX_SIZE: u8 = 9;

/// Restitution of every ball, in thousandths.
pub const DEFAULT_RESTITUTION: u32 = 0;

/// Friction of every ball, in thousandths.
pub const DEFAULT_FRICTION: u32 = 800;

/// How the physics engine treats a ball.
#[derive(Clone, Copy, Debug, PartialEq, Eq, Structural)]
pub enum BodyKind {
    /// Moved by forces and collisions.
    Dynamic,
    /// Moved only by whoever owns it; gravity does not act on it.
    Kinematic,
}

/// Mass of a ball of rank `n`.
pub open spec fn mass_of(n: nat) -> nat {
    n * n * 10
}

/// The rank whose visuals a ball of rank `n` is drawn with.
pub open spec fn template_index_of(n: nat) -> nat {
    if n > 9 {
        9
    } else {
        n
    }
}

/// The values a ball enters the world with.
#[derive(Clone, Copy, Debug, PartialEq, Eq, Structural)]
pub struct Ball {
    pub size: BallSize,
    pub rigid_body: BodyKind,
    /// Radius of the collider before `scale` is applied.
    pub collider_radius: u32,
    pub vel: Vec3,
    pub translation: Vec3,
    /// Factor applied to the collider and to the visuals.
    pub scale: Ratio,
    pub mass: u32,
    pub restitution: u32,
    pub friction: u32,
    /// Marks the preview ball, which collides with nothing.
    pub example: bool,
}

/// The ball that `Ball::default` gives.
pub open spec fn default_ball() -> Ball {
    Ball {
        size: BallSize(1),
        rigid_body: BodyKind::Dynamic,
        collider_radius: start_radius_of(1) as u32,
        vel: Vec3 { x: 0, y: 0, z: 0 },
        translation: Vec3 { x: 0, y: 0, z: 0 },
        scale: Ratio { num: 1, den: 1 },
        mass: 1,
        restitution: DEFAULT_RESTITUTION,
        friction: DEFAULT_FRICTION,
        example: false,
    }
}

/// A resting ball of rank `n` at the origin: its collider has the start
/// radius and is scaled up to the full radius.
pub open spec fn new_ball(n: u8) -> Ball {
    Ball {
        size: BallSize(n),
        collider_radius: start_radius_of(n as nat) as u32,
        scale: Ratio { num: radius_of(n as nat) as u64, den: start_radius_of(n as nat) as u64 },
        mass: mass_of(n as nat) as u32,
        ..default_ball()
    }
}

/// The preview ball of rank `n` at `translation`: kinematic, of mass one,
/// marked as the example.
pub open spec fn example_ball(n: u8, translation: Vec3) -> Ball {
    Ball { rigid_body: BodyKind::Kinematic, mass: 1, example: true, translation, ..new_ball(n) }
}

impl Default for Ball {
    fn default() -> (ball: Self)
        ensures
            ball == default_ball(),
    {
        proof {
            lemma_start_radius_exact(1);
        }
        Self {
            size: BallSize(1),
            rigid_body: BodyKind::Dynamic,
            collider_radius: BallSize(1).start_radius(),
            vel: Vec3 { x: 0, y: 0, z: 0 },
            translation: Vec3 { x: 0, y: 0, z: 0 },
            scale: Ratio { num: 1, den: 1 },
            mass: 1,
            restitution: DEFAULT_RESTITUTION,
            friction: DEFAULT_FRICTION,
            example: false,
        }
    }
}

impl Ball {
    /// A resting ball of rank `size` at the origin.
    pub fn new(size: u8) -> (ball: Self)
        ensures
            ball == new_ball(size),
    {
        proof {
            lemma_start_radius_exact(size as nat);
            assert(mass_of(size as nat) <= 255 * 255 * 10) by (nonlinear_arith)
                requires
                    size <= 255,
            ;
        }
        let rank: u32 = size as u32;
        assert(rank * rank <= 255 * 255) by (nonlinear_arith)
            requires
                rank <= 255,
        ;
        let mut out: Ball = Ball::default();
        out.size = BallSize(size);
        out.collider_radius = BallSize(size).start_radius();
        out.scale = BallSize(size).scale();
        out.mass = rank * rank * 10;
        out
    }

    /// The preview ball of rank `size` at `translation`.
    pub fn example(size: u8, translation: Vec3) -> (ball: Self)
        ensures
            ball == example_ball(size, translation),
    {
        let mut out: Ball = Ball::new(size);
        out.rigid_body = BodyKind::Kinematic;
        out.mass = 1;
        out.example = true;
        out.translation = translation;
        out
    }

    /// The rank whose visuals this ball is drawn with: its own, or the
    /// highest that has any.
    pub fn template_index(size: u8) -> (index: usize)
        ensures
            index == template_index_of(size as nat),
    {
        if size > MAX_SIZE {
            9
        } else {
            size as usize
        }
    }
}

/// A ball as the physics world holds it at the start of a tick.
#[derive(Clone, Copy, Debug, PartialEq, Eq, Structural)]
pub struct LiveBall {
    /// The host's name for the entity.
    pub id: u64,
    pub size: BallSize,
    pub position: Vec3,
    pub velocity: Vec3,
    /// Marks the preview ball.
    pub example: bool,
}

} // verus!
