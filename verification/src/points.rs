//! The score: gained by placing balls, lost when a ball falls out of the
//! world. It is never held at zero: it may go below.

use vstd::prelude::*;
use crate::balls::ball::{BallSize, LiveBall};

verus! {

/// Height below which a ball has left the world: 50 units under the origin.
pub const FLOOR: i32 = -50_000;

/// Points lost per rank of a ball that left the world.
pub const PENALTY_PER_RANK: i32 = 100;

/// The points of the running game.
#[derive(Clone, Copy, Debug, PartialEq, Eq, Structural)]
pub struct GamePoints(pub i32);

/// Points lost for a ball of rank `n` that left the world.
pub open spec fn penalty_of(n: nat) -> int {
    100 * (n as int)
}

/// Whether a ball has left the world.
pub open spec fn is_out_of_bounds(ball: LiveBall) -> bool {
    ball.position.y < FLOOR
}

/// Points lost for all the balls of `balls` that have left the world.
pub open spec fn total_penalty(balls: Seq<LiveBall>) -> int
    decreases balls.len(),
{
    if balls.len() == 0 {
        0
    } else {
        total_penalty(balls.drop_last()) + if is_out_of_bounds(balls.last()) {
            penalty_of(balls.last().size.0 as nat)
        } else {
            0
        }
    }
}

/// Whether `indices` lists, in ascending order, exactly the balls of `balls`
/// that have left the world.
pub open spec fn lists_out_of_bounds(balls: Seq<LiveBall>, indices: Seq<usize>) -> bool {
    &&& forall|k: int|
        0 <= k < indices.len() ==> (#[trigger] indices[k]) < balls.len() && is_out_of_bounds(
            balls[indices[k] as int],
        )
    &&& forall|k: int, l: int| 0 <= k < l < indices.len() ==> indices[k] < indices[l]
    &&& forall|i: int|
        0 <= i < balls.len() && is_out_of_bounds(#[trigger] balls[i]) ==> indices.contains(
            i as usize,
        )
}

/// No ball loses points, and none gains any by falling.
pub proof fn lemma_total_penalty_bounds(balls: Seq<LiveBall>, upto: int)
    requires
        0 <= upto <= balls.len(),
    ensures
        0 <= total_penalty(balls.take(upto)) <= total_penalty(balls),
    decreases balls.len() - upto,
{
    lemma_total_penalty_nonnegative(balls.take(upto));
    if upto < balls.len() {
        assert(balls.take(upto + 1).drop_last() == balls.take(upto));
        lemma_total_penalty_bounds(balls, upto + 1);
    } else {
        assert(balls.take(upto) == balls);
    }
}

/// The total penalty is never negative.
pub proof fn lemma_total_penalty_nonnegative(balls: Seq<LiveBall>)
    ensures
        0 <= total_penalty(balls),
    decreases balls.len(),
{
    if balls.len() > 0 {
        lemma_total_penalty_nonnegative(balls.drop_last());
    }
}

impl GamePoints {
    /// Adds `n` points.
    pub fn award(&mut self, n: i32)
        requires
            i32::MIN <= old(self).0 + n <= i32::MAX,
        ensures
            final(self).0 == old(self).0 + n,
    {
        self.0 = self.0 + n;
    }

    /// Takes the points that a ball of rank `size` costs when it leaves the
    /// world.
    pub fn penalize_out_of_bounds(&mut self, size: BallSize)
        requires
            old(self).0 - penalty_of(size.0 as nat) >= i32::MIN,
        ensures
            final(self).0 == old(self).0 - penalty_of(size.0 as nat),
    {
        self.0 = self.0 - (size.0 as i32) * PENALTY_PER_RANK;
    }
}

/// Finds the balls that have left the world and takes the points they cost.
/// Returns their indices in `balls`, ascending, for the host to remove them.
pub fn ball_out_of_bounds(points: &mut GamePoints, balls: &Vec<LiveBall>) -> (despawned: Vec<usize>)
    requires
        old(points).0 - total_penalty(balls@) >= i32::MIN,
    ensures
        final(points).0 == old(points).0 - total_penalty(balls@),
        lists_out_of_bounds(balls@, despawned@),
{
    let ghost start = points.0;
    let mut despawned: Vec<usize> = Vec::new();
    let mut i: usize = 0;
    while i < balls.len()
        invariant
            i <= balls.len(),
            start - total_penalty(balls@) >= i32::MIN,
            points.0 == start - total_penalty(balls@.take(i as int)),
            forall|k: int|
                0 <= k < despawned@.len() ==> (#[trigger] despawned@[k]) < i && is_out_of_bounds(
                    balls@[despawned@[k] as int],
                ),
            forall|k: int, l: int| 0 <= k < l < despawned@.len() ==> despawned@[k] < despawned@[l],
            forall|j: int|
                0 <= j < i && is_out_of_bounds(#[trigger] balls@[j]) ==> despawned@.contains(
                    j as usize,
                ),
        decreases balls.len() - i,
    {
        proof {
            assert(balls@.take(i + 1).drop_last() == balls@.take(i as int));
            lemma_total_penalty_bounds(balls@, i + 1);
        }
        if balls[i].position.y < FLOOR {
            let ghost before = despawned@;
            despawned.push(i);
            points.penalize_out_of_bounds(balls[i].size);
            proof {
                assert(despawned@[before.len() as int] == i);
                assert forall|j: int|
                    0 <= j < i + 1 && is_out_of_bounds(
                        #[trigger] balls@[j],
                    ) implies despawned@.contains(j as usize) by {
                    if j < i {
                        assert(before.contains(j as usize));
                        let k = choose|k: int| 0 <= k < before.len() && before[k] == j as usize;
                        assert(despawned@[k] == j as usize);
                    }
                }
            }
        }
        i += 1;
    }
    proof {
        assert(balls@.take(balls.len() as int) == balls@);
    }
    despawned
}

/// Points lost for all the balls of `balls` that have left the world.
fn sum_penalties(balls: &Vec<LiveBall>) -> (total: i128)
    ensures
        total == total_penalty(balls@),
        0 <= total <= balls.len() * 25500,
{
    let mut total: i128 = 0;
    let mut i: usize = 0;
    while i < balls.len()
        invariant
            i <= balls.len(),
            total == total_penalty(balls@.take(i as int)),
            0 <= total <= i * 25500,
        decreases balls.len() - i,
    {
        proof {
            assert(balls@.take(i + 1).drop_last() == balls@.take(i as int));
        }
        if balls[i].position.y < FLOOR {
            total = total + (balls[i].size.0 as i128) * 100;
        }
        i += 1;
    }
    proof {
        assert(balls@.take(balls.len() as int) == balls@);
    }
    total
}

/// What `ball_out_of_bounds` does, if the points can hold what the fallen
/// balls cost; else nothing, and the points stay as they are.
pub fn try_ball_out_of_bounds(points: &mut GamePoints, balls: &Vec<LiveBall>) -> (despawned: Option<
    Vec<usize>,
>)
    ensures
        despawned is Some <==> old(points).0 - total_penalty(balls@) >= i32::MIN,
        despawned matches Some(d) ==> final(points).0 == old(points).0 - total_penalty(balls@)
            && lists_out_of_bounds(balls@, d@),
        despawned is None ==> *final(points) == *old(points),
{
    let cost: i128 = sum_penalties(balls);
    if points.0 as i128 - cost >= i32::MIN as i128 {
        Some(ball_out_of_bounds(points, balls))
    } else {
        None
    }
}

} // verus!
