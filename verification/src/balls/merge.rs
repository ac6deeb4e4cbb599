//! The merge detector.
//!
//! Every tick it goes through all pairs of live balls in index order. Two
//! balls of the same size that touch merge into one of the next size, and
//! neither takes part in another merge of the same tick.

use vstd::prelude::*;
use vstd::set_lib::{lemma_int_range, set_int_range};
use crate::balls::ball::{
    new_ball, radius_of, start_radius_of, lemma_start_radius_exact, Ball, BallSize, LiveBall,
};
use crate::setup::BoxScaleEvent;
use crate::units::{Ratio, Vec3};

verus! {

/// Slack added to the squared reach of a merge: a tenth of a square unit.
pub const MERGE_SLACK: u64 = 100_000;

/// The rank whose first appearance makes the container grow.
pub const GROWTH_SIZE: u8 = 9;

/// Speed at which a merged ball grows to its full scale, as a multiple of
/// the nominal speed of one second.
pub const MERGE_GROW_SPEED: u32 = 2;

/// Squared distance between two points.
pub open spec fn distance_squared(a: Vec3, b: Vec3) -> int {
    (a.x - b.x) * (a.x - b.x) + (a.y - b.y) * (a.y - b.y) + (a.z - b.z) * (a.z - b.z)
}

/// Squared length of a displacement.
pub open spec fn length_squared(v: Vec3) -> int {
    v.x * v.x + v.y * v.y + v.z * v.z
}

/// Two balls of rank `n` merge when the squared distance of their centres is
/// below this: the square of two radii, and the slack.
pub open spec fn merge_reach(n: nat) -> int {
    4 * radius_of(n) * radius_of(n) + MERGE_SLACK
}

/// Whether two balls are of one size and close enough to merge.
pub open spec fn touching(a: LiveBall, b: LiveBall) -> bool {
    &&& a.size == b.size
    &&& distance_squared(a.position, b.position) < merge_reach(a.size.0 as nat)
}

/// Whether two balls merge when the pass comes to them unmerged: they touch,
/// and neither is the preview.
pub open spec fn mergeable(a: LiveBall, b: LiveBall) -> bool {
    !a.example && !b.example && touching(a, b)
}

/// Of the balls at `i` and `j`, the index of the slower one; of two equally
/// fast ones, `i`.
pub open spec fn slower(balls: Seq<LiveBall>, i: int, j: int) -> int {
    if length_squared(balls[j].velocity) < length_squared(balls[i].velocity) {
        j
    } else {
        i
    }
}

/// The scale at which a ball merged from two of rank `n` starts: nine tenths
/// of the start radius of rank `n` over that of rank `n + 1`, taken of the
/// scale that the ball grows to, which is that of rank `n + 1`.
#[verifier::opaque]
pub open spec fn start_scale_of(n: nat) -> Ratio {
    Ratio {
        num: (start_radius_of(n) * 9 * radius_of(n + 1)) as u64,
        den: (start_radius_of(n + 1) * 10 * start_radius_of(n + 1)) as u64,
    }
}

/// For a rank that has a next one, the start scale is a proper fraction,
/// above nought and below the scale of the next rank, to which the ball
/// grows.
pub proof fn lemma_start_scale(n: nat)
    requires
        n < u8::MAX,
    ensures
        start_scale_of(n).num == start_radius_of(n) * 9 * radius_of(n + 1),
        start_scale_of(n).den == start_radius_of(n + 1) * 10 * start_radius_of(n + 1),
        start_scale_of(n).wf(),
        start_scale_of(n).num > 0,
        start_scale_of(n).num * start_radius_of(n + 1) < radius_of(n + 1) * start_scale_of(n).den,
{
    reveal(start_scale_of);
    lemma_start_radius_exact(n);
    lemma_start_radius_exact(n + 1);
    let from = start_radius_of(n) as int;
    let to = start_radius_of(n + 1) as int;
    let full = radius_of(n + 1) as int;
    assert(0 < from * 9 * full <= 72770 * 9 * 76900) by (nonlinear_arith)
        requires
            0 < from <= 72770,
            0 < full <= 76900,
    ;
    assert(0 < to * 10 * to <= 72770 * 10 * 72770) by (nonlinear_arith)
        requires
            0 < to <= 72770,
    ;
    assert((from * 9 * full) * to < full * (to * 10 * to)) by (nonlinear_arith)
        requires
            0 < from,
            from * 9 < to * 10,
            0 < full,
            0 < to,
    ;
}

/// One merge: the balls at `first` and `second` leave the world, and `ball`
/// enters it where the ball at `source` was, with the orientation of that
/// ball. `ball.scale` is the scale it starts with; it grows to `end_scale`.
#[derive(Clone, Copy, Debug, PartialEq, Eq, Structural)]
pub struct Merge {
    pub first: usize,
    pub second: usize,
    pub source: usize,
    pub ball: Ball,
    pub end_scale: Ratio,
}

/// The merge of the balls at `i` and `j`.
pub open spec fn merge_of(balls: Seq<LiveBall>, i: int, j: int) -> Merge {
    let n = balls[i].size.0;
    let source = slower(balls, i, j);
    let grown = new_ball((n + 1) as u8);
    Merge {
        first: i as usize,
        second: j as usize,
        source: source as usize,
        ball: Ball {
            translation: balls[source].position,
            scale: start_scale_of(n as nat),
            ..grown
        },
        end_scale: grown.scale,
    }
}

/// Whether the ball at `x` takes part in `merge`.
pub open spec fn uses(merge: Merge, x: int) -> bool {
    merge.first == x || merge.second == x
}

/// Whether the ball at `x` takes part in one of `merges`.
pub open spec fn merged(merges: Seq<Merge>, x: int) -> bool {
    exists|k: int| 0 <= k < merges.len() && uses(#[trigger] merges[k], x)
}

/// Whether the pair `(a, b)` comes before the pair `(c, d)` when all pairs
/// are gone through in index order.
pub open spec fn pair_before(a: int, b: int, c: int, d: int) -> bool {
    a < c || (a == c && b < d)
}

/// Whether one of the balls at `i` and `j` takes part in a merge of `merges`
/// made of the pair `(i, j)` or of an earlier pair.
pub open spec fn taken(merges: Seq<Merge>, i: int, j: int) -> bool {
    exists|k: int|
        0 <= k < merges.len() && (uses(#[trigger] merges[k], i) || uses(merges[k], j))
            && !pair_before(i, j, merges[k].first as int, merges[k].second as int)
}

/// Whether each of `merges` merges two balls of `balls` that may merge, the
/// merges come in index order of their pairs, and no ball takes part in two.
pub open spec fn sound_merges(balls: Seq<LiveBall>, merges: Seq<Merge>) -> bool {
    &&& forall|k: int|
        0 <= k < merges.len() ==> {
            &&& (#[trigger] merges[k]).first < merges[k].second < balls.len()
            &&& mergeable(balls[merges[k].first as int], balls[merges[k].second as int])
            &&& merges[k] == merge_of(balls, merges[k].first as int, merges[k].second as int)
        }
    &&& forall|k: int, l: int|
        0 <= k < l < merges.len() ==> pair_before(
            (#[trigger] merges[k]).first as int,
            merges[k].second as int,
            (#[trigger] merges[l]).first as int,
            merges[l].second as int,
        )
    &&& forall|k: int, l: int|
        0 <= k < l < merges.len() ==> !uses(#[trigger] merges[k], merges[l].first as int) && !uses(
            merges[k],
            (#[trigger] merges[l]).second as int,
        )
}

/// Whether `merges` is what one pass over `balls` comes to: the merges are
/// sound, and a pair of balls that may merge is passed over only if one of the two
/// was merged as part of an earlier pair.
pub open spec fn is_merge_pass(balls: Seq<LiveBall>, merges: Seq<Merge>) -> bool {
    &&& sound_merges(balls, merges)
    &&& forall|i: int, j: int|
        0 <= i < j < balls.len() && #[trigger] mergeable(balls[i], balls[j]) ==> taken(merges, i, j)
}

/// Whether every pair of `balls` that may merge has a next rank to merge
/// into: none is of the highest rank that a byte holds.
pub open spec fn ranks_fit(balls: Seq<LiveBall>) -> bool {
    forall|i: int, j: int|
        0 <= i < j < balls.len() && #[trigger] mergeable(balls[i], balls[j]) ==> balls[i].size.0
            < u8::MAX
}

/// Whether one of `merges` brings forth a ball of the rank that makes the
/// container grow.
pub open spec fn reaches_growth(merges: Seq<Merge>) -> bool {
    exists|k: int| 0 <= k < merges.len() && (#[trigger] merges[k]).ball.size.0 == GROWTH_SIZE
}

/// The half-extents the container grows to: 4 by 7 by 6 units.
pub open spec fn grown_box() -> BoxScaleEvent {
    BoxScaleEvent { x: 4000, y: 7000, z: 6000 }
}

/// What one pass of the merge detector comes to.
#[derive(Debug)]
pub struct MergeReport {
    /// The merges, in the order in which they were made.
    pub merges: Vec<Merge>,
    /// The request to resize the container, if the pass calls for one.
    pub scale_event: Option<BoxScaleEvent>,
}

/// The square of the difference of two coordinates.
fn squared_difference(a: i32, b: i32) -> (square: u128)
    ensures
        square == (a - b) * (a - b),
        square <= 0x1_0000_0000_0000_0000,
{
    let d: i128 = a as i128 - b as i128;
    assert(0 <= d * d <= 0x1_0000_0000_0000_0000) by (nonlinear_arith)
        requires
            -0x1_0000_0000 <= d <= 0x1_0000_0000,
    ;
    (d * d) as u128
}

/// Squared distance between two points.
fn distance_squared_exec(a: Vec3, b: Vec3) -> (d: u128)
    ensures
        d == distance_squared(a, b),
{
    squared_difference(a.x, b.x) + squared_difference(a.y, b.y) + squared_difference(a.z, b.z)
}

/// Squared length of a displacement.
fn length_squared_exec(v: Vec3) -> (d: u128)
    ensures
        d == length_squared(v),
{
    squared_difference(v.x, 0) + squared_difference(v.y, 0) + squared_difference(v.z, 0)
}

/// Whether two balls are of one size and close enough to merge.
pub fn is_touching(a: &LiveBall, b: &LiveBall) -> (yes: bool)
    ensures
        yes == touching(*a, *b),
{
    if a.size.0 != b.size.0 {
        return false;
    }
    let radius: u128 = a.size.radius() as u128;
    assert(radius * radius <= 76900 * 76900) by (nonlinear_arith)
        requires
            radius <= 76900,
    ;
    let square: u128 = radius * radius;
    assert(4 * radius * radius == 4 * (radius * radius)) by (nonlinear_arith);
    let reach: u128 = 4 * square + MERGE_SLACK as u128;
    distance_squared_exec(a.position, b.position) < reach
}

/// The merge of the balls at `i` and `j`.
fn make_merge(balls: &Vec<LiveBall>, i: usize, j: usize) -> (merge: Merge)
    requires
        i < j < balls.len(),
        balls[i as int].size.0 < u8::MAX,
    ensures
        merge == merge_of(balls@, i as int, j as int),
{
    let n: u8 = balls[i].size.0;
    let source: usize = if length_squared_exec(balls[j].velocity) < length_squared_exec(
        balls[i].velocity,
    ) {
        j
    } else {
        i
    };
    let grown = Ball::new(n + 1);
    let from: u64 = BallSize(n).start_radius() as u64;
    let to: u64 = BallSize(n + 1).start_radius() as u64;
    let full: u64 = BallSize(n + 1).radius() as u64;
    proof {
        lemma_start_radius_exact(n as nat);
        lemma_start_radius_exact((n + 1) as nat);
        lemma_start_scale(n as nat);
        assert(from * 9 * full <= 72770 * 9 * 76900) by (nonlinear_arith)
            requires
                from <= 72770,
                full <= 76900,
        ;
        assert(to * 10 * to <= 72770 * 10 * 72770) by (nonlinear_arith)
            requires
                to <= 72770,
        ;
    }
    let mut ball = grown;
    ball.translation = balls[source].position;
    ball.scale = Ratio { num: from * 9 * full, den: to * 10 * to };
    Merge { first: i, second: j, source, ball, end_scale: grown.scale }
}

/// Goes through all pairs of `balls` in index order and merges each pair of
/// touching balls of which neither has been merged before in this pass. The
/// preview merges with nothing.
/// Asks for the container to grow if a merge brings forth a ball of the rank
/// that calls for it: once, however many such merges there are.
pub fn merge_check(balls: &Vec<LiveBall>) -> (report: MergeReport)
    requires
        ranks_fit(balls@),
    ensures
        is_merge_pass(balls@, report.merges@),
        report.scale_event == if reaches_growth(report.merges@) {
            Some(grown_box())
        } else {
            None
        },
{
    let n = balls.len();
    let mut merges: Vec<Merge> = Vec::new();
    let mut consumed: Vec<bool> = Vec::new();
    let mut grew = false;
    let mut c: usize = 0;
    while c < n
        invariant
            c <= n,
            consumed@.len() == c,
            forall|x: int| 0 <= x < c ==> !(#[trigger] consumed@[x]),
        decreases n - c,
    {
        consumed.push(false);
        c += 1;
    }
    let mut i: usize = 0;
    while i < n
        invariant
            n == balls.len(),
            i <= n,
            consumed@.len() == n,
            ranks_fit(balls@),
            pass_upto(balls@, merges@, i as int, 0),
            forall|x: int| 0 <= x < n ==> (#[trigger] consumed@[x]) == merged(merges@, x),
            grew == reaches_growth(merges@),
        decreases n - i,
    {
        let mut j: usize = i + 1;
        proof {
            lemma_pass_row_start(balls@, merges@, i as int);
        }
        while j < n
            invariant
                n == balls.len(),
                i < n,
                i < j <= n,
                consumed@.len() == n,
                ranks_fit(balls@),
                pass_upto(balls@, merges@, i as int, j as int),
                forall|x: int| 0 <= x < n ==> (#[trigger] consumed@[x]) == merged(merges@, x),
                grew == reaches_growth(merges@),
            decreases n - j,
        {
            let ghost before = merges@;
            if !consumed[i] && !consumed[j] && !balls[i].example && !balls[j].example && is_touching(
                &balls[i],
                &balls[j],
            ) {
                assert(mergeable(balls@[i as int], balls@[j as int]));
                let merge = make_merge(balls, i, j);
                if merge.ball.size.0 == GROWTH_SIZE {
                    grew = true;
                }
                merges.push(merge);
                consumed.set(i, true);
                consumed.set(j, true);
                proof {
                    lemma_pass_merge(balls@, before, i as int, j as int);
                    assert forall|x: int| 0 <= x < n implies (#[trigger] consumed@[x]) == merged(
                        merges@,
                        x,
                    ) by {
                        lemma_merged_push(before, merge_of(balls@, i as int, j as int), x);
                    }
                    lemma_growth_push(before, merge_of(balls@, i as int, j as int));
                }
            } else {
                proof {
                    lemma_pass_skip(balls@, before, i as int, j as int);
                }
            }
            j += 1;
        }
        proof {
            lemma_pass_row_end(balls@, merges@, i as int);
        }
        i += 1;
    }
    proof {
        lemma_pass_done(balls@, merges@);
    }
    let scale_event = if grew {
        Some(BoxScaleEvent { x: 4000, y: 7000, z: 6000 })
    } else {
        None
    };
    MergeReport { merges, scale_event }
}

/// Whether every pair of `balls` that may merge has a next rank to merge
/// into.
pub fn has_next_ranks(balls: &Vec<LiveBall>) -> (fit: bool)
    ensures
        fit == ranks_fit(balls@),
{
    let n = balls.len();
    let mut i: usize = 0;
    while i < n
        invariant
            n == balls.len(),
            i <= n,
            forall|a: int, b: int|
                0 <= a < i && a < b < n && #[trigger] mergeable(balls@[a], balls@[b])
                    ==> balls@[a].size.0 < u8::MAX,
        decreases n - i,
    {
        if balls[i].size.0 == u8::MAX && !balls[i].example {
            let mut j: usize = i + 1;
            while j < n
                invariant
                    n == balls.len(),
                    i < j <= n,
                    balls@[i as int].size.0 == u8::MAX,
                    !balls@[i as int].example,
                    forall|b: int| i < b < j ==> !mergeable(balls@[i as int], #[trigger] balls@[b]),
                decreases n - j,
            {
                if !balls[j].example && is_touching(&balls[i], &balls[j]) {
                    assert(mergeable(balls@[i as int], balls@[j as int]));
                    return false;
                }
                j += 1;
            }
        }
        i += 1;
    }
    true
}

/// The pass of `merge_check` over `balls`, if every pair that may merge has
/// a next rank to merge into; else nothing.
pub fn try_merge_check(balls: &Vec<LiveBall>) -> (report: Option<MergeReport>)
    ensures
        report is Some <==> ranks_fit(balls@),
        report matches Some(r) ==> {
            &&& is_merge_pass(balls@, r.merges@)
            &&& r.scale_event == if reaches_growth(r.merges@) {
                Some(grown_box())
            } else {
                None
            }
        },
{
    if has_next_ranks(balls) {
        Some(merge_check(balls))
    } else {
        None
    }
}

/// Whether the pair `(a, b)` has been gone through when the pass stands
/// before the pair `(i, j)`.
pub open spec fn pair_done(a: int, b: int, i: int, j: int) -> bool {
    a < i || (a == i && b < j)
}

/// Whether `merges` is what the pass has come to when it stands before the
/// pair `(i, j)`.
pub open spec fn pass_upto(balls: Seq<LiveBall>, merges: Seq<Merge>, i: int, j: int) -> bool {
    &&& sound_merges(balls, merges)
    &&& forall|k: int|
        0 <= k < merges.len() ==> pair_done(
            (#[trigger] merges[k]).first as int,
            merges[k].second as int,
            i,
            j,
        )
    &&& forall|a: int, b: int|
        0 <= a < b < balls.len() && pair_done(a, b, i, j) && #[trigger] mergeable(balls[a], balls[b])
            ==> taken(merges, a, b)
}

/// Standing before row `i` is standing before its first pair.
proof fn lemma_pass_row_start(balls: Seq<LiveBall>, merges: Seq<Merge>, i: int)
    requires
        pass_upto(balls, merges, i, 0),
        0 <= i,
    ensures
        pass_upto(balls, merges, i, i + 1),
{
    assert forall|k: int| 0 <= k < merges.len() implies pair_done(
        (#[trigger] merges[k]).first as int,
        merges[k].second as int,
        i,
        i + 1,
    ) by {
        assert(pair_done(merges[k].first as int, merges[k].second as int, i, 0));
    }
}

/// Standing behind the last pair of row `i` is standing before row `i + 1`.
proof fn lemma_pass_row_end(balls: Seq<LiveBall>, merges: Seq<Merge>, i: int)
    requires
        pass_upto(balls, merges, i, balls.len() as int),
        0 <= i < balls.len(),
    ensures
        pass_upto(balls, merges, i + 1, 0),
{
    assert forall|k: int| 0 <= k < merges.len() implies pair_done(
        (#[trigger] merges[k]).first as int,
        merges[k].second as int,
        i + 1,
        0,
    ) by {
        assert(pair_done(merges[k].first as int, merges[k].second as int, i, balls.len() as int));
    }
    assert forall|a: int, b: int|
        0 <= a < b < balls.len() && pair_done(a, b, i + 1, 0) && #[trigger] mergeable(
            balls[a],
            balls[b],
        ) implies taken(merges, a, b) by {
        assert(pair_done(a, b, i, balls.len() as int));
    }
}

/// A pass that stands behind the last row is done.
proof fn lemma_pass_done(balls: Seq<LiveBall>, merges: Seq<Merge>)
    requires
        pass_upto(balls, merges, balls.len() as int, 0),
    ensures
        is_merge_pass(balls, merges),
{
    assert forall|i: int, j: int|
        0 <= i < j < balls.len() && #[trigger] mergeable(balls[i], balls[j]) implies taken(
        merges,
        i,
        j,
    ) by {
        assert(pair_done(i, j, balls.len() as int, 0));
    }
}

/// A ball takes part in the merges with one more if it took part before or
/// takes part in that one.
proof fn lemma_merged_push(merges: Seq<Merge>, merge: Merge, x: int)
    ensures
        merged(merges.push(merge), x) <==> merged(merges, x) || uses(merge, x),
{
    let all = merges.push(merge);
    if merged(merges, x) {
        let k = choose|k: int| 0 <= k < merges.len() && uses(#[trigger] merges[k], x);
        assert(uses(all[k], x));
    }
    if uses(merge, x) {
        assert(uses(all[merges.len() as int], x));
    }
    if merged(all, x) {
        let k = choose|k: int| 0 <= k < all.len() && uses(#[trigger] all[k], x);
        if k < merges.len() {
            assert(uses(merges[k], x));
        }
    }
}

/// The merges with one more reach the rank of growth if they did before or
/// that one does.
proof fn lemma_growth_push(merges: Seq<Merge>, merge: Merge)
    ensures
        reaches_growth(merges.push(merge)) <==> reaches_growth(merges) || merge.ball.size.0
            == GROWTH_SIZE,
{
    let all = merges.push(merge);
    if reaches_growth(merges) {
        let k = choose|k: int|
            0 <= k < merges.len() && (#[trigger] merges[k]).ball.size.0 == GROWTH_SIZE;
        assert(all[k].ball.size.0 == GROWTH_SIZE);
    }
    if merge.ball.size.0 == GROWTH_SIZE {
        assert(all[merges.len() as int].ball.size.0 == GROWTH_SIZE);
    }
    if reaches_growth(all) {
        let k = choose|k: int| 0 <= k < all.len() && (#[trigger] all[k]).ball.size.0 == GROWTH_SIZE;
        if k < merges.len() {
            assert(merges[k].ball.size.0 == GROWTH_SIZE);
        }
    }
}

/// What was taken stays taken when one more merge is made.
proof fn lemma_taken_push(merges: Seq<Merge>, merge: Merge, a: int, b: int)
    requires
        taken(merges, a, b),
    ensures
        taken(merges.push(merge), a, b),
{
    let all = merges.push(merge);
    let k = choose|k: int|
        0 <= k < merges.len() && (uses(#[trigger] merges[k], a) || uses(merges[k], b))
            && !pair_before(a, b, merges[k].first as int, merges[k].second as int);
    assert(all[k] == merges[k]);
}

/// The pass goes on behind a pair that it merges.
proof fn lemma_pass_merge(balls: Seq<LiveBall>, merges: Seq<Merge>, i: int, j: int)
    requires
        0 <= i < j < balls.len() <= usize::MAX,
        pass_upto(balls, merges, i, j),
        mergeable(balls[i], balls[j]),
        !merged(merges, i),
        !merged(merges, j),
    ensures
        pass_upto(balls, merges.push(merge_of(balls, i, j)), i, j + 1),
{
    let merge = merge_of(balls, i, j);
    let all = merges.push(merge);
    lemma_sound_push(balls, merges, i, j);
    assert forall|k: int| 0 <= k < all.len() implies pair_done(
        (#[trigger] all[k]).first as int,
        all[k].second as int,
        i,
        j + 1,
    ) by {
        if k < merges.len() {
            assert(all[k] == merges[k]);
            assert(pair_done(merges[k].first as int, merges[k].second as int, i, j));
        }
    }
    assert forall|a: int, b: int|
        0 <= a < b < balls.len() && pair_done(a, b, i, j + 1) && #[trigger] mergeable(
            balls[a],
            balls[b],
        ) implies taken(all, a, b) by {
        if pair_done(a, b, i, j) {
            lemma_taken_push(merges, merge, a, b);
        } else {
            assert(a == i && b == j);
            assert(uses(all[merges.len() as int], a));
        }
    }
}

/// Sound merges stay sound with the merge of one more pair of touching
/// balls, if the pair comes behind theirs and neither ball was merged.
proof fn lemma_sound_push(balls: Seq<LiveBall>, merges: Seq<Merge>, i: int, j: int)
    requires
        0 <= i < j < balls.len() <= usize::MAX,
        sound_merges(balls, merges),
        forall|k: int|
            0 <= k < merges.len() ==> pair_done(
                (#[trigger] merges[k]).first as int,
                merges[k].second as int,
                i,
                j,
            ),
        mergeable(balls[i], balls[j]),
        !merged(merges, i),
        !merged(merges, j),
    ensures
        sound_merges(balls, merges.push(merge_of(balls, i, j))),
{
    let merge = merge_of(balls, i, j);
    let all = merges.push(merge);
    assert(merge.first == i && merge.second == j);
    assert forall|k: int| 0 <= k < all.len() implies {
        &&& (#[trigger] all[k]).first < all[k].second < balls.len()
        &&& mergeable(balls[all[k].first as int], balls[all[k].second as int])
        &&& all[k] == merge_of(balls, all[k].first as int, all[k].second as int)
    } by {
        if k < merges.len() {
            assert(all[k] == merges[k]);
        }
    }
    assert forall|k: int, l: int| 0 <= k < l < all.len() implies pair_before(
        (#[trigger] all[k]).first as int,
        all[k].second as int,
        (#[trigger] all[l]).first as int,
        all[l].second as int,
    ) by {
        assert(all[k] == merges[k]);
        if l < merges.len() {
            assert(all[l] == merges[l]);
        } else {
            assert(pair_done(merges[k].first as int, merges[k].second as int, i, j));
        }
    }
    assert forall|k: int, l: int| 0 <= k < l < all.len() implies !uses(
        #[trigger] all[k],
        all[l].first as int,
    ) && !uses(all[k], (#[trigger] all[l]).second as int) by {
        assert(all[k] == merges[k]);
        if l < merges.len() {
            assert(all[l] == merges[l]);
        } else {
            assert(!uses(merges[k], i));
            assert(!uses(merges[k], j));
        }
    }
}

/// The pass goes on behind a pair that it passes over.
proof fn lemma_pass_skip(balls: Seq<LiveBall>, merges: Seq<Merge>, i: int, j: int)
    requires
        0 <= i < j < balls.len(),
        pass_upto(balls, merges, i, j),
        !mergeable(balls[i], balls[j]) || merged(merges, i) || merged(merges, j),
    ensures
        pass_upto(balls, merges, i, j + 1),
{
    assert forall|k: int| 0 <= k < merges.len() implies pair_done(
        (#[trigger] merges[k]).first as int,
        merges[k].second as int,
        i,
        j + 1,
    ) by {
        assert(pair_done(merges[k].first as int, merges[k].second as int, i, j));
    }
    assert forall|a: int, b: int|
        0 <= a < b < balls.len() && pair_done(a, b, i, j + 1) && #[trigger] mergeable(
            balls[a],
            balls[b],
        ) implies taken(merges, a, b) by {
        if !pair_done(a, b, i, j) {
            assert(a == i && b == j);
            if merged(merges, i) {
                let k = choose|k: int| 0 <= k < merges.len() && uses(#[trigger] merges[k], i);
                assert(pair_done(merges[k].first as int, merges[k].second as int, i, j));
            } else {
                let k = choose|k: int| 0 <= k < merges.len() && uses(#[trigger] merges[k], j);
                assert(pair_done(merges[k].first as int, merges[k].second as int, i, j));
            }
        }
    }
}

/// The balls of `balls` that take part in none of `merges`, by index.
pub open spec fn survivors(balls: Seq<LiveBall>, merges: Seq<Merge>) -> Set<int> {
    Set::new(|x: int| 0 <= x < balls.len() && !merged(merges, x))
}

/// The number of balls in the world once `merges` have been carried out:
/// those that took no part, and one new ball for each merge.
pub open spec fn count_after(balls: Seq<LiveBall>, merges: Seq<Merge>) -> nat {
    survivors(balls, merges).len() + merges.len()
}

/// A merge of two balls of rank `n` brings forth one ball of rank `n + 1`,
/// where one of the two was. The ball starts at a scale above nought and
/// below the scale it grows to, which is that of its rank.
pub proof fn lemma_merge_yields_next_size(balls: Seq<LiveBall>, merges: Seq<Merge>, k: int)
    requires
        sound_merges(balls, merges),
        0 <= k < merges.len(),
        balls[merges[k].first as int].size.0 < u8::MAX,
    ensures
        balls[merges[k].first as int].size == balls[merges[k].second as int].size,
        merges[k].ball.size.0 == balls[merges[k].first as int].size.0 + 1,
        merges[k].source == merges[k].first || merges[k].source == merges[k].second,
        merges[k].ball.translation == balls[merges[k].source as int].position,
        merges[k].ball.scale == start_scale_of(balls[merges[k].first as int].size.0 as nat),
        merges[k].end_scale == new_ball(merges[k].ball.size.0).scale,
        merges[k].ball.scale.wf(),
        merges[k].end_scale.wf(),
        merges[k].end_scale.exceeds_one(),
        merges[k].ball.scale.num > 0,
        merges[k].ball.scale.num * merges[k].end_scale.den < merges[k].end_scale.num
            * merges[k].ball.scale.den,
{
    let m = merges[k];
    let n = balls[m.first as int].size.0;
    assert(m == merge_of(balls, m.first as int, m.second as int));
    lemma_start_radius_exact((n + 1) as nat);
    lemma_start_scale(n as nat);
}

/// No ball takes part in two merges of one pass.
pub proof fn lemma_one_merge_per_ball(balls: Seq<LiveBall>, merges: Seq<Merge>, k: int, l: int, x: int)
    requires
        sound_merges(balls, merges),
        0 <= k < merges.len(),
        0 <= l < merges.len(),
        uses(merges[k], x),
        uses(merges[l], x),
    ensures
        k == l,
{
    if k < l {
        assert(!uses(merges[k], merges[l].first as int));
        assert(!uses(merges[k], merges[l].second as int));
    }
    if l < k {
        assert(!uses(merges[l], merges[k].first as int));
        assert(!uses(merges[l], merges[k].second as int));
    }
}

/// A pair of balls that may merge, of which no earlier pair of the pass has
/// used either, is merged.
pub proof fn lemma_free_pair_is_merged(balls: Seq<LiveBall>, merges: Seq<Merge>, i: int, j: int)
    requires
        is_merge_pass(balls, merges),
        0 <= i < j < balls.len(),
        mergeable(balls[i], balls[j]),
        forall|k: int|
            0 <= k < merges.len() && (uses(#[trigger] merges[k], i) || uses(merges[k], j))
                ==> !pair_before(merges[k].first as int, merges[k].second as int, i, j),
    ensures
        exists|k: int|
            0 <= k < merges.len() && (#[trigger] merges[k]).first == i && merges[k].second == j
                && merges[k] == merge_of(balls, i, j),
{
    assert(taken(merges, i, j));
    let k = choose|k: int|
        0 <= k < merges.len() && (uses(#[trigger] merges[k], i) || uses(merges[k], j))
            && !pair_before(i, j, merges[k].first as int, merges[k].second as int);
    assert(merges[k].first == i && merges[k].second == j);
}

/// Each merge takes two balls out of the world and puts one in: the number
/// of balls falls by one per merge.
pub proof fn lemma_merge_count(balls: Seq<LiveBall>, merges: Seq<Merge>)
    requires
        sound_merges(balls, merges),
    ensures
        survivors(balls, merges).finite(),
        survivors(balls, merges).len() + 2 * merges.len() == balls.len(),
        count_after(balls, merges) == balls.len() - merges.len(),
    decreases merges.len(),
{
    if merges.len() == 0 {
        lemma_int_range(0, balls.len() as int);
        assert(survivors(balls, merges) =~= set_int_range(0, balls.len() as int));
    } else {
        let earlier = merges.drop_last();
        let last = merges.last();
        assert(last == merges[merges.len() - 1]);
        assert forall|k: int| 0 <= k < earlier.len() implies earlier[k] == merges[k] by {}
        assert(sound_merges(balls, earlier));
        lemma_merge_count(balls, earlier);
        let before = survivors(balls, earlier);
        let first = last.first as int;
        let second = last.second as int;
        assert(!merged(earlier, first)) by {
            if merged(earlier, first) {
                let k = choose|k: int| 0 <= k < earlier.len() && uses(#[trigger] earlier[k], first);
                assert(!uses(merges[k], merges[merges.len() - 1].first as int));
            }
        }
        assert(!merged(earlier, second)) by {
            if merged(earlier, second) {
                let k = choose|k: int|
                    0 <= k < earlier.len() && uses(#[trigger] earlier[k], second);
                assert(!uses(merges[k], merges[merges.len() - 1].second as int));
            }
        }
        assert(before.contains(first));
        assert(before.contains(second));
        assert(merges == earlier.push(last));
        assert forall|x: int|
            survivors(balls, merges).contains(x) <==> before.remove(first).remove(second).contains(
                x,
            ) by {
            lemma_merged_push(earlier, last, x);
        }
        assert(survivors(balls, merges) =~= before.remove(first).remove(second));
    }
}

/// Two passes over the same balls agree on their first `upto` merges.
proof fn lemma_passes_agree(balls: Seq<LiveBall>, a: Seq<Merge>, b: Seq<Merge>, upto: int)
    requires
        is_merge_pass(balls, a),
        is_merge_pass(balls, b),
        0 <= upto <= a.len(),
    ensures
        upto <= b.len(),
        forall|m: int| 0 <= m < upto ==> a[m] == b[m],
    decreases upto,
{
    if upto > 0 {
        let at = upto - 1;
        lemma_passes_agree(balls, a, b, at);
        let p = a[at];
        assert(mergeable(balls[p.first as int], balls[p.second as int]));
        assert(taken(b, p.first as int, p.second as int));
        let m = choose|m: int|
            0 <= m < b.len() && (uses(#[trigger] b[m], p.first as int) || uses(
                b[m],
                p.second as int,
            )) && !pair_before(p.first as int, p.second as int, b[m].first as int, b[m].second as int);
        if m < at {
            assert(b[m] == a[m]);
            assert(!uses(a[m], a[at].first as int) && !uses(a[m], a[at].second as int));
        }
        let q = b[at];
        if at < m {
            assert(pair_before(
                b[at].first as int,
                b[at].second as int,
                b[m].first as int,
                b[m].second as int,
            ));
        }
        assert(mergeable(balls[q.first as int], balls[q.second as int]));
        assert(taken(a, q.first as int, q.second as int));
        let w = choose|w: int|
            0 <= w < a.len() && (uses(#[trigger] a[w], q.first as int) || uses(
                a[w],
                q.second as int,
            )) && !pair_before(q.first as int, q.second as int, a[w].first as int, a[w].second as int);
        if w < at {
            assert(a[w] == b[w]);
            assert(!uses(b[w], b[at].first as int) && !uses(b[w], b[at].second as int));
        }
        if at < w {
            assert(pair_before(
                a[at].first as int,
                a[at].second as int,
                a[w].first as int,
                a[w].second as int,
            ));
        }
        assert(p.first == q.first && p.second == q.second);
        assert(p == merge_of(balls, p.first as int, p.second as int));
        assert(q == merge_of(balls, q.first as int, q.second as int));
    }
}

/// The balls decide the pass: there is one sequence of merges that a pass
/// over them can come to, and no other.
pub proof fn lemma_merge_pass_unique(balls: Seq<LiveBall>, a: Seq<Merge>, b: Seq<Merge>)
    requires
        is_merge_pass(balls, a),
        is_merge_pass(balls, b),
    ensures
        a == b,
{
    lemma_passes_agree(balls, a, b, a.len() as int);
    lemma_passes_agree(balls, b, a, b.len() as int);
    assert(a =~= b);
}

/// Three balls that all touch one another merge once in a tick: the first
/// two become one, and the third waits for the next tick.
pub proof fn lemma_three_touching_merge_once(balls: Seq<LiveBall>, merges: Seq<Merge>)
    requires
        balls.len() == 3,
        mergeable(balls[0], balls[1]),
        mergeable(balls[0], balls[2]),
        mergeable(balls[1], balls[2]),
        is_merge_pass(balls, merges),
    ensures
        merges.len() == 1,
        merges[0] == merge_of(balls, 0, 1),
        survivors(balls, merges) == set![2int],
{
    assert(taken(merges, 0, 1));
    let k = choose|k: int|
        0 <= k < merges.len() && (uses(#[trigger] merges[k], 0) || uses(merges[k], 1))
            && !pair_before(0, 1, merges[k].first as int, merges[k].second as int);
    assert(merges[k].first == 0 && merges[k].second == 1);
    if k > 0 {
        assert(pair_before(
            merges[0].first as int,
            merges[0].second as int,
            merges[k].first as int,
            merges[k].second as int,
        ));
    }
    if merges.len() > 1 {
        assert(!uses(merges[0], merges[1].first as int) && !uses(merges[0], merges[1].second as int));
        assert(merges[1].first < merges[1].second < 3);
    }
    assert forall|x: int| survivors(balls, merges).contains(x) <==> x == 2 by {
        if x == 0 || x == 1 {
            assert(uses(merges[0], x));
        }
        if x == 2 && merged(merges, 2) {
            let l = choose|l: int| 0 <= l < merges.len() && uses(#[trigger] merges[l], 2);
        }
    }
    assert(survivors(balls, merges) =~= set![2int]);
}

} // verus!
