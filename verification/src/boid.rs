//! A single flocking agent and its three steering behaviors.
//!
//! An agent steers by alignment (match the neighbors' average heading),
//! cohesion (seek the neighbors' average position) and separation (flee
//! close neighbors with inverse-square weight).  Neighbors are the other
//! agents within a behavior-specific perception radius and inside a
//! 60-degree forward cone.  Agents are told apart by their index in the
//! flock, never by their state, so two agents with equal state remain
//! distinct.

use vstd::prelude::*;

use crate::vec2::{
    Vec2, MaxLength, nsq, vadd, vsub, bounded, tdiv, vdiv, set_mag_spec, limit_spec, cone_spec,
    div_trunc, lemma_nsq_comp_bound, lemma_tdiv_bound, lemma_div_le_mul, lemma_nsq_nonneg,
    lemma_nsq_sub_symm, lemma_set_mag_lower, SCALE, POS_CAP, DIFF_CAP, VEL_CAP, FORCE_CAP,
};
use crate::rng::rand_i64;

verus! {

/// Largest flock the arithmetic is sized for.
pub const FLOCK_CAP: usize = 10_000;

/// Half-length of the heading segment an agent draws: five world units.
pub const HEADING_HALF: i64 = 500;

/// Fixed-point scale of the separation repulsion weight.  The steering
/// pipeline rescales the averaged weight to `max_velocity`, so the
/// scale is free; a large one keeps the weight's direction fine even
/// for neighbors near the radius edge.
pub const SEP_WEIGHT_SCALE: i64 = 1_000_000_000;

/// Largest squared separation radius a well-formed agent may have:
/// ten thousand world units, squared.  Within it, a neighbor's offset
/// fits in a million steps per coordinate, so the repulsion weight of
/// [`SEP_WEIGHT_SCALE`] keeps at least a thousand steps of magnitude
/// and its direction error stays below a thousandth of a radian.
pub const SEP_RADIUS_SQ_CAP: i64 = 1_000_000_000_000;

/// A flocking agent: kinematic state plus perception and force limits.
/// Perception radii are stored squared, in squared coordinate steps.
/// `acceleration` is a scratch field kept for future extension; the
/// update applies forces directly to the velocity.
#[derive(Clone, Copy, PartialEq, Eq, Structural, Debug)]
pub struct Boid {
    pub max_force: i64,
    pub max_velocity: i64,
    pub position: Vec2,
    pub velocity: Vec2,
    pub acceleration: Vec2,
    pub align_squared_perception_radius: i64,
    pub separation_squared_perception_radius: i64,
    pub cohesion_squared_perception_radius: i64,
}

/// Well-formed agent: limits within the model's caps, the velocity no
/// longer than `max_velocity`, the position within the coordinate cap,
/// and the separation radius within the cap that keeps the repulsion
/// weight's direction fine.
pub open spec fn boid_wf(b: Boid) -> bool {
    &&& 0 <= b.max_force <= FORCE_CAP
    &&& 0 <= b.max_velocity <= VEL_CAP
    &&& nsq(b.velocity@) <= (b.max_velocity as int) * (b.max_velocity as int)
    &&& bounded(b.position@, POS_CAP as int)
    &&& 0 <= b.separation_squared_perception_radius <= SEP_RADIUS_SQ_CAP
}

/// A well-formed agent's velocity fits the velocity cap coordinatewise.
pub proof fn lemma_wf_vel_bounded(b: Boid)
    requires
        boid_wf(b),
    ensures
        bounded(b.velocity@, b.max_velocity as int),
        bounded(b.velocity@, VEL_CAP as int),
{
    lemma_nsq_comp_bound(b.velocity@, b.max_velocity as int);
}

/// `o` is visible to `s` under squared radius `r`: strictly closer than
/// the radius and within the forward cone of `s`'s velocity.
pub open spec fn can_view_spec(s: Boid, o: Boid, r: int) -> bool {
    nsq(vsub(o.position@, s.position@)) < r && cone_spec(s.velocity@, o.velocity@)
}

/// Agent `j` of the flock counts as a neighbor of agent `me`: a
/// different index (identity, not state) and visible.
pub open spec fn sees(boids: Seq<Boid>, me: int, j: int, r: int) -> bool {
    j != me && can_view_spec(boids[me], boids[j], r)
}

/// How many of the first `n` agents agent `me` sees.
pub open spec fn vis_count(boids: Seq<Boid>, me: int, r: int, n: int) -> int
    decreases n,
{
    if n <= 0 {
        0
    } else {
        vis_count(boids, me, r, n - 1) + if sees(boids, me, n - 1, r) {
            1int
        } else {
            0int
        }
    }
}

/// Sum of the velocities of the seen agents among the first `n`.
pub open spec fn vel_sum(boids: Seq<Boid>, me: int, r: int, n: int) -> (int, int)
    decreases n,
{
    if n <= 0 {
        (0, 0)
    } else {
        vadd(
            vel_sum(boids, me, r, n - 1),
            if sees(boids, me, n - 1, r) {
                boids[n - 1].velocity@
            } else {
                (0, 0)
            },
        )
    }
}

/// Sum of the positions of the seen agents among the first `n`.
pub open spec fn pos_sum(boids: Seq<Boid>, me: int, r: int, n: int) -> (int, int)
    decreases n,
{
    if n <= 0 {
        (0, 0)
    } else {
        vadd(
            pos_sum(boids, me, r, n - 1),
            if sees(boids, me, n - 1, r) {
                boids[n - 1].position@
            } else {
                (0, 0)
            },
        )
    }
}

/// The inverse-square repulsion a neighbor exerts: the offset from the
/// neighbor to `s` divided by its own squared length, held at the
/// fixed-point scale [`SEP_WEIGHT_SCALE`].  A neighbor at the exact
/// same position exerts nothing and is not counted.
pub open spec fn sep_weight(s: Boid, o: Boid) -> (int, int) {
    let d = vsub(s.position@, o.position@);
    (
        tdiv(d.0 * (SEP_WEIGHT_SCALE as int), nsq(d)),
        tdiv(d.1 * (SEP_WEIGHT_SCALE as int), nsq(d)),
    )
}

/// Seen agents among the first `n` that do not coincide with `me`.
pub open spec fn sep_count(boids: Seq<Boid>, me: int, r: int, n: int) -> int
    decreases n,
{
    if n <= 0 {
        0
    } else {
        sep_count(boids, me, r, n - 1) + if sees(boids, me, n - 1, r)
            && nsq(vsub(boids[me].position@, boids[n - 1].position@)) != 0 {
            1int
        } else {
            0int
        }
    }
}

/// Sum of the repulsion weights over the seen, non-coincident agents
/// among the first `n`.
pub open spec fn sep_sum(boids: Seq<Boid>, me: int, r: int, n: int) -> (int, int)
    decreases n,
{
    if n <= 0 {
        (0, 0)
    } else {
        vadd(
            sep_sum(boids, me, r, n - 1),
            if sees(boids, me, n - 1, r)
                && nsq(vsub(boids[me].position@, boids[n - 1].position@)) != 0 {
                sep_weight(boids[me], boids[n - 1])
            } else {
                (0, 0)
            },
        )
    }
}

/// The steering-seek pipeline shared by all three behaviors: rescale
/// the desired direction to `max_velocity`, subtract the current
/// velocity, clamp to `max_force`.
pub open spec fn steer_spec(toward: (int, int), vel: (int, int), mv: int, mf: int) -> (int, int) {
    limit_spec(vsub(set_mag_spec(toward, mv), vel), mf)
}

/// Alignment: steer towards the average velocity of the seen agents;
/// zero when none is seen.
pub open spec fn align_spec(boids: Seq<Boid>, me: int) -> (int, int) {
    let b = boids[me];
    let r = b.align_squared_perception_radius as int;
    let n = boids.len() as int;
    let c = vis_count(boids, me, r, n);
    if c > 0 {
        steer_spec(
            vdiv(vel_sum(boids, me, r, n), c),
            b.velocity@,
            b.max_velocity as int,
            b.max_force as int,
        )
    } else {
        (0, 0)
    }
}

/// Cohesion: steer towards the average position of the seen agents;
/// zero when none is seen.
pub open spec fn cohesion_spec(boids: Seq<Boid>, me: int) -> (int, int) {
    let b = boids[me];
    let r = b.cohesion_squared_perception_radius as int;
    let n = boids.len() as int;
    let c = vis_count(boids, me, r, n);
    if c > 0 {
        steer_spec(
            vsub(vdiv(pos_sum(boids, me, r, n), c), b.position@),
            b.velocity@,
            b.max_velocity as int,
            b.max_force as int,
        )
    } else {
        (0, 0)
    }
}

/// Separation: steer along the average inverse-square repulsion of the
/// seen, non-coincident agents; zero when none is counted.
pub open spec fn separation_spec(boids: Seq<Boid>, me: int) -> (int, int) {
    let b = boids[me];
    let r = b.separation_squared_perception_radius as int;
    let n = boids.len() as int;
    let c = sep_count(boids, me, r, n);
    if c > 0 {
        steer_spec(
            vdiv(sep_sum(boids, me, r, n), c),
            b.velocity@,
            b.max_velocity as int,
            b.max_force as int,
        )
    } else {
        (0, 0)
    }
}

/// The composite steering force: the fixed blend
/// `0.8 * align + 0.8 * cohesion + 0.4 * separation`, written over
/// integers as `(4 a + 4 c + 2 s) / 5`, truncated towards zero.
pub open spec fn compute_force_spec(boids: Seq<Boid>, me: int) -> (int, int) {
    let a = align_spec(boids, me);
    let c = cohesion_spec(boids, me);
    let s = separation_spec(boids, me);
    (
        tdiv(4 * a.0 + 4 * c.0 + 2 * s.0, 5),
        tdiv(4 * a.1 + 4 * c.1 + 2 * s.1, 5),
    )
}

/// Hard wrap of one coordinate: beyond the bound resets to zero, below
/// zero resets to the bound.
pub open spec fn wrap1(x: int, w: int) -> int {
    if x > w {
        0
    } else if x < 0 {
        w
    } else {
        x
    }
}

/// Hard wrap of a position into `[0, w] x [0, h]`.
pub open spec fn wrap_spec(p: (int, int), w: int, h: int) -> (int, int) {
    (wrap1(p.0, w), wrap1(p.1, h))
}

/// Common precondition of the per-agent behavior computations: `me`
/// indexes `boids`, `self` is that entry, the flock is within the size
/// cap and every agent is well-formed.
pub open spec fn flock_ctx(b: Boid, boids: Seq<Boid>, me: int) -> bool {
    &&& 0 <= me < boids.len()
    &&& boids[me] == b
    &&& boids.len() <= FLOCK_CAP as int
    &&& forall|j: int| 0 <= j < boids.len() ==> boid_wf(#[trigger] boids[j])
}

/// The two endpoints of the heading segment an agent draws: its
/// position offset by plus and minus [`HEADING_HALF`] steps along its
/// velocity.  An agent at rest draws a point.
pub open spec fn heading_segment(b: Boid) -> ((int, int), (int, int)) {
    let off = set_mag_spec(b.velocity@, HEADING_HALF as int);
    (vadd(b.position@, off), vsub(b.position@, off))
}

/// One coordinate of a repulsion weight stays within
/// `SEP_WEIGHT_SCALE`: the offset coordinate is at most the squared
/// distance in magnitude.
proof fn lemma_sep_weight_comp(x: int, dsq: int)
    requires
        1 <= dsq,
        x * x <= dsq,
    ensures
        -1_000_000_000 <= tdiv(x * 1_000_000_000, dsq) <= 1_000_000_000,
{
    if x == 0 {
        assert(x * 1_000_000_000 == 0);
        lemma_div_le_mul(0, dsq, 0);
    } else if x > 0 {
        assert(x <= dsq) by (nonlinear_arith)
            requires
                1 <= x,
                x * x <= dsq,
        ;
        lemma_div_le_mul(x * 1_000_000_000, dsq, 1_000_000_000);
    } else {
        assert(-x <= dsq) by (nonlinear_arith)
            requires
                x <= -1,
                x * x <= dsq,
        ;
        lemma_div_le_mul((-x) * 1_000_000_000, dsq, 1_000_000_000);
    }
}

/// The steering-seek pipeline over fixed-point vectors.
fn steer_to(toward: &Vec2, vel: &Vec2, mv: i64, mf: i64) -> (r: Vec2)
    requires
        bounded(toward@, DIFF_CAP as int),
        bounded(vel@, VEL_CAP as int),
        0 <= mv <= VEL_CAP,
        0 <= mf <= FORCE_CAP,
    ensures
        r@ == steer_spec(toward@, vel@, mv as int, mf as int),
        nsq(r@) <= (mf as int) * (mf as int),
        bounded(r@, mf as int),
{
    let desired: Vec2 = toward.magnitude(mv);
    let away: Vec2 = desired.sub(vel);
    away.limit(mf)
}

impl Boid {
    /// The default agent: at rest at the origin, with the stock force
    /// and velocity limits and perception radii.
    pub fn new() -> (b: Boid)
        ensures
            b.position@ == (0int, 0int),
            b.velocity@ == (0int, 0int),
            b.acceleration@ == (0int, 0int),
            b.max_force == SCALE,
            b.max_velocity == 4 * SCALE,
            b.align_squared_perception_radius == 25_000_000i64,
            b.separation_squared_perception_radius == 25_000_000i64,
            b.cohesion_squared_perception_radius == 100_000_000i64,
            boid_wf(b),
    {
        Boid {
            position: Vec2 { x: 0, y: 0 },
            velocity: Vec2 { x: 0, y: 0 },
            acceleration: Vec2 { x: 0, y: 0 },
            max_force: SCALE,
            max_velocity: 4 * SCALE,
            align_squared_perception_radius: 25_000_000,
            separation_squared_perception_radius: 25_000_000,
            cohesion_squared_perception_radius: 100_000_000,
        }
    }

    /// A randomized agent: speed drawn from `[min_v, max_v)`, direction
    /// drawn over the plane, position drawn from `[0, width) x [0,
    /// height)`.  The perception radii are given in coordinate steps and
    /// stored squared.
    pub fn random(
        min_v: i64,
        max_v: i64,
        width: i64,
        height: i64,
        max_force: i64,
        max_velocity: i64,
        align_perception_radius: i64,
        separation_perception_radius: i64,
        cohesion_perception_radius: i64,
    ) -> (b: Boid)
        requires
            0 <= min_v < max_v,
            max_v <= max_velocity,
            0 <= max_velocity <= VEL_CAP,
            0 <= max_force <= FORCE_CAP,
            1 <= width <= POS_CAP,
            1 <= height <= POS_CAP,
            0 <= align_perception_radius <= DIFF_CAP,
            0 <= separation_perception_radius <= 1_000_000,
            0 <= cohesion_perception_radius <= DIFF_CAP,
        ensures
            boid_wf(b),
            b.max_force == max_force,
            b.max_velocity == max_velocity,
            b.align_squared_perception_radius as int == (align_perception_radius as int)
                * (align_perception_radius as int),
            b.separation_squared_perception_radius as int == (separation_perception_radius as int)
                * (separation_perception_radius as int),
            b.cohesion_squared_perception_radius as int == (cohesion_perception_radius as int)
                * (cohesion_perception_radius as int),
            0 <= b.position@.0 < width as int,
            0 <= b.position@.1 < height as int,
            nsq(b.velocity@) <= (max_v as int - 1) * (max_v as int - 1),
            2 <= min_v ==> nsq(b.velocity@) >= (min_v as int - 2) * (min_v as int - 2),
            exists|speed: int, dir: (int, int)|
                min_v as int <= speed < max_v as int && !(dir.0 == 0 && dir.1 == 0) && bounded(
                    dir,
                    1000,
                ) && b.velocity@ == #[trigger] set_mag_spec(dir, speed),
            b.acceleration@ == (0int, 0int),
    {
        let speed: i64 = rand_i64(min_v, max_v);
        let dx: i64 = rand_i64(-1000, 1001);
        let dy: i64 = rand_i64(-1000, 1001);
        let dir: Vec2 = if dx == 0 && dy == 0 {
            Vec2 { x: 1, y: 0 }
        } else {
            Vec2 { x: dx, y: dy }
        };
        let velocity: Vec2 = dir.magnitude(speed);
        proof {
            assert((speed as int) * (speed as int) <= (max_velocity as int) * (max_velocity as int)
                && (speed as int) * (speed as int) <= (max_v as int - 1) * (max_v as int - 1))
                by (nonlinear_arith)
                requires
                    0 <= speed as int,
                    speed as int <= max_v as int - 1,
                    max_v as int <= max_velocity as int,
            ;
            lemma_set_mag_lower(dir@, speed as int);
            if 2 <= min_v {
                assert((min_v as int - 2) * (min_v as int - 2) <= (speed as int - 2) * (
                speed as int - 2)) by (nonlinear_arith)
                    requires
                        2 <= min_v as int,
                        min_v as int <= speed as int,
                ;
            }
            assert(min_v as int <= speed as int && (speed as int) < max_v as int && !(dir@.0 == 0
                && dir@.1 == 0) && bounded(dir@, 1000) && velocity@ == set_mag_spec(
                dir@,
                speed as int,
            ));
            assert(0 <= (align_perception_radius as int) * (align_perception_radius as int)
                <= 4_000_000_000_000_000_000int
                && 0 <= (separation_perception_radius as int)
                    * (separation_perception_radius as int) <= 1_000_000_000_000int
                && 0 <= (cohesion_perception_radius as int) * (cohesion_perception_radius as int)
                    <= 4_000_000_000_000_000_000int) by (nonlinear_arith)
                requires
                    0 <= align_perception_radius as int <= 2_000_000_000,
                    0 <= separation_perception_radius as int <= 1_000_000,
                    0 <= cohesion_perception_radius as int <= 2_000_000_000,
            ;
        }
        let px: i64 = rand_i64(0, width);
        let py: i64 = rand_i64(0, height);
        Boid {
            position: Vec2 { x: px, y: py },
            velocity,
            acceleration: Vec2 { x: 0, y: 0 },
            max_force,
            max_velocity,
            align_squared_perception_radius: align_perception_radius * align_perception_radius,
            separation_squared_perception_radius: separation_perception_radius
                * separation_perception_radius,
            cohesion_squared_perception_radius: cohesion_perception_radius
                * cohesion_perception_radius,
        }
    }

    /// Whether `other` is visible to this agent under the given squared
    /// perception radius: strictly within the radius and inside the
    /// forward cone.  The caller excludes the agent itself by index.
    pub fn can_view(&self, other: &Boid, perception: i64) -> (r: bool)
        requires
            boid_wf(*self),
            boid_wf(*other),
        ensures
            r == can_view_spec(*self, *other, perception as int),
    {
        let diff: Vec2 = other.position.sub(&self.position);
        let dsq: i64 = diff.norm_sq();
        proof {
            lemma_wf_vel_bounded(*self);
            lemma_wf_vel_bounded(*other);
        }
        dsq < perception && self.velocity.angle_within(&other.velocity)
    }

    /// Alignment steering against the flock.  Returns the zero vector
    /// exactly when no other agent is seen within the alignment radius.
    pub fn align(&self, me: usize, boids: &Vec<Boid>) -> (r: Vec2)
        requires
            flock_ctx(*self, boids@, me as int),
        ensures
            r@ == align_spec(boids@, me as int),
            nsq(r@) <= (self.max_force as int) * (self.max_force as int),
            bounded(r@, self.max_force as int),
    {
        let n: usize = boids.len();
        let rad: i64 = self.align_squared_perception_radius;
        let mut sum: Vec2 = Vec2 { x: 0, y: 0 };
        let mut count: i64 = 0;
        let mut i: usize = 0;
        while i < n
            invariant
                i <= n,
                n == boids@.len(),
                n <= FLOCK_CAP,
                me < n,
                boids@[me as int] == *self,
                rad == self.align_squared_perception_radius,
                forall|j: int| 0 <= j < boids@.len() ==> boid_wf(#[trigger] boids@[j]),
                count == vis_count(boids@, me as int, rad as int, i as int),
                sum@ == vel_sum(boids@, me as int, rad as int, i as int),
                0 <= count <= i,
                bounded(sum@, count * (VEL_CAP as int)),
            decreases n - i,
        {
            if i != me {
                let other: &Boid = &boids[i];
                if self.can_view(other, rad) {
                    proof {
                        lemma_wf_vel_bounded(boids@[i as int]);
                    }
                    sum = sum.add(&other.velocity);
                    count = count + 1;
                }
            }
            i = i + 1;
        }
        if count > 0 {
            proof {
                lemma_tdiv_bound(sum@.0, count as int, VEL_CAP as int);
                lemma_tdiv_bound(sum@.1, count as int, VEL_CAP as int);
                lemma_wf_vel_bounded(*self);
            }
            let avg: Vec2 = Vec2 { x: div_trunc(sum.x, count), y: div_trunc(sum.y, count) };
            steer_to(&avg, &self.velocity, self.max_velocity, self.max_force)
        } else {
            proof {
                assert(0 <= (self.max_force as int) * (self.max_force as int))
                    by (nonlinear_arith)
                ;
            }
            Vec2 { x: 0, y: 0 }
        }
    }

    /// Cohesion steering against the flock.  Returns the zero vector
    /// exactly when no other agent is seen within the cohesion radius.
    pub fn cohesion(&self, me: usize, boids: &Vec<Boid>) -> (r: Vec2)
        requires
            flock_ctx(*self, boids@, me as int),
        ensures
            r@ == cohesion_spec(boids@, me as int),
            nsq(r@) <= (self.max_force as int) * (self.max_force as int),
            bounded(r@, self.max_force as int),
    {
        let n: usize = boids.len();
        let rad: i64 = self.cohesion_squared_perception_radius;
        let mut sum: Vec2 = Vec2 { x: 0, y: 0 };
        let mut count: i64 = 0;
        let mut i: usize = 0;
        while i < n
            invariant
                i <= n,
                n == boids@.len(),
                n <= FLOCK_CAP,
                me < n,
                boids@[me as int] == *self,
                rad == self.cohesion_squared_perception_radius,
                forall|j: int| 0 <= j < boids@.len() ==> boid_wf(#[trigger] boids@[j]),
                count == vis_count(boids@, me as int, rad as int, i as int),
                sum@ == pos_sum(boids@, me as int, rad as int, i as int),
                0 <= count <= i,
                bounded(sum@, count * (POS_CAP as int)),
            decreases n - i,
        {
            if i != me {
                let other: &Boid = &boids[i];
                if self.can_view(other, rad) {
                    sum = sum.add(&other.position);
                    count = count + 1;
                }
            }
            i = i + 1;
        }
        if count > 0 {
            proof {
                lemma_tdiv_bound(sum@.0, count as int, POS_CAP as int);
                lemma_tdiv_bound(sum@.1, count as int, POS_CAP as int);
                lemma_wf_vel_bounded(*self);
            }
            let avg: Vec2 = Vec2 { x: div_trunc(sum.x, count), y: div_trunc(sum.y, count) };
            let toward: Vec2 = avg.sub(&self.position);
            steer_to(&toward, &self.velocity, self.max_velocity, self.max_force)
        } else {
            proof {
                assert(0 <= (self.max_force as int) * (self.max_force as int))
                    by (nonlinear_arith)
                ;
            }
            Vec2 { x: 0, y: 0 }
        }
    }

    /// Separation steering against the flock.  Returns the zero vector
    /// exactly when no other, non-coincident agent is seen within the
    /// separation radius.  An agent at exactly this agent's position is
    /// skipped: the inverse-square weight has no value there.
    pub fn separation(&self, me: usize, boids: &Vec<Boid>) -> (r: Vec2)
        requires
            flock_ctx(*self, boids@, me as int),
        ensures
            r@ == separation_spec(boids@, me as int),
            nsq(r@) <= (self.max_force as int) * (self.max_force as int),
            bounded(r@, self.max_force as int),
    {
        let n: usize = boids.len();
        let rad: i64 = self.separation_squared_perception_radius;
        let mut sum: Vec2 = Vec2 { x: 0, y: 0 };
        let mut count: i64 = 0;
        let mut i: usize = 0;
        while i < n
            invariant
                i <= n,
                n == boids@.len(),
                n <= FLOCK_CAP,
                me < n,
                boids@[me as int] == *self,
                rad == self.separation_squared_perception_radius,
                forall|j: int| 0 <= j < boids@.len() ==> boid_wf(#[trigger] boids@[j]),
                count == sep_count(boids@, me as int, rad as int, i as int),
                sum@ == sep_sum(boids@, me as int, rad as int, i as int),
                0 <= count <= i,
                bounded(sum@, count * 1_000_000_000),
            decreases n - i,
        {
            if i != me {
                let other: &Boid = &boids[i];
                if self.can_view(other, rad) {
                    let d: Vec2 = self.position.sub(&other.position);
                    let dsq: i64 = d.norm_sq();
                    proof {
                        lemma_nsq_nonneg(d@);
                        lemma_nsq_sub_symm(self.position@, other.position@);
                    }
                    if dsq != 0 {
                        proof {
                            assert(boid_wf(*self));
                            assert(d@.0 * d@.0 <= dsq as int && d@.1 * d@.1 <= dsq as int)
                                by (nonlinear_arith)
                                requires
                                    dsq as int == d@.0 * d@.0 + d@.1 * d@.1,
                            ;
                            assert(-1_000_000 <= d@.0 <= 1_000_000
                                && -1_000_000 <= d@.1 <= 1_000_000) by (nonlinear_arith)
                                requires
                                    d@.0 * d@.0 <= 1_000_000_000_000,
                                    d@.1 * d@.1 <= 1_000_000_000_000,
                            ;
                            lemma_sep_weight_comp(d@.0, dsq as int);
                            lemma_sep_weight_comp(d@.1, dsq as int);
                        }
                        let w: Vec2 = Vec2 {
                            x: div_trunc(d.x * SEP_WEIGHT_SCALE, dsq),
                            y: div_trunc(d.y * SEP_WEIGHT_SCALE, dsq),
                        };
                        sum = sum.add(&w);
                        count = count + 1;
                    }
                }
            }
            i = i + 1;
        }
        if count > 0 {
            proof {
                lemma_tdiv_bound(sum@.0, count as int, 1_000_000_000);
                lemma_tdiv_bound(sum@.1, count as int, 1_000_000_000);
                lemma_wf_vel_bounded(*self);
            }
            let avg: Vec2 = Vec2 { x: div_trunc(sum.x, count), y: div_trunc(sum.y, count) };
            steer_to(&avg, &self.velocity, self.max_velocity, self.max_force)
        } else {
            proof {
                assert(0 <= (self.max_force as int) * (self.max_force as int))
                    by (nonlinear_arith)
                ;
            }
            Vec2 { x: 0, y: 0 }
        }
    }

    /// The composite steering force of this agent against the flock:
    /// the fixed `0.8 / 0.8 / 0.4` blend of the three behaviors.
    pub fn compute_force(&self, me: usize, boids: &Vec<Boid>) -> (r: Vec2)
        requires
            flock_ctx(*self, boids@, me as int),
        ensures
            r@ == compute_force_spec(boids@, me as int),
            bounded(r@, 2 * (self.max_force as int)),
    {
        let align_force: Vec2 = self.align(me, boids);
        let cohesion_force: Vec2 = self.cohesion(me, boids);
        let separation_force: Vec2 = self.separation(me, boids);
        let sx: i64 = 4 * align_force.x + 4 * cohesion_force.x + 2 * separation_force.x;
        let sy: i64 = 4 * align_force.y + 4 * cohesion_force.y + 2 * separation_force.y;
        proof {
            lemma_tdiv_bound(sx as int, 5, 2 * (self.max_force as int));
            lemma_tdiv_bound(sy as int, 5, 2 * (self.max_force as int));
        }
        Vec2 { x: div_trunc(sx, 5), y: div_trunc(sy, 5) }
    }

    /// One Euler step: the position advances by the current velocity,
    /// then the force is added to the velocity, which is clamped back
    /// to `max_velocity`.
    pub fn update(&mut self, force: &Vec2)
        requires
            boid_wf(*old(self)),
            bounded(force@, 2 * (FORCE_CAP as int)),
        ensures
            final(self).position@ == vadd(old(self).position@, old(self).velocity@),
            final(self).velocity@ == limit_spec(
                vadd(old(self).velocity@, force@),
                old(self).max_velocity as int,
            ),
            nsq(final(self).velocity@) <= (old(self).max_velocity as int)
                * (old(self).max_velocity as int),
            final(self).max_force == old(self).max_force,
            final(self).max_velocity == old(self).max_velocity,
            final(self).acceleration == old(self).acceleration,
            final(self).align_squared_perception_radius == old(
                self,
            ).align_squared_perception_radius,
            final(self).separation_squared_perception_radius == old(
                self,
            ).separation_squared_perception_radius,
            final(self).cohesion_squared_perception_radius == old(
                self,
            ).cohesion_squared_perception_radius,
            bounded(final(self).position@, POS_CAP as int + VEL_CAP as int),
    {
        proof {
            lemma_wf_vel_bounded(*self);
        }
        self.position = self.position.add(&self.velocity);
        let pushed: Vec2 = self.velocity.add(force);
        self.velocity = pushed.limit(self.max_velocity);
    }

    /// Hard boundary wrap: a coordinate beyond its bound resets to
    /// zero, a negative one resets to the bound.  Leaves the position
    /// inside `[0, width] x [0, height]`.
    pub fn edges(&mut self, width: i64, height: i64)
        requires
            0 <= width <= POS_CAP,
            0 <= height <= POS_CAP,
        ensures
            final(self).position@ == wrap_spec(old(self).position@, width as int, height as int),
            0 <= final(self).position@.0 <= width as int,
            0 <= final(self).position@.1 <= height as int,
            final(self).velocity == old(self).velocity,
            final(self).max_force == old(self).max_force,
            final(self).max_velocity == old(self).max_velocity,
            final(self).acceleration == old(self).acceleration,
            final(self).align_squared_perception_radius == old(
                self,
            ).align_squared_perception_radius,
            final(self).separation_squared_perception_radius == old(
                self,
            ).separation_squared_perception_radius,
            final(self).cohesion_squared_perception_radius == old(
                self,
            ).cohesion_squared_perception_radius,
    {
        if self.position.x > width {
            self.position.x = 0;
        }
        if self.position.x < 0 {
            self.position.x = width;
        }
        if self.position.y > height {
            self.position.y = 0;
        }
        if self.position.y < 0 {
            self.position.y = height;
        }
    }

    /// The heading segment this agent draws: its position offset both
    /// ways along its velocity.  Rendering itself sits with the caller.
    pub fn display(&self) -> (r: (Vec2, Vec2))
        requires
            boid_wf(*self),
        ensures
            r.0@ == heading_segment(*self).0,
            r.1@ == heading_segment(*self).1,
    {
        proof {
            lemma_wf_vel_bounded(*self);
        }
        let off: Vec2 = self.velocity.magnitude(HEADING_HALF);
        (self.position.add(&off), self.position.sub(&off))
    }
}

} // verus!
