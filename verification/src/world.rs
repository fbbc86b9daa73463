//! The world: the flock, its force buffer, and the two-phase tick.
//!
//! A tick first computes every agent's steering force against the
//! unmodified flock, storing it in the force buffer, and only then
//! applies the buffered forces.  Every agent's decision therefore sees
//! every other agent's state from the start of the tick, never a
//! partially updated flock.

use vstd::prelude::*;
use crate::vec2::{Vec2, nsq, vadd, bounded, limit_spec, POS_CAP, FORCE_CAP};
use crate::boid::{Boid, boid_wf, compute_force_spec, wrap_spec, heading_segment, FLOCK_CAP};

verus! {

/// Force limit every stock agent is built with: one world unit.
pub const DEFAULT_MAX_FORCE: i64 = 100;

/// Velocity limit every stock agent is built with: six world units.
pub const DEFAULT_MAX_VELOCITY: i64 = 600;

/// Smallest starting speed of a stock agent: one world unit.
pub const MIN_START_SPEED: i64 = 100;

/// Alignment perception radius of a stock agent: fifty world units.
pub const ALIGN_RADIUS: i64 = 5_000;

/// Separation perception radius of a stock agent: fifty world units.
pub const SEPARATION_RADIUS: i64 = 5_000;

/// Cohesion perception radius of a stock agent: one hundred world units.
pub const COHESION_RADIUS: i64 = 10_000;

/// The simulation world: bounds, the ordered flock, and the per-tick
/// force buffer kept in lockstep with the flock.
pub struct World {
    pub width: i64,
    pub height: i64,
    pub flock: Vec<Boid>,
    pub forces: Vec<Vec2>,
}

/// Well-formed world: bounds within the coordinate cap, the force
/// buffer as long as the flock, the flock within the size cap and
/// every agent well-formed.
pub open spec fn world_wf(w: World) -> bool {
    &&& 0 <= w.width <= POS_CAP
    &&& 0 <= w.height <= POS_CAP
    &&& w.flock@.len() == w.forces@.len()
    &&& w.flock@.len() <= FLOCK_CAP as int
    &&& forall|i: int| 0 <= i < w.flock@.len() ==> boid_wf(#[trigger] w.flock@[i])
}

/// A stock agent of `World::new`: default limits and radii, position
/// inside the world, and a starting speed bracketed by the drawn range
/// `[MIN_START_SPEED, DEFAULT_MAX_VELOCITY)` — the precise rescale of
/// the drawn direction keeps the speed within two steps below the
/// draw.
pub open spec fn default_agent(b: Boid, w: int, h: int) -> bool {
    &&& boid_wf(b)
    &&& b.max_force == DEFAULT_MAX_FORCE
    &&& b.max_velocity == DEFAULT_MAX_VELOCITY
    &&& b.align_squared_perception_radius == 25_000_000i64
    &&& b.separation_squared_perception_radius == 25_000_000i64
    &&& b.cohesion_squared_perception_radius == 100_000_000i64
    &&& 0 <= b.position@.0 < w
    &&& 0 <= b.position@.1 < h
    &&& 9_604 <= nsq(b.velocity@) <= 358_801
    &&& b.acceleration@ == (0int, 0int)
}

/// `b1` is `b0` advanced by one tick under force `f` in a `w` by `h`
/// world: position stepped by the old velocity and wrapped, velocity
/// pushed by the force and clamped, parameters untouched.
pub open spec fn is_stepped(b0: Boid, b1: Boid, f: (int, int), w: int, h: int) -> bool {
    &&& b1.position@ == wrap_spec(vadd(b0.position@, b0.velocity@), w, h)
    &&& b1.velocity@ == limit_spec(vadd(b0.velocity@, f), b0.max_velocity as int)
    &&& b1.max_force == b0.max_force
    &&& b1.max_velocity == b0.max_velocity
    &&& b1.acceleration == b0.acceleration
    &&& b1.align_squared_perception_radius == b0.align_squared_perception_radius
    &&& b1.separation_squared_perception_radius == b0.separation_squared_perception_radius
    &&& b1.cohesion_squared_perception_radius == b0.cohesion_squared_perception_radius
}

impl World {
    /// A world of `flock_size` randomized stock agents, with the force
    /// buffer zeroed.
    pub fn new(width: i64, height: i64, flock_size: usize) -> (r: World)
        requires
            1 <= width <= POS_CAP,
            1 <= height <= POS_CAP,
            flock_size <= FLOCK_CAP,
        ensures
            world_wf(r),
            r.width == width,
            r.height == height,
            r.flock@.len() == flock_size,
            r.forces@.len() == flock_size,
            forall|i: int|
                0 <= i < flock_size ==> default_agent(
                    #[trigger] r.flock@[i],
                    width as int,
                    height as int,
                ),
            forall|i: int| 0 <= i < flock_size ==> (#[trigger] r.forces@[i])@ == (0int, 0int),
    {
        let mut flock: Vec<Boid> = Vec::new();
        let mut forces: Vec<Vec2> = Vec::new();
        let mut i: usize = 0;
        while i < flock_size
            invariant
                i <= flock_size,
                flock_size <= FLOCK_CAP,
                1 <= width <= POS_CAP,
                1 <= height <= POS_CAP,
                flock@.len() == i,
                forces@.len() == i,
                forall|k: int|
                    0 <= k < i ==> default_agent(
                        #[trigger] flock@[k],
                        width as int,
                        height as int,
                    ),
                forall|k: int| 0 <= k < i ==> (#[trigger] forces@[k])@ == (0int, 0int),
            decreases flock_size - i,
        {
            let b: Boid = Boid::random(
                MIN_START_SPEED,
                DEFAULT_MAX_VELOCITY,
                width,
                height,
                DEFAULT_MAX_FORCE,
                DEFAULT_MAX_VELOCITY,
                ALIGN_RADIUS,
                SEPARATION_RADIUS,
                COHESION_RADIUS,
            );
            flock.push(b);
            forces.push(Vec2 { x: 0, y: 0 });
            i = i + 1;
        }
        World { width, height, flock, forces }
    }

    /// A world around a given flock, for callers that build their own
    /// agents: bounds as given, force buffer zeroed.
    pub fn from_flock(width: i64, height: i64, flock: Vec<Boid>) -> (r: World)
        requires
            0 <= width <= POS_CAP,
            0 <= height <= POS_CAP,
            flock@.len() <= FLOCK_CAP,
            forall|i: int| 0 <= i < flock@.len() ==> boid_wf(#[trigger] flock@[i]),
        ensures
            world_wf(r),
            r.width == width,
            r.height == height,
            r.flock@ == flock@,
            r.forces@.len() == flock@.len(),
            forall|i: int| 0 <= i < flock@.len() ==> (#[trigger] r.forces@[i])@ == (0int, 0int),
    {
        let n: usize = flock.len();
        let mut forces: Vec<Vec2> = Vec::new();
        let mut i: usize = 0;
        while i < n
            invariant
                i <= n,
                forces@.len() == i,
                forall|k: int| 0 <= k < i ==> (#[trigger] forces@[k])@ == (0int, 0int),
            decreases n - i,
        {
            forces.push(Vec2 { x: 0, y: 0 });
            i = i + 1;
        }
        World { width, height, flock, forces }
    }

    /// One tick, in two strictly separated passes.  The compute pass
    /// fills the force buffer with every agent's steering force against
    /// the flock as it stood when the tick began; the apply pass then
    /// steps and wraps every agent under its buffered force.
    pub fn update(&mut self)
        requires
            world_wf(*old(self)),
        ensures
            world_wf(*final(self)),
            final(self).width == old(self).width,
            final(self).height == old(self).height,
            final(self).flock@.len() == old(self).flock@.len(),
            final(self).forces@.len() == old(self).forces@.len(),
            forall|i: int|
                0 <= i < old(self).flock@.len() ==> (#[trigger] final(self).forces@[i])@
                    == compute_force_spec(old(self).flock@, i),
            forall|i: int|
                0 <= i < old(self).flock@.len() ==> is_stepped(
                    old(self).flock@[i],
                    #[trigger] final(self).flock@[i],
                    compute_force_spec(old(self).flock@, i),
                    old(self).width as int,
                    old(self).height as int,
                ),
    {
        let n: usize = self.flock.len();
        let mut i: usize = 0;
        while i < n
            invariant
                i <= n,
                n == self.flock@.len(),
                n == self.forces@.len(),
                self.flock == old(self).flock,
                self.width == old(self).width,
                self.height == old(self).height,
                world_wf(*old(self)),
                forall|k: int|
                    0 <= k < i ==> (#[trigger] self.forces@[k])@ == compute_force_spec(
                        old(self).flock@,
                        k,
                    ),
                forall|k: int|
                    0 <= k < i ==> bounded((#[trigger] self.forces@[k])@, 2 * (FORCE_CAP as int)),
            decreases n - i,
        {
            let b: Boid = self.flock[i];
            let f: Vec2 = b.compute_force(i, &self.flock);
            self.forces.set(i, f);
            i = i + 1;
        }
        let w: i64 = self.width;
        let h: i64 = self.height;
        let mut j: usize = 0;
        while j < n
            invariant
                j <= n,
                n == self.flock@.len(),
                n == self.forces@.len(),
                n == old(self).flock@.len(),
                w == self.width,
                h == self.height,
                self.width == old(self).width,
                self.height == old(self).height,
                world_wf(*old(self)),
                forall|k: int|
                    0 <= k < n ==> (#[trigger] self.forces@[k])@ == compute_force_spec(
                        old(self).flock@,
                        k,
                    ),
                forall|k: int|
                    0 <= k < n ==> bounded((#[trigger] self.forces@[k])@, 2 * (FORCE_CAP as int)),
                forall|k: int| j <= k < n ==> #[trigger] self.flock@[k] == old(self).flock@[k],
                forall|k: int|
                    0 <= k < j ==> is_stepped(
                        old(self).flock@[k],
                        #[trigger] self.flock@[k],
                        compute_force_spec(old(self).flock@, k),
                        w as int,
                        h as int,
                    ),
                forall|k: int| 0 <= k < j ==> boid_wf(#[trigger] self.flock@[k]),
            decreases n - j,
        {
            let mut b: Boid = self.flock[j];
            let f: Vec2 = self.forces[j];
            proof {
                assert(self.flock@[j as int] == old(self).flock@[j as int]);
                assert(boid_wf(old(self).flock@[j as int]));
            }
            b.update(&f);
            b.edges(w, h);
            self.flock.set(j, b);
            j = j + 1;
        }
    }

    /// The heading segments of the whole flock, in flock order.
    /// Rendering them, and stopping at the first failed draw, sits with
    /// the caller.
    pub fn display(&self) -> (r: Vec<(Vec2, Vec2)>)
        requires
            world_wf(*self),
        ensures
            r@.len() == self.flock@.len(),
            forall|i: int|
                0 <= i < r@.len() ==> (#[trigger] r@[i]).0@ == heading_segment(self.flock@[i]).0
                    && r@[i].1@ == heading_segment(self.flock@[i]).1,
    {
        let n: usize = self.flock.len();
        let mut r: Vec<(Vec2, Vec2)> = Vec::new();
        let mut i: usize = 0;
        while i < n
            invariant
                i <= n,
                n == self.flock@.len(),
                world_wf(*self),
                r@.len() == i,
                forall|k: int|
                    0 <= k < i ==> (#[trigger] r@[k]).0@ == heading_segment(self.flock@[k]).0
                        && r@[k].1@ == heading_segment(self.flock@[k]).1,
            decreases n - i,
        {
            let seg: (Vec2, Vec2) = self.flock[i].display();
            r.push(seg);
            i = i + 1;
        }
        r
    }
}

} // verus!
