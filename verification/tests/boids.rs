//! Behavior tests for the flocking library.  All coordinates are in
//! fixed-point steps: 100 steps per world unit.

use boids::boid::Boid;
use boids::vec2::{MaxLength, Vec2};
use boids::world::World;

/// A stock agent, as `World::new` would build one, at a chosen position
/// and velocity.
fn agent(px: i64, py: i64, vx: i64, vy: i64) -> Boid {
    Boid {
        max_force: 100,
        max_velocity: 600,
        position: Vec2 { x: px, y: py },
        velocity: Vec2 { x: vx, y: vy },
        acceleration: Vec2 { x: 0, y: 0 },
        align_squared_perception_radius: 25_000_000,
        separation_squared_perception_radius: 25_000_000,
        cohesion_squared_perception_radius: 100_000_000,
    }
}

/// A stock agent whose cohesion and separation are switched off, to
/// observe alignment alone.
fn align_only_agent(px: i64, py: i64, vx: i64, vy: i64) -> Boid {
    let mut b = agent(px, py, vx, vy);
    b.separation_squared_perception_radius = 0;
    b.cohesion_squared_perception_radius = 0;
    b
}

#[test]
fn magnitude_rescales_exactly() {
    let v = Vec2 { x: 300, y: 400 };
    assert_eq!(v.magnitude(100), Vec2 { x: 60, y: 80 });
}

#[test]
fn magnitude_is_precise_on_short_vectors() {
    // the diagonal unit step rescales to within two steps of the target
    let v = Vec2 { x: 1, y: 1 };
    let r = v.magnitude(400);
    assert_eq!(r, Vec2 { x: 282, y: 282 });
    let n = r.x * r.x + r.y * r.y;
    assert!(n >= 398 * 398);
    assert!(n <= 400 * 400);
}

#[test]
fn magnitude_keeps_zero_vector() {
    let v = Vec2 { x: 0, y: 0 };
    assert_eq!(v.magnitude(600), Vec2 { x: 0, y: 0 });
}

#[test]
fn magnitude_keeps_sign() {
    let v = Vec2 { x: -300, y: 400 };
    assert_eq!(v.magnitude(100), Vec2 { x: -60, y: 80 });
}

#[test]
fn limit_passes_short_vector() {
    let v = Vec2 { x: 30, y: 40 };
    assert_eq!(v.limit(100), Vec2 { x: 30, y: 40 });
}

#[test]
fn limit_clamps_long_vector() {
    let v = Vec2 { x: 300, y: 400 };
    let r = v.limit(100);
    assert_eq!(r, Vec2 { x: 60, y: 80 });
    assert!(r.x * r.x + r.y * r.y <= 100 * 100);
}

#[test]
fn can_view_within_radius_and_cone() {
    let a = agent(0, 0, 100, 0);
    let b = agent(4000, 0, 100, 0);
    assert!(a.can_view(&b, a.align_squared_perception_radius));
}

#[test]
fn can_view_rejects_radius_boundary() {
    let a = agent(0, 0, 100, 0);
    let b = agent(5000, 0, 100, 0);
    // squared distance equals the squared radius: not strictly inside
    assert!(!a.can_view(&b, a.align_squared_perception_radius));
}

#[test]
fn can_view_rejects_neighbor_behind() {
    let a = agent(0, 0, 100, 0);
    let b = agent(1000, 0, -100, 0);
    assert!(!a.can_view(&b, a.align_squared_perception_radius));
}

#[test]
fn can_view_cone_edge() {
    let a = agent(0, 0, 100, 0);
    // just under 60 degrees: visible
    let near = agent(1000, 0, 50, 86);
    assert!(a.can_view(&near, a.align_squared_perception_radius));
    // just over 60 degrees: not visible
    let far = agent(1000, 0, 50, 87);
    assert!(!a.can_view(&far, a.align_squared_perception_radius));
}

#[test]
fn can_view_needs_own_heading() {
    let a = agent(0, 0, 0, 0);
    let b = agent(1000, 0, 100, 0);
    assert!(!a.can_view(&b, a.align_squared_perception_radius));
}

#[test]
fn isolated_agent_zero_behaviors() {
    let a = agent(1000, 2000, 300, 0);
    let flock = vec![a];
    let zero = Vec2 { x: 0, y: 0 };
    assert_eq!(a.align(0, &flock), zero);
    assert_eq!(a.cohesion(0, &flock), zero);
    assert_eq!(a.separation(0, &flock), zero);
    assert_eq!(a.compute_force(0, &flock), zero);
}

#[test]
fn isolated_agent_moves_straight() {
    let a = agent(1000, 2000, 300, 0);
    let mut w = World::from_flock(100_000, 100_000, vec![a]);
    w.update();
    assert_eq!(w.flock[0].position, Vec2 { x: 1300, y: 2000 });
    assert_eq!(w.flock[0].velocity, Vec2 { x: 300, y: 0 });
    w.update();
    assert_eq!(w.flock[0].position, Vec2 { x: 1600, y: 2000 });
    assert_eq!(w.flock[0].velocity, Vec2 { x: 300, y: 0 });
}

#[test]
fn out_of_range_agents_do_not_interact() {
    let a = agent(0, 0, 100, 0);
    let b = agent(90_000, 0, 100, 0);
    let flock = vec![a, b];
    let zero = Vec2 { x: 0, y: 0 };
    assert_eq!(a.compute_force(0, &flock), zero);
    assert_eq!(b.compute_force(1, &flock), zero);
}

#[test]
fn edges_wraps_all_four_sides() {
    let mut b = agent(10_100, 50, 0, 0);
    b.edges(10_000, 10_000);
    assert_eq!(b.position, Vec2 { x: 0, y: 50 });

    let mut b = agent(-100, 50, 0, 0);
    b.edges(10_000, 10_000);
    assert_eq!(b.position, Vec2 { x: 10_000, y: 50 });

    let mut b = agent(50, 10_100, 0, 0);
    b.edges(10_000, 10_000);
    assert_eq!(b.position, Vec2 { x: 50, y: 0 });

    let mut b = agent(50, -100, 0, 0);
    b.edges(10_000, 10_000);
    assert_eq!(b.position, Vec2 { x: 50, y: 10_000 });
}

#[test]
fn edges_keeps_position_on_boundary() {
    let mut b = agent(10_000, 0, 0, 0);
    b.edges(10_000, 10_000);
    assert_eq!(b.position, Vec2 { x: 10_000, y: 0 });
}

#[test]
fn update_wraps_after_integration() {
    // crosses the right edge during this very tick
    let a = agent(9_990, 5_000, 300, 0);
    let mut w = World::from_flock(10_000, 10_000, vec![a]);
    w.update();
    assert_eq!(w.flock[0].position, Vec2 { x: 0, y: 5_000 });
}

#[test]
fn velocity_clamped_after_update() {
    let mut b = agent(0, 0, 500, 0);
    b.update(&Vec2 { x: 300, y: 0 });
    assert_eq!(b.velocity, Vec2 { x: 600, y: 0 });
    assert_eq!(b.position, Vec2 { x: 500, y: 0 });
    let n = b.velocity.x * b.velocity.x + b.velocity.y * b.velocity.y;
    assert!(n <= 600 * 600);
}

#[test]
fn two_phase_forces_use_tick_start_state() {
    let a = agent(0, 0, 100, 0);
    let b = agent(4_900, 0, 300, 10);
    let flock = vec![a, b];
    // the forces owed to the tick-start states
    let fa = a.compute_force(0, &flock);
    let fb = b.compute_force(1, &flock);
    // align (99, 3), cohesion (100, 0), separation (-100, 0), blended
    // (4 a + 4 c + 2 s) / 5
    assert_eq!(fa, Vec2 { x: 119, y: 2 });

    // if b were stepped first, a would compute a different force:
    // b leaves a's perception radius
    let mut b_moved = b;
    b_moved.update(&fb);
    b_moved.edges(100_000, 100_000);
    let fa_after = a.compute_force(0, &vec![a, b_moved]);
    assert_ne!(fa, fa_after);

    let mut w = World::from_flock(100_000, 100_000, vec![a, b]);
    w.update();
    // the buffer holds the tick-start forces ...
    assert_eq!(w.forces[0], fa);
    assert_eq!(w.forces[1], fb);
    // ... and the agents were stepped under exactly those forces
    let expected_va = a.velocity.add(&fa).limit(600);
    let expected_vb = b.velocity.add(&fb).limit(600);
    assert_eq!(w.flock[0].velocity, expected_va);
    assert_eq!(w.flock[1].velocity, expected_vb);
}

#[test]
fn alignment_turns_agents_towards_each_other() {
    let a = align_only_agent(0, 0, 100, 10);
    let b = align_only_agent(1_000, 100, 100, -10);

    // alignment steering of a towards b's heading, computed exactly
    let flock = vec![a, b];
    assert_eq!(a.align(0, &flock), Vec2 { x: 99, y: -13 });
    assert_eq!(b.align(1, &flock), Vec2 { x: 99, y: 13 });

    let mut w = World::from_flock(100_000, 100_000, vec![a, b]);
    w.update();
    // both headings bend towards the common direction
    assert_eq!(w.flock[0].velocity, Vec2 { x: 179, y: 0 });
    assert_eq!(w.flock[1].velocity, Vec2 { x: 179, y: 0 });
}

#[test]
fn align_force_within_max_force() {
    let a = align_only_agent(0, 0, 100, 10);
    let b = align_only_agent(1_000, 100, 100, -10);
    let flock = vec![a, b];
    let f = a.align(0, &flock);
    assert!(f.x * f.x + f.y * f.y <= 100 * 100);
}

#[test]
fn separation_points_away_at_all_distances() {
    // 1, 10 and 40 world units apart: each within the separation radius
    for d in [100i64, 1_000, 4_000] {
        let a = agent(0, 0, 100, 0);
        let b = agent(d, 0, 100, 0);
        let flock = vec![a, b];
        let f = a.separation(0, &flock);
        // away from b, which sits in the +x direction
        assert!(f.x < 0, "distance {d}");
        assert_eq!(f, Vec2 { x: -100, y: 0 }, "distance {d}");
    }
}

#[test]
fn separation_points_away_off_axis() {
    // the offset (100, 1000) is far from either axis; the finely scaled
    // repulsion weight keeps its direction, so the force leaves the
    // half-plane of the neighbor even for a fast agent
    let a = agent(5_000, 5_000, 20, 399);
    let b = agent(4_900, 4_000, 20, 399);
    let flock = vec![a, b];
    let f = a.separation(0, &flock);
    assert_eq!(f, Vec2 { x: 19, y: 98 });
    // away-direction is a.position - b.position = (100, 1000)
    assert!(f.x * 100 + f.y * 1000 > 0);
}

#[test]
fn separation_skips_coincident_neighbor() {
    let a = agent(500, 500, 100, 0);
    let b = agent(500, 500, 100, 0);
    let flock = vec![a, b];
    assert_eq!(a.separation(0, &flock), Vec2 { x: 0, y: 0 });
}

#[test]
fn cohesion_seeks_average_position() {
    // b sits ahead of a, inside the cohesion radius only
    let mut a = agent(0, 0, 100, 0);
    a.align_squared_perception_radius = 0;
    a.separation_squared_perception_radius = 0;
    let b = agent(8_000, 0, 100, 0);
    let flock = vec![a, b];
    let f = a.cohesion(0, &flock);
    // target is b's position: steer (600, 0) - (100, 0), clamped to 100
    assert_eq!(f, Vec2 { x: 100, y: 0 });
}

#[test]
fn default_agent_fields() {
    let b = Boid::new();
    assert_eq!(b.position, Vec2 { x: 0, y: 0 });
    assert_eq!(b.velocity, Vec2 { x: 0, y: 0 });
    assert_eq!(b.max_force, 100);
    assert_eq!(b.max_velocity, 400);
    assert_eq!(b.align_squared_perception_radius, 25_000_000);
    assert_eq!(b.separation_squared_perception_radius, 25_000_000);
    assert_eq!(b.cohesion_squared_perception_radius, 100_000_000);
}

#[test]
fn random_agent_within_ranges() {
    for _ in 0..50 {
        let b = Boid::random(100, 600, 10_000, 20_000, 100, 600, 5_000, 5_000, 10_000);
        assert!(0 <= b.position.x && b.position.x < 10_000);
        assert!(0 <= b.position.y && b.position.y < 20_000);
        let n = b.velocity.x * b.velocity.x + b.velocity.y * b.velocity.y;
        // drawn speed in [100, 600): the precise rescale keeps the
        // speed within two steps of the draw
        assert!(n >= 98 * 98);
        assert!(n <= 599 * 599);
        assert_eq!(b.max_force, 100);
        assert_eq!(b.max_velocity, 600);
        assert_eq!(b.align_squared_perception_radius, 25_000_000);
        assert_eq!(b.separation_squared_perception_radius, 25_000_000);
        assert_eq!(b.cohesion_squared_perception_radius, 100_000_000);
    }
}

#[test]
fn new_world_is_populated() {
    let w = World::new(102_400, 76_800, 10);
    assert_eq!(w.flock.len(), 10);
    assert_eq!(w.forces.len(), 10);
    for b in &w.flock {
        assert!(0 <= b.position.x && b.position.x < 102_400);
        assert!(0 <= b.position.y && b.position.y < 76_800);
        let n = b.velocity.x * b.velocity.x + b.velocity.y * b.velocity.y;
        assert!(n >= 98 * 98);
        assert!(n <= 599 * 599);
        assert_eq!(b.max_force, 100);
        assert_eq!(b.max_velocity, 600);
    }
    for f in &w.forces {
        assert_eq!(*f, Vec2 { x: 0, y: 0 });
    }
}

#[test]
fn whole_flock_keeps_velocity_clamp() {
    // a dense random flock, several ticks: the clamp holds throughout
    let mut w = World::new(20_000, 20_000, 50);
    for _ in 0..5 {
        w.update();
        for b in &w.flock {
            let n = b.velocity.x * b.velocity.x + b.velocity.y * b.velocity.y;
            assert!(n <= 600 * 600);
            assert!(0 <= b.position.x && b.position.x <= 20_000);
            assert!(0 <= b.position.y && b.position.y <= 20_000);
        }
    }
}

#[test]
fn display_offsets_along_heading() {
    let b = agent(10_000, 20_000, 300, 400);
    let (p, q) = b.display();
    assert_eq!(p, Vec2 { x: 10_300, y: 20_400 });
    assert_eq!(q, Vec2 { x: 9_700, y: 19_600 });
}

#[test]
fn display_of_agent_at_rest_is_a_point() {
    let b = agent(10_000, 20_000, 0, 0);
    let (p, q) = b.display();
    assert_eq!(p, b.position);
    assert_eq!(q, b.position);
}

#[test]
fn world_display_covers_flock_in_order() {
    let a = agent(1_000, 1_000, 300, 400);
    let b = agent(50_000, 2_000, 0, 0);
    let w = World::from_flock(100_000, 100_000, vec![a, b]);
    let segs = w.display();
    assert_eq!(segs.len(), 2);
    assert_eq!(segs[0], a.display());
    assert_eq!(segs[1], b.display());
}
