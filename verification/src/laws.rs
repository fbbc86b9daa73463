//! The laws of the simulation, stated and proved over the same spec
//! functions the executable contracts use.

use vstd::prelude::*;
use crate::vec2::{
    dot, nsq, tdiv, vadd, vsub, vdiv, set_mag_spec, limit_spec, mag_scale, vscaled, csqrt_of,
    lemma_div_ge_mul, lemma_div_le_mul, lemma_limit_le, lemma_mag_scale, lemma_vscaled_nonzero,
    lemma_csqrt_props, lemma_nsq_nonneg, lemma_set_mag_lower,
};
use crate::boid::{
    Boid, boid_wf, can_view_spec, vis_count, sep_count, vel_sum, pos_sum, sep_sum, sep_weight,
    align_spec, cohesion_spec, separation_spec, compute_force_spec, SEP_RADIUS_SQ_CAP,
    SEP_WEIGHT_SCALE,
};
use crate::world::is_stepped;

verus! {

/// Velocity clamp: whatever force a tick applies, an agent stepped from
/// a well-formed state again has velocity no longer than its
/// `max_velocity`.
pub proof fn lemma_velocity_clamp(b0: Boid, b1: Boid, f: (int, int), w: int, h: int)
    requires
        boid_wf(b0),
        is_stepped(b0, b1, f, w, h),
    ensures
        nsq(b1.velocity@) <= (b1.max_velocity as int) * (b1.max_velocity as int),
{
    lemma_limit_le(vadd(b0.velocity@, f), b0.max_velocity as int);
}

/// Force clamp: each of the three behaviors returns a steering vector
/// no longer than the agent's `max_force`, and returns exactly the zero
/// vector when it counts no neighbor.
pub proof fn lemma_behavior_force_clamp(boids: Seq<Boid>, me: int)
    requires
        0 <= me < boids.len(),
        0 <= boids[me].max_force,
    ensures
        nsq(align_spec(boids, me)) <= (boids[me].max_force as int) * (
        boids[me].max_force as int),
        nsq(cohesion_spec(boids, me)) <= (boids[me].max_force as int) * (
        boids[me].max_force as int),
        nsq(separation_spec(boids, me)) <= (boids[me].max_force as int) * (
        boids[me].max_force as int),
        vis_count(
            boids,
            me,
            boids[me].align_squared_perception_radius as int,
            boids.len() as int,
        ) == 0 ==> align_spec(boids, me) == (0int, 0int),
        vis_count(
            boids,
            me,
            boids[me].cohesion_squared_perception_radius as int,
            boids.len() as int,
        ) == 0 ==> cohesion_spec(boids, me) == (0int, 0int),
        sep_count(
            boids,
            me,
            boids[me].separation_squared_perception_radius as int,
            boids.len() as int,
        ) == 0 ==> separation_spec(boids, me) == (0int, 0int),
{
    let b = boids[me];
    let mf: int = b.max_force as int;
    let mv: int = b.max_velocity as int;
    assert(0 <= mf * mf) by (nonlinear_arith)
        requires
            0 <= mf,
    ;
    let n: int = boids.len() as int;
    let ra: int = b.align_squared_perception_radius as int;
    let rc: int = b.cohesion_squared_perception_radius as int;
    let rs: int = b.separation_squared_perception_radius as int;
    let ca: int = vis_count(boids, me, ra, n);
    let cc: int = vis_count(boids, me, rc, n);
    let cs: int = sep_count(boids, me, rs, n);
    if ca > 0 {
        lemma_limit_le(
            vsub(set_mag_spec(vdiv(vel_sum(boids, me, ra, n), ca), mv), b.velocity@),
            mf,
        );
    }
    if cc > 0 {
        lemma_limit_le(
            vsub(
                set_mag_spec(
                    vsub(vdiv(pos_sum(boids, me, rc, n), cc), b.position@),
                    mv,
                ),
                b.velocity@,
            ),
            mf,
        );
    }
    if cs > 0 {
        lemma_limit_le(
            vsub(set_mag_spec(vdiv(sep_sum(boids, me, rs, n), cs), mv), b.velocity@),
            mf,
        );
    }
}

/// Separation repulsion direction: the inverse-square weight of a
/// non-coincident neighbor within the capped radius points strictly
/// away from it — its scalar product with the offset from the neighbor
/// to the agent is positive, and each coordinate of the weight carries
/// the sign of the corresponding offset coordinate.
pub proof fn lemma_sep_weight_points_away(s: Boid, o: Boid)
    requires
        1 <= nsq(vsub(s.position@, o.position@)),
        nsq(vsub(s.position@, o.position@)) <= SEP_RADIUS_SQ_CAP as int,
    ensures
        dot(sep_weight(s, o), vsub(s.position@, o.position@)) > 0,
        sep_weight(s, o).0 * vsub(s.position@, o.position@).0 >= 0,
        sep_weight(s, o).1 * vsub(s.position@, o.position@).1 >= 0,
{
    let d: (int, int) = vsub(s.position@, o.position@);
    let dsq: int = nsq(d);
    let k: int = SEP_WEIGHT_SCALE as int;
    let q0: int = tdiv(d.0 * k, dsq);
    let q1: int = tdiv(d.1 * k, dsq);
    lemma_tdiv_sign(d.0, k, dsq);
    lemma_tdiv_sign(d.1, k, dsq);
    let a0: int = if d.0 >= 0 { d.0 } else { -d.0 };
    let a1: int = if d.1 >= 0 { d.1 } else { -d.1 };
    let a: int = if a0 >= a1 { a0 } else { a1 };
    assert(1 <= a) by (nonlinear_arith)
        requires
            1 <= dsq,
            dsq == d.0 * d.0 + d.1 * d.1,
            a == if a0 >= a1 { a0 } else { a1 },
            a0 == if d.0 >= 0 { d.0 } else { -d.0 },
            a1 == if d.1 >= 0 { d.1 } else { -d.1 },
    ;
    assert(a <= 1_000_000 && dsq * 1 <= a * k && 0 <= a * k) by (nonlinear_arith)
        requires
            1 <= a,
            k == 1_000_000_000,
            dsq == d.0 * d.0 + d.1 * d.1,
            dsq <= 1_000_000_000_000,
            a == if a0 >= a1 { a0 } else { a1 },
            a0 == if d.0 >= 0 { d.0 } else { -d.0 },
            a1 == if d.1 >= 0 { d.1 } else { -d.1 },
    ;
    lemma_div_ge_mul(a * k, dsq, 1);
    let qa: int = (a * k) / dsq;
    let qmax: int = if a0 >= a1 { q0 } else { q1 };
    let dmax: int = if a0 >= a1 { d.0 } else { d.1 };
    if dmax >= 0 {
        assert(dmax == a);
        assert(qmax == qa);
    } else {
        assert(dmax == -a);
        assert(dmax * k == -(a * k)) by (nonlinear_arith)
            requires
                dmax == -a,
        ;
        assert(qmax == -qa);
    }
    assert(qmax * dmax >= 1) by (nonlinear_arith)
        requires
            (qmax == qa && dmax == a) || (qmax == -qa && dmax == -a),
            1 <= qa,
            1 <= a,
    ;
    assert(dot(sep_weight(s, o), d) == q0 * d.0 + q1 * d.1);
    assert(q0 * d.0 + q1 * d.1 >= 1) by (nonlinear_arith)
        requires
            q0 * d.0 >= 0,
            q1 * d.1 >= 0,
            qmax * dmax >= 1,
            (qmax == q0 && dmax == d.0) || (qmax == q1 && dmax == d.1),
    ;
}

/// Separation desired-velocity direction: the repulsion weight rescaled
/// to the agent's speed target — the separation steering before the
/// agent's own velocity is subtracted and the force clamp applied —
/// still points strictly away from the neighbor once the target speed
/// is at least two steps.
pub proof fn lemma_sep_desired_points_away(s: Boid, o: Boid, mv: int)
    requires
        1 <= nsq(vsub(s.position@, o.position@)),
        nsq(vsub(s.position@, o.position@)) <= SEP_RADIUS_SQ_CAP as int,
        2 <= mv <= 10_000,
    ensures
        dot(set_mag_spec(sep_weight(s, o), mv), vsub(s.position@, o.position@)) > 0,
{
    let d: (int, int) = vsub(s.position@, o.position@);
    let dsq: int = nsq(d);
    let w: (int, int) = sep_weight(s, o);
    lemma_sep_weight_points_away(s, o);
    if w.0 == 0 && w.1 == 0 {
        assert(w.0 * d.0 == 0 && w.1 * d.1 == 0) by (nonlinear_arith)
            requires
                w.0 == 0,
                w.1 == 0,
        ;
        assert(false);
    }
    // a zero offset coordinate gives a zero weight coordinate
    if d.0 == 0 {
        assert(d.0 * (SEP_WEIGHT_SCALE as int) == 0) by (nonlinear_arith)
            requires
                d.0 == 0,
        ;
        lemma_div_le_mul(0, dsq, 0);
        assert(w.0 == 0);
    }
    if d.1 == 0 {
        assert(d.1 * (SEP_WEIGHT_SCALE as int) == 0) by (nonlinear_arith)
            requires
                d.1 == 0,
        ;
        lemma_div_le_mul(0, dsq, 0);
        assert(w.1 == 0);
    }
    lemma_mag_scale(w);
    lemma_vscaled_nonzero(w);
    let k: int = mag_scale(w);
    let u: (int, int) = vscaled(w);
    lemma_nsq_nonneg(u);
    lemma_csqrt_props(nsq(u));
    let cs: int = csqrt_of(nsq(u));
    assert(1 <= nsq(u)) by (nonlinear_arith)
        requires
            !(u.0 == 0 && u.1 == 0),
            nsq(u) == u.0 * u.0 + u.1 * u.1,
    ;
    assert(1 <= cs) by (nonlinear_arith)
        requires
            0 <= cs,
            1 <= nsq(u),
            nsq(u) <= cs * cs,
    ;
    let g: (int, int) = set_mag_spec(w, mv);
    assert(g == (tdiv(u.0 * mv, cs), tdiv(u.1 * mv, cs)));
    lemma_desired_comp_sign(w.0, d.0, k, mv, cs, g.0);
    lemma_desired_comp_sign(w.1, d.1, k, mv, cs, g.1);
    // the rescaled weight is nonzero: its norm is at least (mv/2)^2
    lemma_set_mag_lower(w, mv);
    assert(1 <= (mv / 2) * (mv / 2)) by (nonlinear_arith)
        requires
            2 <= mv,
            1 <= mv / 2,
    ;
    if g.0 == 0 && g.1 == 0 {
        assert(nsq(g) == 0) by (nonlinear_arith)
            requires
                g.0 == 0,
                g.1 == 0,
                nsq(g) == g.0 * g.0 + g.1 * g.1,
        ;
        assert(false);
    }
    assert(g.0 * d.0 + g.1 * d.1 >= 1);
}

/// One coordinate of a rescaled weight keeps the offset coordinate's
/// sign, strictly where it is nonzero.
proof fn lemma_desired_comp_sign(wi: int, di: int, k: int, mv: int, cs: int, gi: int)
    requires
        1 <= k,
        0 <= mv,
        1 <= cs,
        wi * di >= 0,
        di == 0 ==> wi == 0,
        gi == tdiv((wi * k) * mv, cs),
    ensures
        gi * di >= 0,
        gi != 0 ==> gi * di >= 1,
{
    lemma_tdiv_sign(wi * k, mv, cs);
    if wi == 0 {
        assert(wi * k == 0 && 0 * mv == 0) by (nonlinear_arith)
            requires
                wi == 0,
        ;
        lemma_div_le_mul(0, cs, 0);
        assert(gi == 0);
        assert(gi * di == 0) by (nonlinear_arith)
            requires
                gi == 0,
        ;
    } else {
        assert(gi * wi >= 0) by (nonlinear_arith)
            requires
                gi * (wi * k) >= 0,
                1 <= k,
        ;
        assert(di != 0);
        if gi != 0 {
            assert(gi * di >= 1) by (nonlinear_arith)
                requires
                    gi * wi >= 0,
                    wi * di >= 0,
                    gi != 0,
                    wi != 0,
                    di != 0,
            ;
        } else {
            assert(gi * di == 0) by (nonlinear_arith)
                requires
                    gi == 0,
            ;
        }
    }
}

/// A truncated quotient keeps the sign of its dividend's first factor.
proof fn lemma_tdiv_sign(x: int, k: int, b: int)
    requires
        0 <= k,
        1 <= b,
    ensures
        tdiv(x * k, b) * x >= 0,
{
    if x >= 0 {
        assert(0 <= x * k) by (nonlinear_arith)
            requires
                0 <= x,
                0 <= k,
        ;
        lemma_div_ge_mul(x * k, b, 0);
        assert(tdiv(x * k, b) * x >= 0) by (nonlinear_arith)
            requires
                0 <= tdiv(x * k, b),
                0 <= x,
        ;
    } else {
        assert(x * k <= 0) by (nonlinear_arith)
            requires
                x <= 0,
                0 <= k,
        ;
        if x * k == 0 {
            lemma_div_le_mul(0, b, 0);
            assert(tdiv(x * k, b) == 0int / b);
        } else {
            lemma_div_ge_mul(-(x * k), b, 0);
            assert(tdiv(x * k, b) <= 0);
        }
        assert(tdiv(x * k, b) * x >= 0) by (nonlinear_arith)
            requires
                tdiv(x * k, b) <= 0,
                x <= 0,
        ;
    }
}

/// An agent that sees nobody among the first `n` counts nobody.
proof fn lemma_no_visible_counts(boids: Seq<Boid>, me: int, r: int, n: int)
    requires
        forall|j: int|
            0 <= j < n && j != me ==> !can_view_spec(boids[me], #[trigger] boids[j], r),
    ensures
        vis_count(boids, me, r, n) == 0,
        sep_count(boids, me, r, n) == 0,
    decreases n,
{
    if n > 0 {
        lemma_no_visible_counts(boids, me, r, n - 1);
    }
}

/// Isolated agent: one that sees no neighbor within any of its three
/// perception radii gets the zero vector from every behavior and a zero
/// composite force, and its velocity passes one tick unchanged — it
/// moves in a straight line at constant speed.
pub proof fn lemma_isolated_agent(boids: Seq<Boid>, me: int)
    requires
        0 <= me < boids.len(),
        boid_wf(boids[me]),
        forall|j: int|
            0 <= j < boids.len() && j != me ==> !can_view_spec(
                boids[me],
                #[trigger] boids[j],
                boids[me].align_squared_perception_radius as int,
            ),
        forall|j: int|
            0 <= j < boids.len() && j != me ==> !can_view_spec(
                boids[me],
                #[trigger] boids[j],
                boids[me].cohesion_squared_perception_radius as int,
            ),
        forall|j: int|
            0 <= j < boids.len() && j != me ==> !can_view_spec(
                boids[me],
                #[trigger] boids[j],
                boids[me].separation_squared_perception_radius as int,
            ),
    ensures
        align_spec(boids, me) == (0int, 0int),
        cohesion_spec(boids, me) == (0int, 0int),
        separation_spec(boids, me) == (0int, 0int),
        compute_force_spec(boids, me) == (0int, 0int),
        limit_spec(
            vadd(boids[me].velocity@, compute_force_spec(boids, me)),
            boids[me].max_velocity as int,
        ) == boids[me].velocity@,
{
    let n: int = boids.len() as int;
    lemma_no_visible_counts(boids, me, boids[me].align_squared_perception_radius as int, n);
    lemma_no_visible_counts(boids, me, boids[me].cohesion_squared_perception_radius as int, n);
    lemma_no_visible_counts(boids, me, boids[me].separation_squared_perception_radius as int, n);
    assert(compute_force_spec(boids, me) == (0int, 0int));
    let v: (int, int) = boids[me].velocity@;
    assert(vadd(v, (0int, 0int)) == v);
    assert(nsq(v) <= (boids[me].max_velocity as int) * (boids[me].max_velocity as int));
}

} // verus!
