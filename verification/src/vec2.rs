//! Fixed-point planar vectors.
//!
//! A [`Vec2`] holds a pair of `i64` coordinates.  One world unit is
//! [`SCALE`] coordinate steps, so fractional world positions, velocities
//! and forces are represented exactly as integers.  The mathematical
//! model of a vector is the pair of unbounded integers given by its view.

use vstd::prelude::*;
use vstd::arithmetic::div_mod::{lemma_fundamental_div_mod, lemma_mod_bound, lemma_remainder_lower};

verus! {

/// Number of coordinate steps per world unit.
pub const SCALE: i64 = 100;

/// Largest coordinate magnitude a well-formed position may have.
pub const POS_CAP: i64 = 1_000_000_000;

/// Largest coordinate magnitude accepted by the vector operations
/// (a difference of two in-cap positions).
pub const DIFF_CAP: i64 = 2_000_000_000;

/// Largest coordinate magnitude accepted by componentwise sums (large
/// enough for a running sum of positions over a whole flock).
pub const SUM_CAP: i64 = 4_000_000_000_000_000_000;

/// Largest speed (and largest `max_velocity`) the model admits.
pub const VEL_CAP: i64 = 10_000;

/// Largest steering-force bound (and largest `max_force`) the model admits.
pub const FORCE_CAP: i64 = 10_000;

/// A planar vector in fixed-point coordinates.
#[derive(Clone, Copy, PartialEq, Eq, Structural, Debug)]
pub struct Vec2 {
    pub x: i64,
    pub y: i64,
}

impl View for Vec2 {
    type V = (int, int);

    open spec fn view(&self) -> (int, int) {
        (self.x as int, self.y as int)
    }
}

/// Squared Euclidean norm.
pub open spec fn nsq(v: (int, int)) -> int {
    v.0 * v.0 + v.1 * v.1
}

/// Componentwise sum.
pub open spec fn vadd(a: (int, int), b: (int, int)) -> (int, int) {
    (a.0 + b.0, a.1 + b.1)
}

/// Componentwise difference.
pub open spec fn vsub(a: (int, int), b: (int, int)) -> (int, int) {
    (a.0 - b.0, a.1 - b.1)
}

/// Scalar product.
pub open spec fn dot(a: (int, int), b: (int, int)) -> int {
    a.0 * b.0 + a.1 * b.1
}

/// Both coordinates lie in `[-b, b]`.
pub open spec fn bounded(v: (int, int), b: int) -> bool {
    -b <= v.0 && v.0 <= b && -b <= v.1 && v.1 <= b
}

/// Integer division truncated towards zero, the rounding every
/// arithmetic step of the library uses.
pub open spec fn tdiv(a: int, b: int) -> int {
    if a >= 0 {
        a / b
    } else {
        -((-a) / b)
    }
}

/// Componentwise truncated division.
pub open spec fn vdiv(v: (int, int), c: int) -> (int, int) {
    (tdiv(v.0, c), tdiv(v.1, c))
}

/// `s` is the least nonnegative integer whose square is at least `n`.
pub open spec fn is_csqrt(n: int, s: int) -> bool {
    0 <= s && n <= s * s && (s == 0 || (s - 1) * (s - 1) < n)
}

/// The ceiling square root of `n`.
pub open spec fn csqrt_of(n: int) -> int {
    choose|s: int| is_csqrt(n, s)
}

/// The larger coordinate magnitude of a vector.
pub open spec fn max_abs(v: (int, int)) -> int {
    let a0 = if v.0 >= 0 {
        v.0
    } else {
        -v.0
    };
    let a1 = if v.1 >= 0 {
        v.1
    } else {
        -v.1
    };
    if a0 >= a1 {
        a0
    } else {
        a1
    }
}

/// Precision factor of the rescale: a short vector is blown up until
/// its larger coordinate passes half a million steps, so the division
/// below loses well under a step of relative direction and length.  A
/// long vector needs no factor.
pub open spec fn mag_scale(v: (int, int)) -> int {
    let a = max_abs(v);
    if a >= 1_000_000 {
        1
    } else if a >= 1 {
        1_000_000int / a
    } else {
        1
    }
}

/// The vector blown up by its precision factor.
pub open spec fn vscaled(v: (int, int)) -> (int, int) {
    (v.0 * mag_scale(v), v.1 * mag_scale(v))
}

/// The plain rescale of `u` to length `m`: each coordinate becomes
/// `coordinate * m / csqrt(nsq)`, truncated towards zero.
pub open spec fn raw_mag_spec(u: (int, int), m: int) -> (int, int) {
    vdiv((u.0 * m, u.1 * m), csqrt_of(nsq(u)))
}

/// Rescaling a vector to length `m`: the vector is first blown up by
/// its precision factor — which leaves its direction exactly and its
/// target length unchanged — and then rescaled plainly.  The zero
/// vector is left unchanged.
pub open spec fn set_mag_spec(v: (int, int), m: int) -> (int, int) {
    if v.0 == 0 && v.1 == 0 {
        (0, 0)
    } else {
        raw_mag_spec(vscaled(v), m)
    }
}

/// The precision factor is positive, lifts the larger coordinate
/// beyond half a million steps, and never past a million unless the
/// vector was already long.
pub proof fn lemma_mag_scale(v: (int, int))
    requires
        !(v.0 == 0 && v.1 == 0),
    ensures
        1 <= mag_scale(v),
        500_000 < max_abs(v) * mag_scale(v),
        max_abs(v) * mag_scale(v) <= 1_000_000 || mag_scale(v) == 1,
        max_abs(vscaled(v)) == max_abs(v) * mag_scale(v),
{
    let a: int = max_abs(v);
    let k: int = mag_scale(v);
    assert(1 <= a);
    if a >= 1_000_000 {
        assert(k == 1);
        assert(a * 1 == a) by (nonlinear_arith);
    } else {
        lemma_fundamental_div_mod(1_000_000, a);
        lemma_mod_bound(1_000_000, a);
        lemma_div_ge_mul(1_000_000, a, 1);
        assert(k == 1_000_000int / a);
        assert(a * k > 1_000_000 - a && a * k <= 1_000_000) by (nonlinear_arith)
            requires
                1 <= a,
                k == 1_000_000int / a,
                1_000_000int == a * (1_000_000int / a) + 1_000_000int % a,
                0 <= 1_000_000int % a < a,
        ;
        if a <= 500_000 {
            assert(500_000 < a * k);
        } else {
            assert(a * k >= a * 1) by (nonlinear_arith)
                requires
                    1 <= k,
                    0 <= a,
            ;
        }
    }
    let a0: int = if v.0 >= 0 {
        v.0
    } else {
        -v.0
    };
    let a1: int = if v.1 >= 0 {
        v.1
    } else {
        -v.1
    };
    assert((if v.0 * k >= 0 {
        v.0 * k
    } else {
        -(v.0 * k)
    }) == a0 * k) by (nonlinear_arith)
        requires
            1 <= k,
            a0 == (if v.0 >= 0 { v.0 } else { -v.0 }),
    ;
    assert((if v.1 * k >= 0 {
        v.1 * k
    } else {
        -(v.1 * k)
    }) == a1 * k) by (nonlinear_arith)
        requires
            1 <= k,
            a1 == (if v.1 >= 0 { v.1 } else { -v.1 }),
    ;
    assert((a0 >= a1 ==> a0 * k >= a1 * k) && (a0 < a1 ==> a0 * k < a1 * k)) by (nonlinear_arith)
        requires
            1 <= k,
    ;
}

/// Clamping a vector to length at most `m`: vectors longer than `m`
/// are rescaled to length `m`, shorter ones pass unchanged.
pub open spec fn limit_spec(v: (int, int), m: int) -> (int, int) {
    if nsq(v) > m * m {
        set_mag_spec(v, m)
    } else {
        v
    }
}

/// The angle between `a` and `b` is strictly less than 60 degrees.
/// Exactly the real-number condition `cos(angle) > 1/2`: the scalar
/// product is positive and `2 dot > |a| |b|`, squared to stay integral.
/// A zero vector forms no angle and fails the test.
pub open spec fn cone_spec(a: (int, int), b: (int, int)) -> bool {
    dot(a, b) > 0 && 4 * dot(a, b) * dot(a, b) > nsq(a) * nsq(b)
}

/// Squared norms are nonnegative.
pub proof fn lemma_nsq_nonneg(v: (int, int))
    ensures
        0 <= nsq(v),
{
    assert(0 <= v.0 * v.0 + v.1 * v.1) by (nonlinear_arith);
}

/// The squared distance between two points reads the same either way.
pub proof fn lemma_nsq_sub_symm(a: (int, int), b: (int, int))
    ensures
        nsq(vsub(a, b)) == nsq(vsub(b, a)),
{
    assert(nsq(vsub(a, b)) == nsq(vsub(b, a))) by (nonlinear_arith)
        requires
            nsq(vsub(a, b)) == (a.0 - b.0) * (a.0 - b.0) + (a.1 - b.1) * (a.1 - b.1),
            nsq(vsub(b, a)) == (b.0 - a.0) * (b.0 - a.0) + (b.1 - a.1) * (b.1 - a.1),
    ;
}

/// A vector of squared norm at most `m * m` has both coordinates in `[-m, m]`.
pub proof fn lemma_nsq_comp_bound(v: (int, int), m: int)
    requires
        0 <= m,
        nsq(v) <= m * m,
    ensures
        bounded(v, m),
{
    assert(bounded(v, m)) by (nonlinear_arith)
        requires
            0 <= m,
            v.0 * v.0 + v.1 * v.1 <= m * m,
    ;
}

/// Every nonnegative integer has a ceiling square root.
pub proof fn lemma_csqrt_exists(n: int)
    requires
        0 <= n,
    ensures
        exists|s: int| is_csqrt(n, s),
    decreases n,
{
    if n == 0 {
        assert(is_csqrt(0, 0));
    } else {
        lemma_csqrt_exists(n - 1);
        let s0: int = choose|s: int| #[trigger] is_csqrt(n - 1, s);
        if n <= s0 * s0 {
            assert(1 <= s0) by (nonlinear_arith)
                requires
                    0 <= s0,
                    1 <= n,
                    n <= s0 * s0,
            ;
            assert(is_csqrt(n, s0));
        } else {
            assert(n - 1 <= s0 * s0);
            assert(n <= (s0 + 1) * (s0 + 1)) by (nonlinear_arith)
                requires
                    0 <= s0,
                    n - 1 <= s0 * s0,
            ;
            assert((s0 + 1 - 1) * (s0 + 1 - 1) < n);
            assert(is_csqrt(n, s0 + 1));
        }
    }
}

/// The ceiling square root is unique.
pub proof fn lemma_csqrt_unique(n: int, a: int, b: int)
    requires
        is_csqrt(n, a),
        is_csqrt(n, b),
    ensures
        a == b,
{
    if a < b {
        assert(a * a <= (b - 1) * (b - 1)) by (nonlinear_arith)
            requires
                0 <= a,
                a <= b - 1,
        ;
        assert(false);
    }
    if b < a {
        assert(b * b <= (a - 1) * (a - 1)) by (nonlinear_arith)
            requires
                0 <= b,
                b <= a - 1,
        ;
        assert(false);
    }
}

/// `csqrt_of` satisfies its defining property on nonnegative input.
pub proof fn lemma_csqrt_props(n: int)
    requires
        0 <= n,
    ensures
        is_csqrt(n, csqrt_of(n)),
{
    lemma_csqrt_exists(n);
}

/// A nonnegative integer at most `b * m` divides by `b` to at most `m`.
pub proof fn lemma_div_le_mul(a: int, b: int, m: int)
    requires
        0 <= a,
        1 <= b,
        a <= b * m,
    ensures
        0 <= a / b,
        a / b <= m,
        (a / b) * b <= a,
{
    lemma_fundamental_div_mod(a, b);
    lemma_remainder_lower(a, b);
    let q: int = a / b;
    assert(q * b <= a);
    assert(0 <= q) by (nonlinear_arith)
        requires
            1 <= b,
            q * b <= a,
            a <= b * m,
            0 <= a,
            a == b * q + a % b,
            0 <= a % b,
    ;
    assert(q <= m) by (nonlinear_arith)
        requires
            1 <= b,
            q * b <= a,
            a <= b * m,
    ;
}

/// A nonnegative integer at least `b * x` divides by `b` to at least `x`.
pub proof fn lemma_div_ge_mul(a: int, b: int, x: int)
    requires
        0 <= x,
        1 <= b,
        b * x <= a,
    ensures
        x <= a / b,
{
    assert(0 <= a) by (nonlinear_arith)
        requires
            0 <= x,
            1 <= b,
            b * x <= a,
    ;
    lemma_fundamental_div_mod(a, b);
    lemma_mod_bound(a, b);
    let q: int = a / b;
    assert(x <= q) by (nonlinear_arith)
        requires
            1 <= b,
            b * x <= a,
            a == b * q + a % b,
            0 <= a % b < b,
    ;
}

/// Truncated division keeps a quotient bound on both sides.
pub proof fn lemma_tdiv_bound(a: int, b: int, m: int)
    requires
        1 <= b,
        0 <= m,
        -(b * m) <= a,
        a <= b * m,
    ensures
        -m <= tdiv(a, b),
        tdiv(a, b) <= m,
{
    if a >= 0 {
        lemma_div_le_mul(a, b, m);
    } else {
        lemma_div_le_mul(-a, b, m);
    }
}

/// The square of a rescaled coordinate, times the squared divisor, is
/// at most the square of the undivided product.
proof fn lemma_tdiv_sq(x: int, m: int, s: int)
    requires
        0 <= m,
        1 <= s,
    ensures
        tdiv(x * m, s) * tdiv(x * m, s) * (s * s) <= (x * x) * (m * m),
        0 <= tdiv(x * m, s) * tdiv(x * m, s),
{
    let a: int = if x >= 0 { x * m } else { -(x * m) };
    assert(0 <= a && a * a == (x * x) * (m * m)) by (nonlinear_arith)
        requires
            0 <= m,
            a == if x >= 0 { x * m } else { -(x * m) },
    ;
    lemma_fundamental_div_mod(a, s);
    lemma_remainder_lower(a, s);
    let qa: int = a / s;
    assert(qa * s <= a);
    assert(0 <= qa) by (nonlinear_arith)
        requires
            1 <= s,
            0 <= a,
            a == s * qa + a % s,
            0 <= a % s,
    ;
    assert(qa * qa * (s * s) <= a * a) by (nonlinear_arith)
        requires
            0 <= qa,
            1 <= s,
            qa * s <= a,
    ;
    assert(tdiv(x * m, s) == qa || tdiv(x * m, s) == -qa);
    assert(tdiv(x * m, s) * tdiv(x * m, s) == qa * qa) by (nonlinear_arith)
        requires
            tdiv(x * m, s) == qa || tdiv(x * m, s) == -qa,
    ;
}

/// A nonzero vector's blown-up form is nonzero too.
pub proof fn lemma_vscaled_nonzero(v: (int, int))
    requires
        !(v.0 == 0 && v.1 == 0),
    ensures
        !(vscaled(v).0 == 0 && vscaled(v).1 == 0),
{
    lemma_mag_scale(v);
    if vscaled(v).0 == 0 && vscaled(v).1 == 0 {
        assert(max_abs((0int, 0int)) == 0);
        assert(false);
    }
}

/// The plain rescale never overshoots: `raw_mag_spec(u, m)` has squared
/// norm at most `m * m` and both coordinates in `[-m, m]`.
#[verifier::rlimit(50)]
proof fn lemma_raw_mag_le(u: (int, int), m: int)
    requires
        0 <= m,
        !(u.0 == 0 && u.1 == 0),
    ensures
        nsq(raw_mag_spec(u, m)) <= m * m,
        bounded(raw_mag_spec(u, m), m),
{
    lemma_nsq_nonneg(u);
    lemma_csqrt_props(nsq(u));
    let s: int = csqrt_of(nsq(u));
    assert(1 <= nsq(u)) by (nonlinear_arith)
        requires
            !(u.0 == 0 && u.1 == 0),
            nsq(u) == u.0 * u.0 + u.1 * u.1,
    ;
    assert(1 <= s) by (nonlinear_arith)
        requires
            0 <= s,
            1 <= nsq(u),
            nsq(u) <= s * s,
    ;
    lemma_tdiv_sq(u.0, m, s);
    lemma_tdiv_sq(u.1, m, s);
    let q0: int = tdiv(u.0 * m, s);
    let q1: int = tdiv(u.1 * m, s);
    assert((q0 * q0 + q1 * q1) * (s * s) <= (u.0 * u.0 + u.1 * u.1) * (m * m))
        by (nonlinear_arith)
        requires
            q0 * q0 * (s * s) <= (u.0 * u.0) * (m * m),
            q1 * q1 * (s * s) <= (u.1 * u.1) * (m * m),
    ;
    assert((u.0 * u.0 + u.1 * u.1) * (m * m) <= (s * s) * (m * m)) by (nonlinear_arith)
        requires
            u.0 * u.0 + u.1 * u.1 <= s * s,
            0 <= m,
    ;
    assert(q0 * q0 + q1 * q1 <= m * m) by (nonlinear_arith)
        requires
            1 <= s,
            (q0 * q0 + q1 * q1) * (s * s) <= (s * s) * (m * m),
            0 <= q0 * q0 + q1 * q1,
    ;
    lemma_nsq_comp_bound((q0, q1), m);
}

/// Rescaling never overshoots: the result of `set_mag_spec(v, m)` has
/// squared norm at most `m * m`, and both coordinates in `[-m, m]`.
pub proof fn lemma_set_mag_le(v: (int, int), m: int)
    requires
        0 <= m,
    ensures
        nsq(set_mag_spec(v, m)) <= m * m,
        bounded(set_mag_spec(v, m), m),
{
    if v.0 == 0 && v.1 == 0 {
        assert(0 <= m * m) by (nonlinear_arith)
            requires
                0 <= m,
        ;
        assert(nsq((0int, 0int)) == 0);
    } else {
        lemma_vscaled_nonzero(v);
        lemma_raw_mag_le(vscaled(v), m);
    }
}

/// The core bound of the precise rescale: once the larger input
/// coordinate passes half a million steps, the rescaled vector's
/// squared norm falls short of `m * m` by less than two steps of
/// length.  Stated over the absolute coordinates `b0, b1`, the ceiling
/// square root `s` of their squared norm, and the truncated quotients
/// `q0, q1`.
#[verifier::rlimit(50)]
proof fn lemma_rescale_tight(b0: int, b1: int, s: int, m: int, q0: int, q1: int)
    requires
        0 <= b0,
        0 <= b1,
        500_000 < b0 || 500_000 < b1,
        5 <= m <= 10_000,
        1 <= s,
        b0 * b0 + b1 * b1 <= s * s,
        (s - 1) * (s - 1) < b0 * b0 + b1 * b1,
        0 <= q0,
        0 <= q1,
        q0 * s <= b0 * m,
        b0 * m <= q0 * s + s - 1,
        q1 * s <= b1 * m,
        b1 * m <= q1 * s + s - 1,
    ensures
        q0 * q0 + q1 * q1 >= (m - 2) * (m - 2),
{
    assert(500_000 < s) by (nonlinear_arith)
        requires
            500_000 < b0 || 500_000 < b1,
            0 <= b0,
            0 <= b1,
            b0 * b0 + b1 * b1 <= s * s,
            1 <= s,
    ;
    assert((q0 * s) * (q0 * s) >= (b0 * m) * (b0 * m) - 2 * (s * (b0 * m))) by (nonlinear_arith)
        requires
            0 <= q0,
            1 <= s,
            0 <= b0,
            0 <= m,
            q0 * s <= b0 * m,
            b0 * m <= q0 * s + s - 1,
    ;
    assert((q1 * s) * (q1 * s) >= (b1 * m) * (b1 * m) - 2 * (s * (b1 * m))) by (nonlinear_arith)
        requires
            0 <= q1,
            1 <= s,
            0 <= b1,
            0 <= m,
            q1 * s <= b1 * m,
            b1 * m <= q1 * s + s - 1,
    ;
    assert(2 * (b0 + b1) <= 3 * s) by (nonlinear_arith)
        requires
            0 <= b0,
            0 <= b1,
            b0 * b0 + b1 * b1 <= s * s,
            1 <= s,
    ;
    assert(2 * (s * (b0 * m)) + 2 * (s * (b1 * m)) <= 3 * ((s * s) * m)) by (nonlinear_arith)
        requires
            2 * (b0 + b1) <= 3 * s,
            0 <= s,
            0 <= m,
    ;
    assert((q0 * s) * (q0 * s) + (q1 * s) * (q1 * s) == (s * s) * (q0 * q0 + q1 * q1))
        by (nonlinear_arith);
    assert((b0 * m) * (b0 * m) + (b1 * m) * (b1 * m) == (m * m) * (b0 * b0 + b1 * b1))
        by (nonlinear_arith);
    assert((s * s) * (q0 * q0 + q1 * q1) >= (m * m) * (b0 * b0 + b1 * b1) - (2 * (s * (b0 * m))
        + 2 * (s * (b1 * m))));
    assert((m * m) * (b0 * b0 + b1 * b1) >= (m * m) * (s * s) - 2 * ((m * m) * s))
        by (nonlinear_arith)
        requires
            (s - 1) * (s - 1) < b0 * b0 + b1 * b1,
            0 <= m,
    ;
    assert((s * s) * (q0 * q0 + q1 * q1) >= (m * m) * (s * s) - 2 * ((m * m) * s) - 3 * ((s * s)
        * m));
    assert(q0 * q0 + q1 * q1 >= (m - 2) * (m - 2)) by (nonlinear_arith)
        requires
            (s * s) * (q0 * q0 + q1 * q1) >= (m * m) * (s * s) - 2 * ((m * m) * s) - 3 * ((s * s)
                * m),
            500_000 < s,
            5 <= m,
            m <= 10_000,
            0 <= q0 * q0 + q1 * q1,
    ;
}

/// The precise rescale keeps the length close to the target: a nonzero
/// vector rescaled to `m` has squared norm at least `(m / 2) * (m / 2)`
/// always, and at least `(m - 2) * (m - 2)` once `m` is at least two -
/// the length lands within two steps of `m`.
#[verifier::rlimit(50)]
pub proof fn lemma_set_mag_lower(v: (int, int), m: int)
    requires
        0 <= m <= 10_000,
        !(v.0 == 0 && v.1 == 0),
    ensures
        nsq(set_mag_spec(v, m)) >= (m / 2) * (m / 2),
        2 <= m ==> nsq(set_mag_spec(v, m)) >= (m - 2) * (m - 2),
{
    lemma_vscaled_nonzero(v);
    lemma_mag_scale(v);
    let u: (int, int) = vscaled(v);
    lemma_nsq_nonneg(u);
    lemma_csqrt_props(nsq(u));
    let s: int = csqrt_of(nsq(u));
    assert(1 <= nsq(u)) by (nonlinear_arith)
        requires
            !(u.0 == 0 && u.1 == 0),
            nsq(u) == u.0 * u.0 + u.1 * u.1,
    ;
    assert(1 <= s) by (nonlinear_arith)
        requires
            0 <= s,
            1 <= nsq(u),
            nsq(u) <= s * s,
    ;
    let b0: int = if u.0 >= 0 {
        u.0
    } else {
        -u.0
    };
    let b1: int = if u.1 >= 0 {
        u.1
    } else {
        -u.1
    };
    let a: int = if b0 >= b1 {
        b0
    } else {
        b1
    };
    assert(a == max_abs(u));
    assert(500_000 < a);
    assert(b0 * b0 == u.0 * u.0 && b1 * b1 == u.1 * u.1) by (nonlinear_arith)
        requires
            b0 == u.0 || b0 == -u.0,
            b1 == u.1 || b1 == -u.1,
    ;
    assert(nsq(u) <= 4 * (a * a)) by (nonlinear_arith)
        requires
            nsq(u) == u.0 * u.0 + u.1 * u.1,
            -a <= u.0 <= a,
            -a <= u.1 <= a,
            0 <= a,
    ;
    if s > 2 * a {
        assert((s - 1) * (s - 1) >= 4 * (a * a)) by (nonlinear_arith)
            requires
                s - 1 >= 2 * a,
                0 <= a,
        ;
        assert(false);
    }
    // absolute quotients of the two coordinates
    assert(0 <= b0 * m && 0 <= b1 * m && 0 <= a * m) by (nonlinear_arith)
        requires
            0 <= b0,
            0 <= b1,
            0 <= a,
            0 <= m,
    ;
    lemma_fundamental_div_mod(b0 * m, s);
    lemma_mod_bound(b0 * m, s);
    lemma_fundamental_div_mod(b1 * m, s);
    lemma_mod_bound(b1 * m, s);
    let p0: int = (b0 * m) / s;
    let p1: int = (b1 * m) / s;
    lemma_div_ge_mul(b0 * m, s, 0);
    lemma_div_ge_mul(b1 * m, s, 0);
    assert(p0 * s <= b0 * m && b0 * m <= p0 * s + s - 1) by (nonlinear_arith)
        requires
            b0 * m == s * p0 + (b0 * m) % s,
            0 <= (b0 * m) % s < s,
    ;
    assert(p1 * s <= b1 * m && b1 * m <= p1 * s + s - 1) by (nonlinear_arith)
        requires
            b1 * m == s * p1 + (b1 * m) % s,
            0 <= (b1 * m) % s < s,
    ;
    let q0: int = tdiv(u.0 * m, s);
    let q1: int = tdiv(u.1 * m, s);
    if u.0 >= 0 {
        assert(q0 == p0);
    } else {
        assert(u.0 * m == -(b0 * m)) by (nonlinear_arith)
            requires
                u.0 == -b0,
        ;
        assert(q0 == p0 || q0 == -p0);
    }
    if u.1 >= 0 {
        assert(q1 == p1);
    } else {
        assert(u.1 * m == -(b1 * m)) by (nonlinear_arith)
            requires
                u.1 == -b1,
        ;
        assert(q1 == p1 || q1 == -p1);
    }
    assert(q0 * q0 == p0 * p0 && q1 * q1 == p1 * p1) by (nonlinear_arith)
        requires
            q0 == p0 || q0 == -p0,
            q1 == p1 || q1 == -p1,
    ;
    assert(nsq(set_mag_spec(v, m)) == q0 * q0 + q1 * q1);
    // the half bound, through the larger coordinate
    assert(0 <= m / 2);
    assert(s * (m / 2) <= a * m) by (nonlinear_arith)
        requires
            1 <= a,
            s <= 2 * a,
            0 <= m,
            0 <= m / 2,
            2 * (m / 2) <= m,
    ;
    lemma_div_ge_mul(a * m, s, m / 2);
    let pa: int = if b0 >= b1 {
        p0
    } else {
        p1
    };
    assert(pa == (a * m) / s);
    assert(p0 * p0 + p1 * p1 >= (m / 2) * (m / 2)) by (nonlinear_arith)
        requires
            pa == p0 || pa == p1,
            pa >= m / 2,
            0 <= m / 2,
            0 <= p0 * p0,
            0 <= p1 * p1,
            pa * pa <= p0 * p0 + p1 * p1 || (pa == p0 || pa == p1),
    ;
    // the tight bound
    if 2 <= m {
        if m <= 4 {
            assert((m - 2) * (m - 2) <= (m / 2) * (m / 2)) by (nonlinear_arith)
                requires
                    2 <= m,
                    m <= 4,
                    0 <= m / 2,
                    2 * (m / 2) <= m,
                    m <= 2 * (m / 2) + 1,
            ;
        } else {
            lemma_rescale_tight(b0, b1, s, m, p0, p1);
        }
    }
}
/// Clamping keeps the squared norm within `m * m` and each coordinate
/// within `[-m, m]`.
pub proof fn lemma_limit_le(v: (int, int), m: int)
    requires
        0 <= m,
    ensures
        nsq(limit_spec(v, m)) <= m * m,
        bounded(limit_spec(v, m), m),
{
    if nsq(v) > m * m {
        lemma_set_mag_le(v, m);
    } else {
        lemma_nsq_comp_bound(v, m);
    }
}

/// Least `r` with `r * r >= n`, by binary search.
fn csqrt(n: u64) -> (r: u64)
    requires
        n <= 0x7fff_ffff_ffff_ffff,
    ensures
        is_csqrt(n as int, r as int),
{
    if n == 0 {
        return 0;
    }
    let mut lo: u64 = 0;
    let mut hi: u64 = 3_100_000_000;
    proof {
        assert(3_100_000_000int * 3_100_000_000int > 0x7fff_ffff_ffff_ffffint);
    }
    while lo + 1 < hi
        invariant
            lo < hi,
            hi <= 3_100_000_000,
            (lo as int) * (lo as int) < n as int,
            n as int <= (hi as int) * (hi as int),
            1 <= n <= 0x7fff_ffff_ffff_ffff,
        decreases hi - lo,
    {
        let mid: u64 = lo + (hi - lo) / 2;
        proof {
            assert((mid as int) * (mid as int) <= 3_100_000_000int * 3_100_000_000int)
                by (nonlinear_arith)
                requires
                    0 <= mid as int,
                    mid as int <= 3_100_000_000int,
            ;
        }
        if mid * mid >= n {
            hi = mid;
        } else {
            lo = mid;
        }
    }
    assert(hi == lo + 1);
    hi
}

/// Truncated division of a signed value by a positive one.
pub(crate) fn div_trunc(a: i64, b: i64) -> (r: i64)
    requires
        1 <= b,
        -0x7fff_ffff_ffff_ffff <= a,
    ensures
        r == tdiv(a as int, b as int),
{
    if a >= 0 {
        proof {
            assert(a as int <= (b as int) * (a as int)) by (nonlinear_arith)
                requires
                    1 <= b as int,
                    0 <= a as int,
            ;
            lemma_div_le_mul(a as int, b as int, a as int);
        }
        let q: u64 = (a as u64) / (b as u64);
        q as i64
    } else {
        let pa: u64 = (-a) as u64;
        proof {
            assert(pa as int <= (b as int) * (pa as int)) by (nonlinear_arith)
                requires
                    1 <= b as int,
                    0 <= pa as int,
            ;
            lemma_div_le_mul(pa as int, b as int, pa as int);
        }
        let q: u64 = pa / (b as u64);
        -(q as i64)
    }
}

impl Vec2 {
    /// Componentwise sum.
    pub fn add(&self, other: &Vec2) -> (r: Vec2)
        requires
            bounded(self@, SUM_CAP as int),
            bounded(other@, SUM_CAP as int),
        ensures
            r@ == vadd(self@, other@),
    {
        Vec2 { x: self.x + other.x, y: self.y + other.y }
    }

    /// Componentwise difference.
    pub fn sub(&self, other: &Vec2) -> (r: Vec2)
        requires
            bounded(self@, SUM_CAP as int),
            bounded(other@, SUM_CAP as int),
        ensures
            r@ == vsub(self@, other@),
    {
        Vec2 { x: self.x - other.x, y: self.y - other.y }
    }

    /// Squared Euclidean norm.
    pub fn norm_sq(&self) -> (r: i64)
        requires
            bounded(self@, DIFF_CAP as int),
        ensures
            r == nsq(self@),
    {
        proof {
            assert(0 <= (self@.0) * (self@.0) <= 4_000_000_000_000_000_000int
                && 0 <= (self@.1) * (self@.1) <= 4_000_000_000_000_000_000int)
                by (nonlinear_arith)
                requires
                    -2_000_000_000 <= self@.0 <= 2_000_000_000,
                    -2_000_000_000 <= self@.1 <= 2_000_000_000,
            ;
        }
        self.x * self.x + self.y * self.y
    }

    /// Scalar product, for velocity-sized vectors.
    pub fn dot(&self, other: &Vec2) -> (r: i64)
        requires
            bounded(self@, VEL_CAP as int),
            bounded(other@, VEL_CAP as int),
        ensures
            r == dot(self@, other@),
    {
        proof {
            assert(-100_000_000int <= (self@.0) * (other@.0) <= 100_000_000int
                && -100_000_000int <= (self@.1) * (other@.1) <= 100_000_000int)
                by (nonlinear_arith)
                requires
                    -10_000 <= self@.0 <= 10_000,
                    -10_000 <= self@.1 <= 10_000,
                    -10_000 <= other@.0 <= 10_000,
                    -10_000 <= other@.1 <= 10_000,
            ;
        }
        self.x * other.x + self.y * other.y
    }
}

/// Length-clamping operations and the field-of-view test.
pub trait MaxLength: View<V = (int, int)> {
    /// Clamp to length at most `max`.
    fn limit(&self, max: i64) -> (r: Vec2)
        requires
            bounded(self@, DIFF_CAP as int),
            0 <= max <= VEL_CAP,
        ensures
            r@ == limit_spec(self@, max as int),
            nsq(r@) <= (max as int) * (max as int),
            bounded(r@, max as int),
    ;

    /// Rescale to length `max`, within two steps: a nonzero vector's
    /// new length lands in `[max - 2, max]`.  The zero vector stays
    /// zero.
    fn magnitude(&self, max: i64) -> (r: Vec2)
        requires
            bounded(self@, DIFF_CAP as int),
            0 <= max <= VEL_CAP,
        ensures
            r@ == set_mag_spec(self@, max as int),
            nsq(r@) <= (max as int) * (max as int),
            bounded(r@, max as int),
            !(self@.0 == 0 && self@.1 == 0) && 2 <= max ==> nsq(r@) >= (max as int - 2) * (
            max as int - 2),
    ;

    /// The angle with `other` is strictly under 60 degrees.
    fn angle_within(&self, other: &Vec2) -> (r: bool)
        requires
            bounded(self@, VEL_CAP as int),
            bounded(other@, VEL_CAP as int),
        ensures
            r == cone_spec(self@, other@),
    ;
}

/// One coordinate of a rescaled vector: `x * max / s`, truncated.
fn mag_component(x: i64, max: i64, s: u64) -> (r: i64)
    requires
        -(DIFF_CAP as int) <= x as int <= DIFF_CAP as int,
        0 <= max <= VEL_CAP,
        1 <= s,
    ensures
        r == tdiv((x as int) * (max as int), s as int),
{
    let ax: u64 = if x >= 0 {
        x as u64
    } else {
        (-x) as u64
    };
    proof {
        assert((ax as int) * (max as int) <= 20_000_000_000_000int
            && 0 <= (ax as int) * (max as int)) by (nonlinear_arith)
            requires
                0 <= ax as int <= 2_000_000_000,
                0 <= max as int <= 10_000,
        ;
    }
    let prod: u64 = ax * (max as u64);
    proof {
        assert(prod as int <= (s as int) * (prod as int)) by (nonlinear_arith)
            requires
                1 <= s as int,
                0 <= prod as int,
        ;
        lemma_div_le_mul(prod as int, s as int, prod as int);
        assert((ax as int) * (max as int) == if x >= 0 {
            (x as int) * (max as int)
        } else {
            -((x as int) * (max as int))
        }) by (nonlinear_arith)
            requires
                ax as int == if x >= 0 { x as int } else { -(x as int) },
        ;
    }
    let q: u64 = prod / s;
    if x >= 0 {
        q as i64
    } else {
        -(q as i64)
    }
}

impl MaxLength for Vec2 {
    fn limit(&self, max: i64) -> (r: Vec2) {
        proof {
            assert(0 <= (max as int) * (max as int) <= 100_000_000int) by (nonlinear_arith)
                requires
                    0 <= max as int <= 10_000,
            ;
            lemma_limit_le(self@, max as int);
        }
        let n: i64 = self.norm_sq();
        if n > max * max {
            self.magnitude(max)
        } else {
            *self
        }
    }

    fn magnitude(&self, max: i64) -> (r: Vec2) {
        proof {
            lemma_set_mag_le(self@, max as int);
        }
        if self.x == 0 && self.y == 0 {
            return *self;
        }
        proof {
            lemma_mag_scale(self@);
            lemma_vscaled_nonzero(self@);
            lemma_set_mag_lower(self@, max as int);
        }
        let ax: i64 = if self.x >= 0 {
            self.x
        } else {
            -self.x
        };
        let ay: i64 = if self.y >= 0 {
            self.y
        } else {
            -self.y
        };
        let a: i64 = if ax >= ay {
            ax
        } else {
            ay
        };
        let k: i64 = if a >= 1_000_000 {
            1
        } else {
            div_trunc(1_000_000, a)
        };
        proof {
            assert(a as int == max_abs(self@));
            assert(k as int == mag_scale(self@));
            assert(-2_000_000_000 <= self@.0 * (k as int) <= 2_000_000_000
                && -2_000_000_000 <= self@.1 * (k as int) <= 2_000_000_000) by (nonlinear_arith)
                requires
                    1 <= k as int,
                    -2_000_000_000 <= self@.0 <= 2_000_000_000,
                    -2_000_000_000 <= self@.1 <= 2_000_000_000,
                    -(a as int) <= self@.0 <= a as int,
                    -(a as int) <= self@.1 <= a as int,
                    (a as int) * (k as int) <= 1_000_000 || k as int == 1,
            ;
        }
        let u: Vec2 = Vec2 { x: self.x * k, y: self.y * k };
        proof {
            assert(u@ == vscaled(self@));
        }
        let n: i64 = u.norm_sq();
        proof {
            lemma_nsq_nonneg(u@);
            assert(1 <= nsq(u@)) by (nonlinear_arith)
                requires
                    !(u@.0 == 0 && u@.1 == 0),
                    nsq(u@) == u@.0 * u@.0 + u@.1 * u@.1,
            ;
        }
        let s: u64 = csqrt(n as u64);
        proof {
            lemma_csqrt_props(nsq(u@));
            lemma_csqrt_unique(nsq(u@), s as int, csqrt_of(nsq(u@)));
            assert(1 <= s as int) by (nonlinear_arith)
                requires
                    0 <= s as int,
                    1 <= nsq(u@),
                    nsq(u@) <= (s as int) * (s as int),
            ;
        }
        Vec2 { x: mag_component(u.x, max, s), y: mag_component(u.y, max, s) }
    }

    fn angle_within(&self, other: &Vec2) -> (r: bool) {
        let d: i64 = self.dot(other);
        if d <= 0 {
            return false;
        }
        let na: i64 = self.norm_sq();
        let nb: i64 = other.norm_sq();
        proof {
            assert(0 <= na as int <= 200_000_000int && 0 <= nb as int <= 200_000_000int
                && -200_000_000int <= d as int <= 200_000_000int) by (nonlinear_arith)
                requires
                    -10_000 <= self@.0 <= 10_000,
                    -10_000 <= self@.1 <= 10_000,
                    -10_000 <= other@.0 <= 10_000,
                    -10_000 <= other@.1 <= 10_000,
                    na as int == self@.0 * self@.0 + self@.1 * self@.1,
                    nb as int == other@.0 * other@.0 + other@.1 * other@.1,
                    d as int == self@.0 * other@.0 + self@.1 * other@.1,
            ;
            assert(0 <= (na as int) * (nb as int) <= 40_000_000_000_000_000int)
                by (nonlinear_arith)
                requires
                    0 <= na as int <= 200_000_000,
                    0 <= nb as int <= 200_000_000,
            ;
            assert(0 <= (d as int) * (d as int) <= 40_000_000_000_000_000int)
                by (nonlinear_arith)
                requires
                    -200_000_000 <= d as int <= 200_000_000,
            ;
            assert(4 * (d as int) * (d as int) == 4 * ((d as int) * (d as int)))
                by (nonlinear_arith);
        }
        let lhs: i64 = 4 * (d * d);
        let rhs: i64 = na * nb;
        lhs > rhs
    }
}

} // verus!
