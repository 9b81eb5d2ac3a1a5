//! Vector algebra over fixed-point triples.
//!
//! A [`Vec3`] serves interchangeably as a spatial point, a direction, or a
//! linear-light color, exactly as the rest of the pipeline needs it. All
//! operations state the computed value exactly, truncations included, so the
//! geometric reasoning above them (intersection, scattering, the integrator)
//! can be pinned down to the bit.

use vstd::prelude::*;

use crate::fixed::{iabs, isqrt, isqrt_spec, lemma_isqrt_le, lemma_isqrt_spec,
    lemma_isqrt_unique, lemma_mul_3sum, lemma_mul_shuffle, lemma_square_nonneg,
    lemma_sub_square, lemma_tdiv_bound, lemma_tdiv_magnitude, mul_fx, tdiv, SCALE};

verus! {

/// Coordinate limit for points of the world (positions, sphere centers):
/// 4096 world units, `2^28` raw.
pub const COORD_LIMIT: i64 = 268435456;

/// Limit under which all vector arithmetic is free of 128-bit overflow
/// (`2^60` raw).
pub const VEC_LIMIT: i64 = 1152921504606846976;

/// Limit on the components of a direction handed to [`normalize`] by way of
/// a ray constructor (`2^30` raw, 16384 world units).
pub const DIR_LIMIT: i64 = 1073741824;

/// Smallest squared norm a vector may have before normalization: one
/// quarter of a unit, squared (`(SCALE/4)^2`). Anything shorter is
/// degenerate.
pub const MIN_DIR_NSQ: i64 = 268435456;

/// Lower bound on the squared norm of a normalized vector:
/// `SCALE^2 - 13*SCALE`.
pub const UNIT_NSQ_LO: i64 = 4294115328;

/// Upper bound on the squared norm of a normalized vector:
/// `SCALE^2 + 13*SCALE`.
pub const UNIT_NSQ_HI: i64 = 4295819264;

/// An ordered triple of fixed-point scalars: a point, a direction, or a
/// color, depending on where it flows.
#[derive(Clone, Copy, PartialEq, Eq, Structural, Debug)]
pub struct Vec3 {
    pub x: i64,
    pub y: i64,
    pub z: i64,
}

/// Every component lies in `[-b, b]`.
pub open spec fn in_bounds(v: Vec3, b: int) -> bool {
    &&& -b <= v.x <= b
    &&& -b <= v.y <= b
    &&& -b <= v.z <= b
}

/// Every component lies in `[0, SCALE]`: a valid color or albedo.
pub open spec fn color_ok(v: Vec3) -> bool {
    &&& 0 <= v.x <= SCALE
    &&& 0 <= v.y <= SCALE
    &&& 0 <= v.z <= SCALE
}

/// The dot product, unscaled: the raw result counts `1/SCALE^2` units.
pub open spec fn spec_dot(a: Vec3, b: Vec3) -> int {
    a.x * b.x + a.y * b.y + a.z * b.z
}

/// The squared Euclidean norm, unscaled like [`spec_dot`].
pub open spec fn spec_norm_sq(v: Vec3) -> int {
    spec_dot(v, v)
}

pub open spec fn spec_sum(a: Vec3, b: Vec3) -> Vec3 {
    Vec3 { x: (a.x + b.x) as i64, y: (a.y + b.y) as i64, z: (a.z + b.z) as i64 }
}

pub open spec fn spec_sub(a: Vec3, b: Vec3) -> Vec3 {
    Vec3 { x: (a.x - b.x) as i64, y: (a.y - b.y) as i64, z: (a.z - b.z) as i64 }
}

pub open spec fn spec_negate(v: Vec3) -> Vec3 {
    Vec3 { x: (-v.x) as i64, y: (-v.y) as i64, z: (-v.z) as i64 }
}

/// The element-wise fixed-point product, used to fold an albedo into a
/// running attenuation.
pub open spec fn spec_attenuate(a: Vec3, b: Vec3) -> Vec3 {
    Vec3 {
        x: tdiv(a.x * b.x, SCALE as int) as i64,
        y: tdiv(a.y * b.y, SCALE as int) as i64,
        z: tdiv(a.z * b.z, SCALE as int) as i64,
    }
}

/// The vector scaled by the fixed-point factor `t`.
pub open spec fn spec_scale(t: int, v: Vec3) -> Vec3 {
    Vec3 {
        x: tdiv(t * v.x, SCALE as int) as i64,
        y: tdiv(t * v.y, SCALE as int) as i64,
        z: tdiv(t * v.z, SCALE as int) as i64,
    }
}

/// The vector divided by its own norm, componentwise, truncating:
/// `v_i * SCALE / |v|`.
pub open spec fn spec_normalize(v: Vec3) -> Vec3 {
    let n = isqrt_spec(spec_norm_sq(v));
    Vec3 {
        x: tdiv(v.x * SCALE, n) as i64,
        y: tdiv(v.y * SCALE, n) as i64,
        z: tdiv(v.z * SCALE, n) as i64,
    }
}

/// The mirror reflection `d - 2 (d . n) n` of `d` about the unit normal `n`,
/// with both products truncated to the fixed-point grid.
pub open spec fn spec_reflect(d: Vec3, n: Vec3) -> Vec3 {
    let k = tdiv(2 * spec_dot(d, n), SCALE as int);
    Vec3 {
        x: (d.x - tdiv(k * n.x, SCALE as int)) as i64,
        y: (d.y - tdiv(k * n.y, SCALE as int)) as i64,
        z: (d.z - tdiv(k * n.z, SCALE as int)) as i64,
    }
}

/// A normalized direction: components within one unit, squared norm within
/// `13 * SCALE` of an exact unit's.
pub open spec fn near_unit(v: Vec3) -> bool {
    &&& in_bounds(v, SCALE as int)
    &&& UNIT_NSQ_LO <= spec_norm_sq(v) <= UNIT_NSQ_HI
}

/// A product is bounded by the product of the bounds.
pub proof fn lemma_abs_mul(a: int, b: int, ba: int, bb: int)
    requires
        iabs(a) <= ba,
        iabs(b) <= bb,
    ensures
        iabs(a * b) <= ba * bb,
{
    assert(iabs(a * b) <= ba * bb) by (nonlinear_arith)
        requires
            -ba <= a <= ba,
            -bb <= b <= bb,
    ;
}

/// The dot product of bounded vectors is bounded by three times the product
/// of the bounds.
pub proof fn lemma_dot_bound(a: Vec3, b: Vec3, ba: int, bb: int)
    requires
        ba >= 0,
        bb >= 0,
        in_bounds(a, ba),
        in_bounds(b, bb),
    ensures
        iabs(spec_dot(a, b)) <= 3 * ba * bb,
{
    lemma_abs_mul(a.x as int, b.x as int, ba, bb);
    lemma_abs_mul(a.y as int, b.y as int, ba, bb);
    lemma_abs_mul(a.z as int, b.z as int, ba, bb);
    assert(3 * ba * bb == ba * bb + ba * bb + ba * bb) by (nonlinear_arith);
}

/// The Cauchy–Schwarz inequality: a dot product squared never exceeds the
/// product of the squared norms. By Lagrange's identity, the difference of
/// the two sides is a sum of three squares.
pub proof fn lemma_cauchy_schwarz(u: Vec3, v: Vec3)
    ensures
        spec_dot(u, v) * spec_dot(u, v) <= spec_norm_sq(u) * spec_norm_sq(v),
{
    let (x1, x2, x3) = (u.x as int, u.y as int, u.z as int);
    let (y1, y2, y3) = (v.x as int, v.y as int, v.z as int);
    // Lagrange's identity, assembled from shallow pieces: expand both
    // products over opaque pairwise monomials, fold each off-diagonal group
    // into one of the three squares, and add the squares' nonnegativity.
    lemma_mul_3sum(x1 * x1, x2 * x2, x3 * x3, y1 * y1, y2 * y2, y3 * y3);
    lemma_mul_3sum(x1 * y1, x2 * y2, x3 * y3, x1 * y1, x2 * y2, x3 * y3);
    lemma_mul_shuffle(x1, y1, x1, y1);
    lemma_mul_shuffle(x2, y2, x2, y2);
    lemma_mul_shuffle(x3, y3, x3, y3);
    lemma_mul_shuffle(x2, y2, x1, y1);
    lemma_mul_shuffle(x3, y3, x1, y1);
    lemma_mul_shuffle(x3, y3, x2, y2);
    lemma_sub_square(x1 * y2, x2 * y1);
    lemma_sub_square(x1 * y3, x3 * y1);
    lemma_sub_square(x2 * y3, x3 * y2);
    lemma_mul_shuffle(x1, y2, x1, y2);
    lemma_mul_shuffle(x2, y1, x2, y1);
    lemma_mul_shuffle(x1, y3, x1, y3);
    lemma_mul_shuffle(x3, y1, x3, y1);
    lemma_mul_shuffle(x2, y3, x2, y3);
    lemma_mul_shuffle(x3, y2, x3, y2);
    lemma_mul_shuffle(x1, y2, x2, y1);
    lemma_mul_shuffle(x1, y3, x3, y1);
    lemma_mul_shuffle(x2, y3, x3, y2);
    lemma_square_nonneg(x1 * y2 - x2 * y1);
    lemma_square_nonneg(x1 * y3 - x3 * y1);
    lemma_square_nonneg(x2 * y3 - x3 * y2);
}


/// A squared norm is never negative.
pub proof fn lemma_norm_sq_nonneg(v: Vec3)
    ensures
        spec_norm_sq(v) >= 0,
{
    assert(v.x * v.x >= 0 && v.y * v.y >= 0 && v.z * v.z >= 0) by (nonlinear_arith);
}

/// Negation keeps the squared norm and every bound.
pub proof fn lemma_negate_norm_sq(v: Vec3)
    requires
        in_bounds(v, VEC_LIMIT as int),
    ensures
        spec_norm_sq(spec_negate(v)) == spec_norm_sq(v),
{
    assert((-v.x) * (-v.x) == v.x * v.x && (-v.y) * (-v.y) == v.y * v.y && (-v.z) * (-v.z)
        == v.z * v.z) by (nonlinear_arith);
}

/// Element-wise vector addition.
pub fn sum(v1: &Vec3, v2: &Vec3) -> (r: Vec3)
    requires
        in_bounds(*v1, VEC_LIMIT as int),
        in_bounds(*v2, VEC_LIMIT as int),
    ensures
        r == spec_sum(*v1, *v2),
{
    Vec3 { x: v1.x + v2.x, y: v1.y + v2.y, z: v1.z + v2.z }
}

/// Element-wise vector subtraction.
pub fn diff(v1: &Vec3, v2: &Vec3) -> (r: Vec3)
    requires
        in_bounds(*v1, VEC_LIMIT as int),
        in_bounds(*v2, VEC_LIMIT as int),
    ensures
        r == spec_sub(*v1, *v2),
{
    Vec3 { x: v1.x - v2.x, y: v1.y - v2.y, z: v1.z - v2.z }
}

/// The vector pointing the opposite way.
pub fn negate_vector(v: &Vec3) -> (r: Vec3)
    requires
        in_bounds(*v, VEC_LIMIT as int),
    ensures
        r == spec_negate(*v),
{
    Vec3 { x: -v.x, y: -v.y, z: -v.z }
}

/// The dot product. The raw result counts `1/SCALE^2` units, so a caller
/// comparing it against a fixed-point scalar must rescale.
pub fn dot(v1: &Vec3, v2: &Vec3) -> (r: i128)
    requires
        in_bounds(*v1, VEC_LIMIT as int),
        in_bounds(*v2, VEC_LIMIT as int),
    ensures
        r as int == spec_dot(*v1, *v2),
{
    proof {
        lemma_abs_mul(v1.x as int, v2.x as int, VEC_LIMIT as int, VEC_LIMIT as int);
        lemma_abs_mul(v1.y as int, v2.y as int, VEC_LIMIT as int, VEC_LIMIT as int);
        lemma_abs_mul(v1.z as int, v2.z as int, VEC_LIMIT as int, VEC_LIMIT as int);
    }
    (v1.x as i128) * (v2.x as i128) + (v1.y as i128) * (v2.y as i128) + (v1.z as i128) * (v2.z
        as i128)
}

/// The squared Euclidean norm, unscaled like [`dot`].
pub fn l2_norm_squared(vector: &Vec3) -> (r: i128)
    requires
        in_bounds(*vector, VEC_LIMIT as int),
    ensures
        r as int == spec_norm_sq(*vector),
        r >= 0,
{
    proof {
        lemma_norm_sq_nonneg(*vector);
    }
    dot(vector, vector)
}

/// The element-wise fixed-point product of two colors.
pub fn attenuate(a: &Vec3, b: &Vec3) -> (r: Vec3)
    requires
        color_ok(*a),
        color_ok(*b),
    ensures
        r == spec_attenuate(*a, *b),
        color_ok(r),
{
    proof {
        lemma_attenuate_color(*a, *b);
        lemma_abs_mul(a.x as int, b.x as int, SCALE as int, SCALE as int);
        lemma_abs_mul(a.y as int, b.y as int, SCALE as int, SCALE as int);
        lemma_abs_mul(a.z as int, b.z as int, SCALE as int, SCALE as int);
    }
    Vec3 { x: mul_fx(a.x, b.x), y: mul_fx(a.y, b.y), z: mul_fx(a.z, b.z) }
}

/// Attenuating one color by another yields a color: the fixed-point product
/// of values in `[0, 1]` stays in `[0, 1]`.
pub proof fn lemma_attenuate_color(a: Vec3, b: Vec3)
    requires
        color_ok(a),
        color_ok(b),
    ensures
        color_ok(spec_attenuate(a, b)),
{
    lemma_attenuate_component(a.x as int, b.x as int);
    lemma_attenuate_component(a.y as int, b.y as int);
    lemma_attenuate_component(a.z as int, b.z as int);
}

/// One component of a normalization: `q = xi * SCALE / n` truncated, where
/// `n` is the integer square root of the squared norm `n2`.
proof fn lemma_normalize_component(xi: int, n: int, n2: int)
    requires
        n >= 1,
        n * n <= n2,
        n2 < (n + 1) * (n + 1),
        xi * xi <= n2,
    ensures
        iabs(tdiv(xi * SCALE, n)) <= SCALE,
        tdiv(xi * SCALE, n) * tdiv(xi * SCALE, n) * (n * n) <= xi * xi * ((SCALE * SCALE)
            as int),
        xi * xi * ((SCALE * SCALE) as int) < (iabs(tdiv(xi * SCALE, n)) + 1) * (iabs(tdiv(xi
            * SCALE, n)) + 1) * (n * n),
{
    let q = tdiv(xi * SCALE, n);
    let m = iabs(q);
    lemma_tdiv_magnitude(xi * SCALE, n);
    assert(iabs(xi * SCALE) == iabs(xi) * SCALE) by (nonlinear_arith);
    assert(iabs(xi) <= n) by (nonlinear_arith)
        requires
            n >= 1,
            xi * xi <= n2,
            n2 < (n + 1) * (n + 1),
    ;
    assert(m <= SCALE) by (nonlinear_arith)
        requires
            n >= 1,
            m >= 0,
            m * n <= iabs(xi) * SCALE,
            iabs(xi) <= n,
    ;
    assert(q * q * (n * n) <= xi * xi * ((SCALE * SCALE) as int)) by (nonlinear_arith)
        requires
            m == iabs(q),
            m * n <= iabs(xi) * SCALE,
            iabs(xi * SCALE) == iabs(xi) * SCALE,
            n >= 1,
    ;
    assert(xi * xi * ((SCALE * SCALE) as int) < (m + 1) * (m + 1) * (n * n))
        by (nonlinear_arith)
        requires
            m == iabs(q),
            iabs(xi) * SCALE < (m + 1) * n,
            n >= 1,
    ;
}

/// Normalizing a vector that is at least a quarter of a unit long yields a
/// vector whose squared norm is within `13 * SCALE` of one unit's: the
/// truncation of each component loses less than one fixed-point step.
pub proof fn lemma_normalize_near_unit(v: Vec3)
    requires
        in_bounds(v, DIR_LIMIT as int),
        spec_norm_sq(v) >= MIN_DIR_NSQ as int,
    ensures
        near_unit(spec_normalize(v)),
        isqrt_spec(spec_norm_sq(v)) >= 16384,
        iabs(tdiv(v.x * SCALE, isqrt_spec(spec_norm_sq(v)))) <= SCALE,
        iabs(tdiv(v.y * SCALE, isqrt_spec(spec_norm_sq(v)))) <= SCALE,
        iabs(tdiv(v.z * SCALE, isqrt_spec(spec_norm_sq(v)))) <= SCALE,
{
    let n2 = spec_norm_sq(v);
    let n = isqrt_spec(n2);
    lemma_isqrt_spec(n2);
    assert(16384 * 16384 <= 268435456 < 16385 * 16385) by (nonlinear_arith);
    lemma_isqrt_unique(268435456, 16384);
    lemma_isqrt_le(268435456, n2);
    assert(v.y * v.y >= 0 && v.z * v.z >= 0 && v.x * v.x >= 0) by (nonlinear_arith);
    lemma_normalize_component(v.x as int, n, n2);
    lemma_normalize_component(v.y as int, n, n2);
    lemma_normalize_component(v.z as int, n, n2);
    let q1 = tdiv(v.x * SCALE, n);
    let q2 = tdiv(v.y * SCALE, n);
    let q3 = tdiv(v.z * SCALE, n);
    let p = q1 * q1 + q2 * q2 + q3 * q3;
    let m1 = iabs(q1);
    let m2 = iabs(q2);
    let m3 = iabs(q3);
    let ss = (SCALE * SCALE) as int;
    // Summing the three componentwise upper bounds:
    assert(p * (n * n) == q1 * q1 * (n * n) + q2 * q2 * (n * n) + q3 * q3 * (n * n))
        by (nonlinear_arith)
        requires
            p == q1 * q1 + q2 * q2 + q3 * q3,
    ;
    assert(n2 * ss == v.x * v.x * ss + v.y * v.y * ss + v.z * v.z * ss) by (nonlinear_arith)
        requires
            n2 == v.x * v.x + v.y * v.y + v.z * v.z,
    ;
    assert(p * (n * n) <= n2 * ss);
    // ... the squared norm cannot overshoot one unit's by more than 12 steps:
    assert(p <= SCALE * SCALE + 12 * SCALE) by (nonlinear_arith)
        requires
            n >= 16384,
            ss == (SCALE * SCALE) as int,
            SCALE == 65536,
            p * (n * n) <= n2 * ss,
            n2 < (n + 1) * (n + 1),
    ;
    // ... and the componentwise strict lower bounds keep it from falling
    // more than 6 steps and change short:
    assert((m1 + 1) * (m1 + 1) * (n * n) + (m2 + 1) * (m2 + 1) * (n * n) + (m3 + 1) * (m3 + 1)
        * (n * n) == (p + 2 * (m1 + m2 + m3) + 3) * (n * n)) by (nonlinear_arith)
        requires
            p == q1 * q1 + q2 * q2 + q3 * q3,
            m1 == iabs(q1),
            m2 == iabs(q2),
            m3 == iabs(q3),
    ;
    assert(p >= SCALE * SCALE - 6 * SCALE - 3) by (nonlinear_arith)
        requires
            n >= 16384,
            ss == (SCALE * SCALE) as int,
            SCALE == 65536,
            n2 * ss < (p + 2 * (m1 + m2 + m3) + 3) * (n * n),
            n * n <= n2,
            0 <= m1 <= SCALE,
            0 <= m2 <= SCALE,
            0 <= m3 <= SCALE,
    ;
}

/// Normalization: the vector divided by its own Euclidean norm, yielding a
/// unit direction up to fixed-point truncation. The argument must be at
/// least a quarter of a unit long; shorter vectors are degenerate and must
/// be rejected by the caller.
pub fn normalize(vector: &Vec3) -> (r: Vec3)
    requires
        in_bounds(*vector, DIR_LIMIT as int),
        spec_norm_sq(*vector) >= MIN_DIR_NSQ as int,
    ensures
        r == spec_normalize(*vector),
        near_unit(r),
{
    proof {
        lemma_normalize_near_unit(*vector);
        lemma_norm_sq_nonneg(*vector);
        lemma_dot_bound(*vector, *vector, DIR_LIMIT as int, DIR_LIMIT as int);
    }
    let n2 = l2_norm_squared(vector);
    let n = isqrt(n2 as u128);
    let x = ((vector.x as i128) * (SCALE as i128)) / (n as i128);
    let y = ((vector.y as i128) * (SCALE as i128)) / (n as i128);
    let z = ((vector.z as i128) * (SCALE as i128)) / (n as i128);
    Vec3 { x: x as i64, y: y as i64, z: z as i64 }
}

/// The vector scaled by the fixed-point factor `t`, componentwise.
pub fn scale(t: i64, v: &Vec3) -> (r: Vec3)
    requires
        iabs(t as int) <= 0x4_0000_0000_0000,
        in_bounds(*v, SCALE as int),
    ensures
        r == spec_scale(t as int, *v),
        in_bounds(r, iabs(t as int)),
{
    proof {
        lemma_abs_mul(t as int, v.x as int, iabs(t as int), SCALE as int);
        lemma_abs_mul(t as int, v.y as int, iabs(t as int), SCALE as int);
        lemma_abs_mul(t as int, v.z as int, iabs(t as int), SCALE as int);
        lemma_tdiv_bound(t * v.x, SCALE as int, iabs(t as int));
        lemma_tdiv_bound(t * v.y, SCALE as int, iabs(t as int));
        lemma_tdiv_bound(t * v.z, SCALE as int, iabs(t as int));
        assert(iabs(t as int) * (SCALE as int) <= 0x4_0000_0000_0000 * (SCALE as int))
            by (nonlinear_arith)
            requires
                iabs(t as int) <= 0x4_0000_0000_0000,
                SCALE == 65536,
        ;
    }
    Vec3 { x: mul_fx(t, v.x), y: mul_fx(t, v.y), z: mul_fx(t, v.z) }
}

/// The mirror reflection of `incoming` about the unit surface `normal`:
/// `d - 2 (d . n) n`, on the fixed-point grid.
pub fn reflect(incoming: &Vec3, normal: &Vec3) -> (r: Vec3)
    requires
        in_bounds(*incoming, DIR_LIMIT as int),
        in_bounds(*normal, DIR_LIMIT as int),
    ensures
        r == spec_reflect(*incoming, *normal),
        in_bounds(*incoming, SCALE as int) && in_bounds(*normal, SCALE as int) ==> in_bounds(
            r, 7 * SCALE as int),
{
    proof {
        lemma_reflect_bounds(*incoming, *normal);
        lemma_dot_bound(*incoming, *normal, DIR_LIMIT as int, DIR_LIMIT as int);
    }
    let d2: i128 = 2 * dot(incoming, normal);
    let k: i64 = (d2 / (SCALE as i128)) as i64;
    proof {
        lemma_abs_mul(k as int, normal.x as int, iabs(k as int), DIR_LIMIT as int);
        lemma_abs_mul(k as int, normal.y as int, iabs(k as int), DIR_LIMIT as int);
        lemma_abs_mul(k as int, normal.z as int, iabs(k as int), DIR_LIMIT as int);
        assert(iabs(k as int) * (DIR_LIMIT as int) <= 0x8000_0000_0000 * (DIR_LIMIT as int))
            by (nonlinear_arith)
            requires
                iabs(k as int) <= 0x8000_0000_0000,
        ;
        lemma_tdiv_bound(k * normal.x, SCALE as int, 0x4000_0000_0000_0000);
        lemma_tdiv_bound(k * normal.y, SCALE as int, 0x4000_0000_0000_0000);
        lemma_tdiv_bound(k * normal.z, SCALE as int, 0x4000_0000_0000_0000);
    }
    Vec3 {
        x: incoming.x - mul_fx(k, normal.x),
        y: incoming.y - mul_fx(k, normal.y),
        z: incoming.z - mul_fx(k, normal.z),
    }
}

/// Bounds feeding [`reflect`]: the scaled projection coefficient and the
/// correction it subtracts stay well inside the 64-bit range, and for unit
/// inputs the reflection stays within seven units.
proof fn lemma_reflect_bounds(d: Vec3, n: Vec3)
    requires
        in_bounds(d, DIR_LIMIT as int),
        in_bounds(n, DIR_LIMIT as int),
    ensures
        iabs(tdiv(2 * spec_dot(d, n), SCALE as int)) <= 0x8000_0000_0000,
        in_bounds(d, SCALE as int) && in_bounds(n, SCALE as int) ==> in_bounds(spec_reflect(d,
            n), 7 * SCALE as int),
{
    lemma_dot_bound(d, n, DIR_LIMIT as int, DIR_LIMIT as int);
    let k = tdiv(2 * spec_dot(d, n), SCALE as int);
    assert(3 * (DIR_LIMIT as int) * (DIR_LIMIT as int) * 2 <= 0x8000_0000_0000 * (SCALE
        as int)) by (nonlinear_arith);
    lemma_tdiv_bound(2 * spec_dot(d, n), SCALE as int, 0x8000_0000_0000);
    if in_bounds(d, SCALE as int) && in_bounds(n, SCALE as int) {
        lemma_dot_bound(d, n, SCALE as int, SCALE as int);
        assert(3 * (SCALE as int) * SCALE * 2 <= 6 * SCALE * (SCALE as int))
            by (nonlinear_arith);
        lemma_tdiv_bound(2 * spec_dot(d, n), SCALE as int, 6 * SCALE as int);
        lemma_abs_mul(k, n.x as int, 6 * SCALE as int, SCALE as int);
        lemma_abs_mul(k, n.y as int, 6 * SCALE as int, SCALE as int);
        lemma_abs_mul(k, n.z as int, 6 * SCALE as int, SCALE as int);
        assert(6 * (SCALE as int) * SCALE == 6 * SCALE * (SCALE as int)) by (nonlinear_arith);
        lemma_tdiv_bound(k * n.x, SCALE as int, 6 * SCALE as int);
        lemma_tdiv_bound(k * n.y, SCALE as int, 6 * SCALE as int);
        lemma_tdiv_bound(k * n.z, SCALE as int, 6 * SCALE as int);
    }
}

proof fn lemma_attenuate_component(a: int, b: int)
    requires
        0 <= a <= SCALE,
        0 <= b <= SCALE,
    ensures
        0 <= tdiv(a * b, SCALE as int) <= SCALE,
{
    assert(0 <= a * b <= SCALE * (SCALE as int)) by (nonlinear_arith)
        requires
            0 <= a <= SCALE,
            0 <= b <= SCALE,
    ;
    lemma_tdiv_magnitude(a * b, SCALE as int);
    lemma_tdiv_bound(a * b, SCALE as int, SCALE as int);
}

} // verus!
