//! The scene: spheres, materials, intersections and scattering.
//!
//! A [`Sphere`] is validated at construction (positive radius, center inside
//! the world volume, albedo a color), and a ray/sphere intersection returns
//! an explicit [`HitRecord`] or nothing — never a sentinel value. Across a
//! scene, [`nearest_hit`] selects the intersection with the globally
//! smallest ray parameter, the nearest-surface rule.

use vstd::prelude::*;

use crate::fixed::{iabs, isqrt, isqrt_spec, lemma_add_square, lemma_isqrt_spec, lemma_mul_comm,
    lemma_mul_shuffle, lemma_square_nonneg, lemma_sub_square, lemma_tdiv_bound, lemma_tdiv_rem,
    tdiv, SCALE};
use crate::ray::{random_unit_sphere_vector, spec_ruv, Ray, RUV_FUEL};
use crate::rng::RandomSource;
use crate::vec3::{color_ok, diff, dot, in_bounds, lemma_abs_mul,
    lemma_cauchy_schwarz, lemma_dot_bound, lemma_negate_norm_sq, near_unit, negate_vector,
    normalize, reflect, scale, spec_dot, spec_negate, spec_norm_sq, spec_normalize,
    spec_reflect, spec_scale, spec_sub, spec_sum, sum, Vec3, COORD_LIMIT, MIN_DIR_NSQ,
    UNIT_NSQ_HI, UNIT_NSQ_LO};

verus! {

/// Largest magnitude a computed intersection parameter can have, given the
/// world-volume bounds: `2^35` raw.
pub const ROOT_LIMIT: i64 = 34359738368;

/// Smallest renderable sphere radius: a quarter of a unit plus a margin of
/// 16 steps. The computed contact point of a hit can land up to a few steps
/// off the sphere's shell (the root, the square root inside it, and each
/// point component all truncate), and the surface normal at the contact
/// point must still be at least [`MIN_DIR_NSQ`] long to normalize; this
/// floor keeps every hit's normal well clear of that bound.
pub const MIN_RADIUS: i64 = 16400;

/// How a surface answers a ray.
#[derive(Clone, Copy, PartialEq, Eq, Structural, Debug)]
pub enum Material {
    Metal,
    Lambertian,
}

/// The result of a successful ray/sphere intersection: where, how far along
/// the ray, and what surface was struck. Created per test, never mutated.
#[derive(Clone, Copy, PartialEq, Eq, Structural, Debug)]
pub struct HitRecord {
    pub point_of_contact: Vec3,
    pub normal: Vec3,
    pub material: Material,
    pub albedo: Vec3,
    pub t: i64,
    pub front_face: bool,
}

impl HitRecord {
    /// A record an intersection test can hand to the scatterer: the contact
    /// point inside the world volume, the normal a unit vector oriented
    /// against the incoming ray, the albedo a color, the parameter positive.
    pub open spec fn wf(self) -> bool {
        &&& in_bounds(self.point_of_contact, COORD_LIMIT as int)
        &&& near_unit(self.normal)
        &&& color_ok(self.albedo)
        &&& self.t > 0
    }
}

/// Why a sphere was rejected at construction.
#[derive(Clone, Copy, PartialEq, Eq, Structural, Debug)]
pub enum SceneError {
    CenterOutOfRange,
    RadiusOutOfRange,
    AlbedoOutOfRange,
}

/// A sphere with a diffuse or reflective surface.
#[derive(Clone, Copy, PartialEq, Eq, Structural, Debug)]
pub struct Sphere {
    pub center: Vec3,
    pub radius: i64,
    pub albedo: Vec3,
    pub material: Material,
}

impl Sphere {
    /// A sphere the intersection test renders faithfully: the radius at
    /// least [`MIN_RADIUS`], and the whole sphere — center, radius and a
    /// truncation margin — inside the world volume, so that every contact
    /// point a hit can compute is representable and carries a normal.
    pub open spec fn wf(self) -> bool {
        &&& MIN_RADIUS <= self.radius
        &&& in_bounds(self.center, COORD_LIMIT - self.radius - 8)
        &&& color_ok(self.albedo)
    }

    /// Build a sphere, rejecting unrenderable geometry at construction: a
    /// radius below the smallest the grid can render, a sphere protruding
    /// beyond the world volume, an albedo outside `[0, 1]`.
    pub fn new(center: Vec3, radius: i64, albedo: Vec3, material: Material) -> (r: Result<
        Sphere,
        SceneError,
    >)
        ensures
            r is Ok <==> (MIN_RADIUS <= radius <= COORD_LIMIT - 8 && in_bounds(center,
                COORD_LIMIT - radius - 8) && color_ok(albedo)),
            r is Ok ==> r.unwrap() == (Sphere { center, radius, albedo, material })
                && r.unwrap().wf(),
            !(MIN_RADIUS <= radius <= COORD_LIMIT - 8) ==> r == Result::<
                Sphere,
                SceneError,
            >::Err(SceneError::RadiusOutOfRange),
            MIN_RADIUS <= radius <= COORD_LIMIT - 8 && !in_bounds(center, COORD_LIMIT - radius
                - 8) ==> r == Result::<Sphere, SceneError>::Err(SceneError::CenterOutOfRange),
            MIN_RADIUS <= radius <= COORD_LIMIT - 8 && in_bounds(center, COORD_LIMIT - radius
                - 8) && !color_ok(albedo) ==> r == Result::<Sphere, SceneError>::Err(
                SceneError::AlbedoOutOfRange),
    {
        if radius < MIN_RADIUS || radius > COORD_LIMIT - 8 {
            return Err(SceneError::RadiusOutOfRange);
        }
        let bound = COORD_LIMIT - radius - 8;
        if center.x < -bound || center.x > bound || center.y < -bound || center.y > bound
            || center.z < -bound || center.z > bound {
            return Err(SceneError::CenterOutOfRange);
        }
        if albedo.x < 0 || albedo.x > SCALE || albedo.y < 0 || albedo.y > SCALE || albedo.z < 0
            || albedo.z > SCALE {
            return Err(SceneError::AlbedoOutOfRange);
        }
        Ok(Sphere { center, radius, albedo, material })
    }
}

/// The closed-form ray/sphere intersection parameter, on the fixed-point
/// grid. With `oc` the origin relative to the center, the quadratic
/// `a t^2 + 2 half_b t + c = 0` has the computed discriminant
/// `half_b^2 - a c`; a negative discriminant means no intersection, and
/// otherwise the smaller root is preferred, the larger taken only when the
/// smaller falls outside the open window `(min, max)`.
pub open spec fn spec_get_root(s: Sphere, min: int, max: int, ray: Ray) -> Option<int> {
    let oc = spec_sub(ray.origin, s.center);
    let a = spec_norm_sq(ray.direction);
    let half_b = spec_dot(oc, ray.direction);
    let c = spec_norm_sq(oc) - s.radius * s.radius;
    let disc = half_b * half_b - a * c;
    if disc < 0 {
        None
    } else {
        let sq = isqrt_spec(disc);
        let r1 = tdiv((-half_b - sq) * SCALE, a);
        let r2 = tdiv((-half_b + sq) * SCALE, a);
        if min < r1 < max {
            Some(r1)
        } else if min < r2 < max {
            Some(r2)
        } else {
            None
        }
    }
}

/// Bounds on the intersection arithmetic of a well-formed sphere and ray:
/// every intermediate fits comfortably in 128 bits and the returned
/// parameter within [`ROOT_LIMIT`].
proof fn lemma_root_bounds(s: Sphere, ray: Ray)
    requires
        s.wf(),
        ray.wf(),
    ensures
        iabs(spec_dot(spec_sub(ray.origin, s.center), ray.direction)) <= 0x6000_0000_0000,
        iabs(spec_norm_sq(spec_sub(ray.origin, s.center)) - s.radius * s.radius)
            <= 0x1000_0000_0000_0000,
        iabs(spec_norm_sq(ray.direction) * (spec_norm_sq(spec_sub(ray.origin, s.center))
            - s.radius * s.radius)) <= 0x2_0000_0000_0000_0000_0000_0000,
        iabs(spec_dot(spec_sub(ray.origin, s.center), ray.direction) * spec_dot(spec_sub(
            ray.origin, s.center), ray.direction)) <= 0x2_4000_0000_0000_0000_0000_0000,
{
    let oc = spec_sub(ray.origin, s.center);
    let hb = spec_dot(oc, ray.direction);
    assert(s.radius <= COORD_LIMIT && in_bounds(s.center, COORD_LIMIT as int));
    assert(in_bounds(oc, 0x2000_0000));
    lemma_dot_bound(oc, ray.direction, 0x2000_0000, SCALE as int);
    lemma_dot_bound(oc, oc, 0x2000_0000, 0x2000_0000);
    lemma_abs_mul(s.radius as int, s.radius as int, COORD_LIMIT as int, COORD_LIMIT as int);
    lemma_abs_mul(hb, hb, 0x6000_0000_0000, 0x6000_0000_0000);
    assert(0x6000_0000_0000 * 0x6000_0000_0000 <= 0x2_4000_0000_0000_0000_0000_0000)
        by (nonlinear_arith);
    let c = spec_norm_sq(oc) - s.radius * s.radius;
    let a = spec_norm_sq(ray.direction);
    assert(iabs(a) <= UNIT_NSQ_HI as int);
    lemma_abs_mul(a, c, UNIT_NSQ_HI as int, 0x1000_0000_0000_0000);
    assert(UNIT_NSQ_HI * 0x1000_0000_0000_0000 <= 0x2_0000_0000_0000_0000_0000_0000)
        by (nonlinear_arith);
}

/// Find the intersection parameter of `ray` with this sphere inside the
/// open window `(min, max)`, or report that there is none.
impl Sphere {
    pub fn get_root(&self, min: i64, max: i64, ray: &Ray) -> (r: Option<i64>)
        requires
            self.wf(),
            ray.wf(),
            0 <= min,
        ensures
            r is Some <==> spec_get_root(*self, min as int, max as int, *ray) is Some,
            r is Some ==> r.unwrap() as int == spec_get_root(*self, min as int, max as int,
                *ray).unwrap(),
            r is Some ==> min < r.unwrap() && (r.unwrap() as int) < max && iabs(
                r.unwrap() as int) <= ROOT_LIMIT as int,
    {
        proof {
            lemma_root_bounds(*self, *ray);
            lemma_abs_mul(self.radius as int, self.radius as int, COORD_LIMIT as int,
                COORD_LIMIT as int);
            lemma_dot_bound(spec_sub(ray.origin, self.center), spec_sub(ray.origin,
                self.center), 0x2000_0000, 0x2000_0000);
        }
        let oc = diff(&ray.origin, &self.center);
        let a_coef = dot(&ray.direction, &ray.direction);
        let half_b = dot(&oc, &ray.direction);
        let c_coef = dot(&oc, &oc) - (self.radius as i128) * (self.radius as i128);
        let discriminant = half_b * half_b - a_coef * c_coef;
        if discriminant < 0 {
            return None;
        }
        let sq = isqrt(discriminant as u128) as i128;
        proof {
            lemma_isqrt_spec(discriminant as int);
            assert(sq <= 0x4_0000_0000_0000) by (nonlinear_arith)
                requires
                    sq >= 0,
                    sq * sq <= discriminant as int,
                    discriminant <= 0x4_4000_0000_0000_0000_0000_0000,
            ;
            lemma_num_bound(-(half_b as int) - sq, a_coef as int);
            lemma_num_bound(-(half_b as int) + sq, a_coef as int);
        }
        let r1 = ((-half_b - sq) * (SCALE as i128)) / a_coef;
        if (min as i128) < r1 && r1 < (max as i128) {
            return Some(r1 as i64);
        }
        let r2 = ((-half_b + sq) * (SCALE as i128)) / a_coef;
        if (min as i128) < r2 && r2 < (max as i128) {
            return Some(r2 as i64);
        }
        None
    }
}

/// A root numerator bounded by the discriminant arithmetic divides out to a
/// parameter within [`ROOT_LIMIT`].
proof fn lemma_num_bound(num: int, a: int)
    requires
        iabs(num) <= 0x5_0000_0000_0000,
        UNIT_NSQ_LO <= a <= UNIT_NSQ_HI,
    ensures
        iabs(tdiv(num * SCALE, a)) <= ROOT_LIMIT as int,
{
    lemma_abs_mul(num, SCALE as int, 0x5_0000_0000_0000, SCALE as int);
    assert(0x5_0000_0000_0000 * SCALE <= ROOT_LIMIT * a) by (nonlinear_arith)
        requires
            a >= UNIT_NSQ_LO,
            SCALE == 65536,
            ROOT_LIMIT == 34359738368,
            UNIT_NSQ_LO == 4294115328,
    ;
    lemma_tdiv_bound(num * SCALE, a, ROOT_LIMIT as int);
}

/// How far the computed root parameter sits off the exact quadratic: scaled
/// by `a`, the residual `a r^2 + 2 hb SCALE r + c SCALE^2` is exactly
/// `-SCALE^2 e - rem (2 SCALE sg sq - rem)`, with `rem` the division
/// remainder and `e` the square root's defect — both small.
proof fn lemma_root_residual(a: int, hb: int, c: int, sq: int, sg: int, r: int, f: int)
    requires
        a >= 1,
        sq >= 0,
        sg == 1 || sg == -1,
        sq * sq <= hb * hb - a * c,
        hb * hb - a * c < (sq + 1) * (sq + 1),
        r == tdiv((-hb + sg * sq) * SCALE, a),
        f == a * (r * r) + 2 * (hb * SCALE) * r + c * (SCALE * SCALE),
    ensures
        iabs(a * f) <= 2 * sq * (SCALE * SCALE) + a * (2 * SCALE * sq + a),
{
    let num = -hb + sg * sq;
    lemma_tdiv_rem(num * SCALE, a);
    let rem = num * SCALE - a * r;
    assert(iabs(rem) <= a - 1);
    let e = (hb * hb - a * c) - sq * sq;
    assert((sq + 1) * (sq + 1) == sq * sq + 2 * sq + 1) by (nonlinear_arith);
    assert(0 <= e <= 2 * sq);
    let ar = a * r;
    assert(a * f == ar * ar + 2 * (hb * SCALE) * ar + (a * c) * (SCALE * SCALE))
        by (nonlinear_arith)
        requires
            f == a * (r * r) + 2 * (hb * SCALE) * r + c * (SCALE * SCALE),
            ar == a * r,
    ;
    assert(ar * ar + 2 * (hb * SCALE) * ar + (a * c) * (SCALE * SCALE) == -(SCALE * SCALE) * e
        - rem * (2 * SCALE * (sg * sq) - rem)) by (nonlinear_arith)
        requires
            ar == num * SCALE - rem,
            num == -hb + sg * sq,
            e == (hb * hb - a * c) - sq * sq,
            sg == 1 || sg == -1,
            SCALE == 65536,
    ;
    assert(iabs(-(SCALE * SCALE) * e - rem * (2 * SCALE * (sg * sq) - rem)) <= 2 * sq * (SCALE
        * SCALE) + a * (2 * SCALE * sq + a)) by (nonlinear_arith)
        requires
            0 <= e <= 2 * sq,
            iabs(rem) <= a - 1,
            a >= 1,
            sq >= 0,
            sg == 1 || sg == -1,
            SCALE == 65536,
    ;
}

/// A computed intersection stays on its sphere's shell to within a few
/// steps: the parameter is bounded, the contact point lies inside the world
/// volume, and the surface vector at it is long enough to normalize. This
/// is what lets [`Sphere::hit`] build a record for every root the window
/// admits.
pub proof fn lemma_hit_point_in_range(s: Sphere, ray: Ray, min: int, max: int)
    requires
        s.wf(),
        ray.wf(),
        spec_get_root(s, min, max, ray) is Some,
    ensures
        iabs(spec_get_root(s, min, max, ray).unwrap()) <= ROOT_LIMIT as int,
        in_bounds(spec_sum(ray.origin, spec_scale(spec_get_root(s, min, max, ray).unwrap(),
            ray.direction)), COORD_LIMIT as int),
        spec_norm_sq(spec_sub(spec_sum(ray.origin, spec_scale(spec_get_root(s, min, max,
            ray).unwrap(), ray.direction)), s.center)) >= MIN_DIR_NSQ as int,
{
    let d = ray.direction;
    let oc = spec_sub(ray.origin, s.center);
    let a = spec_norm_sq(d);
    let hb = spec_dot(oc, d);
    let rr = s.radius as int;
    let c = spec_norm_sq(oc) - rr * rr;
    let disc = hb * hb - a * c;
    let sq = isqrt_spec(disc);
    let root = spec_get_root(s, min, max, ray).unwrap();
    assert(disc >= 0);
    lemma_isqrt_spec(disc);
    lemma_root_bounds(s, ray);
    assert(disc <= 0x4_4000_0000_0000_0000_0000_0000);
    assert(sq <= 0x4_0000_0000_0000) by (nonlinear_arith)
        requires
            sq >= 0,
            sq * sq <= disc,
            disc <= 0x4_4000_0000_0000_0000_0000_0000,
    ;
    let sg: int = if root == tdiv((-hb - sq) * SCALE, a) {
        -1
    } else {
        1
    };
    if sg == -1 {
        assert(sg * sq == -sq) by (nonlinear_arith)
            requires
                sg == -1,
        ;
    } else {
        assert(sg * sq == sq) by (nonlinear_arith)
            requires
                sg == 1,
        ;
        assert(root == tdiv((-hb + sq) * SCALE, a));
    }
    assert(root == tdiv((-hb + sg * sq) * SCALE, a));
    lemma_num_bound(-hb + sg * sq, a);
    assert(iabs(root) <= ROOT_LIMIT as int);
    // The residual of the quadratic at the computed root:
    let f = a * (root * root) + 2 * (hb * SCALE) * root + c * (SCALE * SCALE);
    lemma_root_residual(a, hb, c, sq, sg, root, f);
    assert(iabs(f) <= 3 * SCALE * sq + a) by (nonlinear_arith)
        requires
            iabs(a * f) <= 2 * sq * (SCALE * SCALE) + a * (2 * SCALE * sq + a),
            a >= 4294115328,
            sq >= 0,
            SCALE == 65536,
    ;
    // The square root never exceeds the radius by more than the direction's
    // own tolerance (Cauchy–Schwarz bounds the discriminant by `a r^2`):
    lemma_cauchy_schwarz(oc, d);
    let nq = spec_norm_sq(oc);
    assert(disc <= a * (rr * rr)) by (nonlinear_arith)
        requires
            disc == hb * hb - a * c,
            c == nq - rr * rr,
            hb * hb <= nq * a,
            a >= 1,
    ;
    assert(sq <= (SCALE + 7) * rr) by (nonlinear_arith)
        requires
            sq >= 0,
            rr >= 1,
            sq * sq <= a * (rr * rr),
            a <= 4295819264,
            SCALE == 65536,
    ;
    // The squared distance of the scaled contact point from the center,
    // before the final per-component truncation:
    let w1 = SCALE * oc.x + root * d.x;
    let w2 = SCALE * oc.y + root * d.y;
    let w3 = SCALE * oc.z + root * d.z;
    lemma_add_square(SCALE * oc.x, root * d.x);
    lemma_add_square(SCALE * oc.y, root * d.y);
    lemma_add_square(SCALE * oc.z, root * d.z);
    lemma_mul_shuffle(SCALE as int, oc.x as int, SCALE as int, oc.x as int);
    lemma_mul_shuffle(SCALE as int, oc.y as int, SCALE as int, oc.y as int);
    lemma_mul_shuffle(SCALE as int, oc.z as int, SCALE as int, oc.z as int);
    lemma_mul_shuffle(SCALE as int, oc.x as int, root, d.x as int);
    lemma_mul_shuffle(SCALE as int, oc.y as int, root, d.y as int);
    lemma_mul_shuffle(SCALE as int, oc.z as int, root, d.z as int);
    lemma_mul_shuffle(root, d.x as int, root, d.x as int);
    lemma_mul_shuffle(root, d.y as int, root, d.y as int);
    lemma_mul_shuffle(root, d.z as int, root, d.z as int);
    let sumw = w1 * w1 + w2 * w2 + w3 * w3;
    assert((SCALE as int * SCALE) * (oc.x * oc.x) + (SCALE as int * SCALE) * (oc.y * oc.y)
        + (SCALE as int * SCALE) * (oc.z * oc.z) == (SCALE as int * SCALE) * nq)
        by (nonlinear_arith)
        requires
            nq == oc.x * oc.x + oc.y * oc.y + oc.z * oc.z,
    ;
    assert((SCALE as int * root) * (oc.x * d.x) + (SCALE as int * root) * (oc.y * d.y) + (SCALE
        as int * root) * (oc.z * d.z) == (SCALE as int * root) * hb) by (nonlinear_arith)
        requires
            hb == oc.x * d.x + oc.y * d.y + oc.z * d.z,
    ;
    assert((root * root) * (d.x * d.x) + (root * root) * (d.y * d.y) + (root * root) * (d.z
        * d.z) == (root * root) * a) by (nonlinear_arith)
        requires
            a == d.x * d.x + d.y * d.y + d.z * d.z,
    ;
    assert(sumw == (SCALE as int * SCALE) * nq + 2 * ((SCALE as int * root) * hb) + (root
        * root) * a);
    lemma_mul_comm(a, root * root);
    assert(2 * (hb * SCALE) * root == 2 * ((SCALE as int * root) * hb)) by (nonlinear_arith);
    assert(c * (SCALE * SCALE) == (SCALE as int * SCALE) * nq - (rr * rr) * (SCALE as int
        * SCALE)) by (nonlinear_arith)
        requires
            c == nq - rr * rr,
    ;
    assert(sumw == f + (rr * rr) * (SCALE as int * SCALE));
    // ... so the pre-truncation distance is within `4 r` of the shell:
    assert(sumw >= (SCALE as int * SCALE) * (rr * rr) - 4 * ((SCALE as int * SCALE) * rr)
        && sumw <= (SCALE as int * SCALE) * (rr * rr) + 4 * ((SCALE as int * SCALE) * rr))
        by (nonlinear_arith)
        requires
            sumw == f + (rr * rr) * (SCALE as int * SCALE),
            iabs(f) <= 3 * SCALE * sq + a,
            sq <= (SCALE + 7) * rr,
            sq >= 0,
            1 <= a <= 4295819264,
            rr >= 16400,
            SCALE == 65536,
    ;
    lemma_square_nonneg(w1);
    lemma_square_nonneg(w2);
    lemma_square_nonneg(w3);
    assert(iabs(w1) <= SCALE * (rr + 2) && iabs(w2) <= SCALE * (rr + 2) && iabs(w3) <= SCALE
        * (rr + 2)) by (nonlinear_arith)
        requires
            w1 * w1 <= (SCALE as int * SCALE) * (rr * rr) + 4 * ((SCALE as int * SCALE) * rr),
            w2 * w2 <= (SCALE as int * SCALE) * (rr * rr) + 4 * ((SCALE as int * SCALE) * rr),
            w3 * w3 <= (SCALE as int * SCALE) * (rr * rr) + 4 * ((SCALE as int * SCALE) * rr),
            rr >= 1,
            SCALE == 65536,
    ;
    // The final truncation moves each component by less than one step:
    let u1 = tdiv(root * d.x, SCALE as int);
    let u2 = tdiv(root * d.y, SCALE as int);
    let u3 = tdiv(root * d.z, SCALE as int);
    lemma_tdiv_rem(root * d.x, SCALE as int);
    lemma_tdiv_rem(root * d.y, SCALE as int);
    lemma_tdiv_rem(root * d.z, SCALE as int);
    let rho1 = root * d.x - SCALE * u1;
    let rho2 = root * d.y - SCALE * u2;
    let rho3 = root * d.z - SCALE * u3;
    let q1 = oc.x + u1;
    let q2 = oc.y + u2;
    let q3 = oc.z + u3;
    assert(SCALE * q1 == w1 - rho1 && SCALE * q2 == w2 - rho2 && SCALE * q3 == w3 - rho3);
    lemma_sub_square(w1, rho1);
    lemma_sub_square(w2, rho2);
    lemma_sub_square(w3, rho3);
    lemma_abs_mul(w1, rho1, SCALE * (rr + 2), (SCALE - 1) as int);
    lemma_abs_mul(w2, rho2, SCALE * (rr + 2), (SCALE - 1) as int);
    lemma_abs_mul(w3, rho3, SCALE * (rr + 2), (SCALE - 1) as int);
    assert((SCALE * (rr + 2)) * ((SCALE - 1) as int) <= (SCALE as int * SCALE) * rr + 2 * (SCALE
        as int * SCALE)) by (nonlinear_arith)
        requires
            rr >= 1,
            SCALE == 65536,
    ;
    lemma_abs_mul(rho1, rho1, (SCALE - 1) as int, (SCALE - 1) as int);
    lemma_abs_mul(rho2, rho2, (SCALE - 1) as int, (SCALE - 1) as int);
    lemma_abs_mul(rho3, rho3, (SCALE - 1) as int, (SCALE - 1) as int);
    lemma_square_nonneg(rho1);
    lemma_square_nonneg(rho2);
    lemma_square_nonneg(rho3);
    lemma_mul_shuffle(SCALE as int, q1, SCALE as int, q1);
    lemma_mul_shuffle(SCALE as int, q2, SCALE as int, q2);
    lemma_mul_shuffle(SCALE as int, q3, SCALE as int, q3);
    let nsqq = q1 * q1 + q2 * q2 + q3 * q3;
    assert((SCALE as int * SCALE) * nsqq == (SCALE as int * SCALE) * (q1 * q1) + (SCALE as int
        * SCALE) * (q2 * q2) + (SCALE as int * SCALE) * (q3 * q3)) by (nonlinear_arith)
        requires
            nsqq == q1 * q1 + q2 * q2 + q3 * q3,
    ;
    // ... which lands the truncated point within `10 r + 15` of the shell:
    assert((SCALE as int * SCALE) * nsqq >= (SCALE as int * SCALE) * (rr * rr) - 10 * ((SCALE
        as int * SCALE) * rr) - 12 * (SCALE as int * SCALE));
    assert((SCALE as int * SCALE) * nsqq <= (SCALE as int * SCALE) * (rr * rr) + 10 * ((SCALE
        as int * SCALE) * rr) + 15 * (SCALE as int * SCALE));
    assert(nsqq >= rr * rr - 10 * rr - 12) by (nonlinear_arith)
        requires
            (SCALE as int * SCALE) * nsqq >= (SCALE as int * SCALE) * (rr * rr) - 10 * ((SCALE
                as int * SCALE) * rr) - 12 * (SCALE as int * SCALE),
            SCALE == 65536,
    ;
    assert(nsqq <= rr * rr + 10 * rr + 15) by (nonlinear_arith)
        requires
            (SCALE as int * SCALE) * nsqq <= (SCALE as int * SCALE) * (rr * rr) + 10 * ((SCALE
                as int * SCALE) * rr) + 15 * (SCALE as int * SCALE),
            SCALE == 65536,
    ;
    assert(rr * rr - 10 * rr - 12 >= 268435456) by (nonlinear_arith)
        requires
            rr >= 16400,
    ;
    lemma_square_nonneg(q1);
    lemma_square_nonneg(q2);
    lemma_square_nonneg(q3);
    assert(iabs(q1) <= rr + 5 && iabs(q2) <= rr + 5 && iabs(q3) <= rr + 5)
        by (nonlinear_arith)
        requires
            q1 * q1 <= rr * rr + 10 * rr + 15,
            q2 * q2 <= rr * rr + 10 * rr + 15,
            q3 * q3 <= rr * rr + 10 * rr + 15,
            rr >= 1,
    ;
    // Tie the integer picture back to the cast vectors of the statement:
    lemma_abs_mul(root, d.x as int, ROOT_LIMIT as int, SCALE as int);
    lemma_abs_mul(root, d.y as int, ROOT_LIMIT as int, SCALE as int);
    lemma_abs_mul(root, d.z as int, ROOT_LIMIT as int, SCALE as int);
    lemma_tdiv_bound(root * d.x, SCALE as int, ROOT_LIMIT as int);
    lemma_tdiv_bound(root * d.y, SCALE as int, ROOT_LIMIT as int);
    lemma_tdiv_bound(root * d.z, SCALE as int, ROOT_LIMIT as int);
    let p = spec_sum(ray.origin, spec_scale(root, ray.direction));
    assert(p.x == ray.origin.x + u1 && p.y == ray.origin.y + u2 && p.z == ray.origin.z + u3);
    assert(p.x == s.center.x + q1 && p.y == s.center.y + q2 && p.z == s.center.z + q3);
    assert(spec_sub(p, s.center).x == q1 && spec_sub(p, s.center).y == q2 && spec_sub(p,
        s.center).z == q3);
}

/// The full intersection test: the root in the window, the contact point,
/// and the unit normal oriented against the incoming ray. For a well-formed
/// sphere every root yields a record — the contact point is representable
/// and carries a normal, by [`lemma_hit_point_in_range`].
pub open spec fn spec_hit(s: Sphere, ray: Ray, min: int, max: int) -> Option<HitRecord> {
    match spec_get_root(s, min, max, ray) {
        Option::None => Option::None,
        Option::Some(root) => {
            let p = spec_sum(ray.origin, spec_scale(root, ray.direction));
            let n_unit = spec_normalize(spec_sub(p, s.center));
            if spec_dot(n_unit, ray.direction) < 0 {
                Option::Some(HitRecord {
                    point_of_contact: p,
                    normal: n_unit,
                    material: s.material,
                    albedo: s.albedo,
                    t: root as i64,
                    front_face: true,
                })
            } else {
                Option::Some(HitRecord {
                    point_of_contact: p,
                    normal: spec_negate(n_unit),
                    material: s.material,
                    albedo: s.albedo,
                    t: root as i64,
                    front_face: false,
                })
            }
        },
    }
}

impl Sphere {
    /// Intersect `ray` with this sphere inside the open window `(min, max)`:
    /// a record exactly when the root search finds a root, never a sentinel
    /// value. The returned record's normal points against the ray: outward
    /// on a front-face strike, inward when the ray hits from inside.
    pub fn hit(&self, ray: &Ray, min: i64, max: i64) -> (r: Option<HitRecord>)
        requires
            self.wf(),
            ray.wf(),
            0 <= min,
        ensures
            r == spec_hit(*self, *ray, min as int, max as int),
            r is Some <==> spec_get_root(*self, min as int, max as int, *ray) is Some,
            r is Some ==> r.unwrap().t as int == spec_get_root(*self, min as int, max as int,
                *ray).unwrap(),
            r is Some ==> r.unwrap().wf() && min < r.unwrap().t && (r.unwrap().t as int) < max
                && r.unwrap().albedo == self.albedo && r.unwrap().material == self.material,
    {
        let root = match self.get_root(min, max, ray) {
            Option::None => {
                return None;
            },
            Option::Some(t) => t,
        };
        proof {
            lemma_hit_point_in_range(*self, *ray, min as int, max as int);
        }
        let p = sum(&ray.origin, &scale(root, &ray.direction));
        let q = diff(&p, &self.center);
        let n_unit = normalize(&q);
        let d = dot(&n_unit, &ray.direction);
        if d < 0 {
            Some(HitRecord {
                point_of_contact: p,
                normal: n_unit,
                material: self.material,
                albedo: self.albedo,
                t: root,
                front_face: true,
            })
        } else {
            proof {
                lemma_negate_norm_sq(n_unit);
            }
            Some(HitRecord {
                point_of_contact: p,
                normal: negate_vector(&n_unit),
                material: self.material,
                albedo: self.albedo,
                t: root,
                front_face: false,
            })
        }
    }
}

/// How a material answers a hit: the scattered ray and the generator state
/// left behind, or absorption.
///
/// A Lambertian surface always scatters, about `normal + random unit
/// vector`; should that sum degenerate to nearly zero, the normal itself is
/// the scatter direction. A metal surface reflects the incoming ray and
/// scatters only if the reflection leaves the surface — a reflection bent
/// under it by grazing truncation, or degenerate, is absorbed.
pub open spec fn spec_scatter(h: HitRecord, ray: Ray, state: u64) -> (Option<Ray>, u64) {
    match h.material {
        Material::Metal => {
            let reflected = spec_reflect(ray.direction, h.normal);
            if spec_norm_sq(reflected) < MIN_DIR_NSQ as int {
                (Option::None, state)
            } else {
                let d = spec_normalize(reflected);
                if spec_dot(d, h.normal) > 0 {
                    (Option::Some(Ray { origin: h.point_of_contact, direction: d }), state)
                } else {
                    (Option::None, state)
                }
            }
        },
        Material::Lambertian => {
            let (u, s1) = spec_ruv(state, RUV_FUEL as nat);
            let d0 = spec_sum(h.normal, u);
            if spec_norm_sq(d0) < MIN_DIR_NSQ as int {
                (Option::Some(Ray { origin: h.point_of_contact, direction: h.normal }), s1)
            } else {
                (
                    Option::Some(Ray { origin: h.point_of_contact, direction: spec_normalize(d0) }),
                    s1,
                )
            }
        },
    }
}

/// Produce the outgoing ray for a hit, or signal absorption. Lambertian
/// surfaces always scatter; metal surfaces absorb exactly when the reflected
/// direction does not leave the surface.
pub fn scatter(hit_record: &HitRecord, incident_ray: &Ray, rng: &mut RandomSource) -> (r: Option<
    Ray,
>)
    requires
        hit_record.wf(),
        incident_ray.wf(),
    ensures
        r == spec_scatter(*hit_record, *incident_ray, old(rng).spec_state()).0,
        final (rng).spec_state() == spec_scatter(*hit_record, *incident_ray,
            old(rng).spec_state()).1,
        hit_record.material == Material::Lambertian ==> r is Some,
        r is Some ==> r.unwrap().wf() && r.unwrap().origin == hit_record.point_of_contact,
        hit_record.material == Material::Metal ==> ((r is Some) <==> ({
            let reflected = spec_reflect(incident_ray.direction, hit_record.normal);
            spec_norm_sq(reflected) >= MIN_DIR_NSQ as int && spec_dot(spec_normalize(reflected),
                hit_record.normal) > 0
        })),
{
    match hit_record.material {
        Material::Metal => {
            let reflected = reflect(&incident_ray.direction, &hit_record.normal);
            match Ray::new(hit_record.point_of_contact, reflected) {
                Option::None => None,
                Option::Some(scattered) => {
                    let d = dot(&scattered.direction, &hit_record.normal);
                    if d > 0 {
                        Some(scattered)
                    } else {
                        None
                    }
                },
            }
        },
        Material::Lambertian => {
            let u = random_unit_sphere_vector(rng);
            let d0 = sum(&hit_record.normal, &u);
            match Ray::new(hit_record.point_of_contact, d0) {
                Option::None => Some(
                    Ray { origin: hit_record.point_of_contact, direction: hit_record.normal },
                ),
                Option::Some(scattered) => Some(scattered),
            }
        },
    }
}

/// Every sphere of a scene is well formed.
pub open spec fn spheres_ok(spheres: Seq<Sphere>) -> bool {
    forall|i: int| 0 <= i < spheres.len() ==> (#[trigger] spheres[i]).wf()
}

/// Keep the nearer of the hit so far and a new candidate; a new candidate
/// at the same parameter replaces the old one.
pub open spec fn combine_hit(acc: Option<HitRecord>, h: Option<HitRecord>) -> Option<
    HitRecord,
> {
    match h {
        Option::None => acc,
        Option::Some(rec) => match acc {
            Option::None => Option::Some(rec),
            Option::Some(prev) => if prev.t < rec.t {
                Option::Some(prev)
            } else {
                Option::Some(rec)
            },
        },
    }
}

/// Fold [`combine_hit`] over the spheres from index `i` on, starting from
/// the hit `acc`.
pub open spec fn spec_nearest_from(
    spheres: Seq<Sphere>,
    ray: Ray,
    min: int,
    max: int,
    acc: Option<HitRecord>,
    i: int,
) -> Option<HitRecord>
    decreases spheres.len() - i,
{
    if i < 0 || i >= spheres.len() {
        acc
    } else {
        spec_nearest_from(spheres, ray, min, max, combine_hit(acc, spec_hit(spheres[i], ray,
            min, max)), i + 1)
    }
}

/// The intersection with the globally smallest parameter across the scene.
pub open spec fn spec_nearest_hit(spheres: Seq<Sphere>, ray: Ray, min: int, max: int) -> Option<
    HitRecord,
> {
    spec_nearest_from(spheres, ray, min, max, Option::None, 0)
}

/// What the fold preserves: the result never exceeds the accumulator or any
/// remaining sphere's hit in `t`, and it is either the accumulator or one of
/// those hits.
proof fn lemma_nearest_from_props(
    spheres: Seq<Sphere>,
    ray: Ray,
    min: int,
    max: int,
    acc: Option<HitRecord>,
    i: int,
)
    requires
        0 <= i <= spheres.len(),
    ensures
        ({
            let out = spec_nearest_from(spheres, ray, min, max, acc, i);
            &&& (acc is Some ==> out is Some && out.unwrap().t <= acc.unwrap().t)
            &&& (out is Some ==> acc == Option::Some(out.unwrap()) || exists|j: int|
                i <= j < spheres.len() && #[trigger] spec_hit(spheres[j], ray, min, max)
                    == Option::Some(out.unwrap()))
            &&& (forall|j: int|
                i <= j < spheres.len() && (#[trigger] spec_hit(spheres[j], ray, min, max))
                    is Some ==> out is Some && out.unwrap().t <= spec_hit(spheres[j], ray, min,
                    max).unwrap().t)
            &&& (out is None ==> acc is None)
        }),
    decreases spheres.len() - i,
{
    if i < spheres.len() {
        let h = spec_hit(spheres[i], ray, min, max);
        let acc2 = combine_hit(acc, h);
        lemma_nearest_from_props(spheres, ray, min, max, acc2, i + 1);
        let out = spec_nearest_from(spheres, ray, min, max, acc, i);
        if out is Some {
            if acc2 == Option::Some(out.unwrap()) {
                if h == Option::Some(out.unwrap()) {
                    assert(spec_hit(spheres[i], ray, min, max) == Option::Some(out.unwrap()));
                }
            }
        }
    }
}

/// The nearest-surface rule, stated of the whole scene: every sphere the
/// ray strikes inside the window is struck no nearer than the selected hit,
/// and the selected hit is one of the spheres' own.
pub proof fn lemma_nearest_hit_is_nearest(spheres: Seq<Sphere>, ray: Ray, min: int, max: int)
    ensures
        forall|j: int|
            0 <= j < spheres.len() && (#[trigger] spec_hit(spheres[j], ray, min, max)) is Some
                ==> spec_nearest_hit(spheres, ray, min, max) is Some && spec_nearest_hit(
                spheres, ray, min, max).unwrap().t <= spec_hit(spheres[j], ray, min,
                max).unwrap().t,
        spec_nearest_hit(spheres, ray, min, max) is Some ==> exists|j: int|
            0 <= j < spheres.len() && #[trigger] spec_hit(spheres[j], ray, min, max)
                == Option::Some(spec_nearest_hit(spheres, ray, min, max).unwrap()),
{
    lemma_nearest_from_props(spheres, ray, min, max, Option::None, 0);
}

/// Scan the scene for the intersection with the smallest parameter inside
/// the open window `(min, max)`: the nearest-surface rule.
pub fn nearest_hit(world: &Vec<Sphere>, ray: &Ray, min: i64, max: i64) -> (r: Option<HitRecord>)
    requires
        spheres_ok(world@),
        ray.wf(),
        0 <= min,
    ensures
        r == spec_nearest_hit(world@, *ray, min as int, max as int),
        r is Some ==> r.unwrap().wf() && min < r.unwrap().t && (r.unwrap().t as int) < max,
{
    let mut acc: Option<HitRecord> = None;
    let mut i: usize = 0;
    while i < world.len()
        invariant
            0 <= i <= world@.len(),
            spheres_ok(world@),
            ray.wf(),
            0 <= min,
            spec_nearest_from(world@, *ray, min as int, max as int, acc, i as int)
                == spec_nearest_hit(world@, *ray, min as int, max as int),
            acc is Some ==> acc.unwrap().wf() && min < acc.unwrap().t && (acc.unwrap().t
                as int) < max,
        decreases world@.len() - i,
    {
        let h = world[i].hit(ray, min, max);
        acc = match h {
            Option::None => acc,
            Option::Some(rec) => match acc {
                Option::None => Some(rec),
                Option::Some(prev) => if prev.t < rec.t {
                    Some(prev)
                } else {
                    Some(rec)
                },
            },
        };
        i = i + 1;
    }
    acc
}

} // verus!
