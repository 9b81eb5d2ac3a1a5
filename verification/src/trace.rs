//! The path integrator: follow a ray through scatter events, folding each
//! surface's albedo into a running attenuation, until the ray escapes to the
//! sky, is absorbed, or the recursion depth runs out.
//!
//! The recursion is keyed on the depth counter alone, so it is implemented
//! as an explicit loop with constant stack usage; the recursive spec
//! function [`spec_trace`] states exactly what the loop computes.

use vstd::prelude::*;

use vstd::arithmetic::div_mod::lemma_div_is_ordered;

use crate::camera::{spec_get_ray, Camera};
use crate::fixed::{lemma_tdiv_magnitude, mul_fx, tdiv, SCALE};
use crate::ray::Ray;
use crate::rng::RandomSource;
use crate::vec3::{attenuate, color_ok, lemma_abs_mul, near_unit, spec_attenuate, Vec3};
use crate::world::{nearest_hit, scatter, spec_nearest_hit, spec_scatter, spheres_ok, Sphere};

verus! {

/// Lower end of the intersection window: about `0.001` of a unit, keeping a
/// scattered ray from striking the surface it just left ("shadow acne").
pub const EPS: i64 = 65;

/// Upper end of the intersection window: no finite cutoff.
pub const T_MAX: i64 = 9223372036854775807;

/// Red and green of the zenith color `(0.5, 0.7, 1.0)`; its blue is a full
/// unit, `SCALE`. The horizon color is white.
pub const ZENITH_X: i64 = 32768;

/// See [`ZENITH_X`].
pub const ZENITH_Y: i64 = 45875;

/// Pure black: the color of an absorbed or exhausted path.
pub open spec fn black() -> Vec3 {
    Vec3 { x: 0, y: 0, z: 0 }
}

/// Full white: the attenuation a path starts from.
pub open spec fn white() -> Vec3 {
    Vec3 { x: SCALE, y: SCALE, z: SCALE }
}

/// The sky gradient: `lerp(horizon = white, zenith = (0.5, 0.7, 1.0), t)`
/// with `t = (direction.y + 1) / 2`, so a ray straight up sees the zenith
/// color and a ray straight down the horizon color.
pub open spec fn spec_sky(d: Vec3) -> Vec3 {
    let t = tdiv(d.y + SCALE, 2);
    Vec3 {
        x: (tdiv((SCALE - t) * SCALE, SCALE as int) + tdiv(t * ZENITH_X, SCALE as int)) as i64,
        y: (tdiv((SCALE - t) * SCALE, SCALE as int) + tdiv(t * ZENITH_Y, SCALE as int)) as i64,
        z: (tdiv((SCALE - t) * SCALE, SCALE as int) + tdiv(t * SCALE, SCALE as int)) as i64,
    }
}

/// One channel of the sky lerp stays inside `[0, SCALE]`.
proof fn lemma_sky_channel(t: int, zenith: int)
    requires
        0 <= t <= SCALE,
        0 <= zenith <= SCALE,
    ensures
        0 <= tdiv((SCALE - t) * SCALE, SCALE as int) + tdiv(t * zenith, SCALE as int) <= SCALE,
        tdiv((SCALE - t) * SCALE, SCALE as int) == SCALE - t,
{
    assert((SCALE - t) * SCALE >= 0 && t * zenith >= 0 && t * zenith <= t * SCALE)
        by (nonlinear_arith)
        requires
            0 <= t <= SCALE,
            0 <= zenith <= SCALE,
    ;
    assert((SCALE - t) * SCALE / (SCALE as int) == SCALE - t) by (nonlinear_arith)
        requires
            SCALE == 65536,
            0 <= t <= SCALE,
    ;
    assert(t * SCALE / (SCALE as int) == t) by (nonlinear_arith)
        requires
            SCALE == 65536,
            0 <= t <= SCALE,
    ;
    lemma_div_is_ordered(t * zenith, t * SCALE, SCALE as int);
    lemma_tdiv_magnitude(t * zenith, SCALE as int);
}

/// The sky gradient along a unit direction.
pub fn sky_color(d: &Vec3) -> (r: Vec3)
    requires
        near_unit(*d),
    ensures
        r == spec_sky(*d),
        color_ok(r),
{
    proof {
        lemma_tdiv_magnitude(d.y + SCALE, 2);
        let t = tdiv(d.y + SCALE, 2);
        lemma_sky_channel(t, ZENITH_X as int);
        lemma_sky_channel(t, ZENITH_Y as int);
        lemma_sky_channel(t, SCALE as int);
        lemma_abs_mul(SCALE - t, SCALE as int, SCALE as int, SCALE as int);
        lemma_abs_mul(t, ZENITH_X as int, SCALE as int, SCALE as int);
        lemma_abs_mul(t, ZENITH_Y as int, SCALE as int, SCALE as int);
        lemma_abs_mul(t, SCALE as int, SCALE as int, SCALE as int);
    }
    let t = (d.y + SCALE) / 2;
    Vec3 {
        x: mul_fx(SCALE - t, SCALE) + mul_fx(t, ZENITH_X),
        y: mul_fx(SCALE - t, SCALE) + mul_fx(t, ZENITH_Y),
        z: mul_fx(SCALE - t, SCALE) + mul_fx(t, SCALE),
    }
}

/// The radiance a path gathers, and the generator state it leaves behind.
///
/// At depth zero the path is exhausted: black, whatever the ray and scene.
/// Otherwise the nearest surface inside `(EPS, T_MAX)` scatters or absorbs
/// the ray; absorption is black, a scatter recurses with the albedo folded
/// into the attenuation, and a miss returns the attenuated sky.
pub open spec fn spec_trace(
    ray: Ray,
    spheres: Seq<Sphere>,
    depth: nat,
    att: Vec3,
    state: u64,
) -> (Vec3, u64)
    decreases depth,
{
    if depth == 0 {
        (black(), state)
    } else {
        match spec_nearest_hit(spheres, ray, EPS as int, T_MAX as int) {
            Option::None => (spec_attenuate(att, spec_sky(ray.direction)), state),
            Option::Some(rec) => {
                let (sc, s1) = spec_scatter(rec, ray, state);
                match sc {
                    Option::None => (black(), s1),
                    Option::Some(r2) => spec_trace(r2, spheres, (depth - 1) as nat,
                        spec_attenuate(att, rec.albedo), s1),
                }
            },
        }
    }
}

/// Follow a ray through up to `depth` scatter events and return the
/// gathered radiance: the loop form of [`spec_trace`], with constant stack
/// usage whatever the depth limit.
pub fn color_scale_recursive(
    light_ray: &Ray,
    world: &Vec<Sphere>,
    depth: u32,
    attenuator: Vec3,
    rng: &mut RandomSource,
) -> (r: Vec3)
    requires
        light_ray.wf(),
        spheres_ok(world@),
        color_ok(attenuator),
    ensures
        r == spec_trace(*light_ray, world@, depth as nat, attenuator,
            old(rng).spec_state()).0,
        final (rng).spec_state() == spec_trace(*light_ray, world@, depth as nat, attenuator,
            old(rng).spec_state()).1,
        color_ok(r),
{
    let mut ray = *light_ray;
    let mut att = attenuator;
    let mut d = depth;
    loop
        invariant
            ray.wf(),
            color_ok(att),
            spheres_ok(world@),
            spec_trace(*light_ray, world@, depth as nat, attenuator, old(rng).spec_state())
                == spec_trace(ray, world@, d as nat, att, rng.spec_state()),
        decreases d,
    {
        if d == 0 {
            return Vec3 { x: 0, y: 0, z: 0 };
        }
        match nearest_hit(world, &ray, EPS, T_MAX) {
            Option::None => {
                let sky = sky_color(&ray.direction);
                return attenuate(&att, &sky);
            },
            Option::Some(rec) => {
                match scatter(&rec, &ray, rng) {
                    Option::None => {
                        return Vec3 { x: 0, y: 0, z: 0 };
                    },
                    Option::Some(r2) => {
                        att = attenuate(&att, &rec.albedo);
                        ray = r2;
                        d = d - 1;
                    },
                }
            },
        }
    }
}

/// Exhausted depth gathers nothing: at depth zero the path returns black,
/// whatever the ray, the scene, the attenuation and the generator state.
pub proof fn lemma_trace_depth_zero(ray: Ray, spheres: Seq<Sphere>, att: Vec3, state: u64)
    ensures
        spec_trace(ray, spheres, 0, att, state) == (black(), state),
{
}

/// The radiance of one primary ray: build the camera ray through screen
/// position `(width_scale, height_scale)` and integrate it at full initial
/// attenuation.
pub fn compute_color_scale(
    width_scale: i64,
    height_scale: i64,
    depth: u32,
    camera: &Camera,
    world: &Vec<Sphere>,
    rng: &mut RandomSource,
) -> (r: Vec3)
    requires
        camera.wf(),
        spheres_ok(world@),
        0 <= width_scale <= 2 * SCALE,
        0 <= height_scale <= 2 * SCALE,
    ensures
        r == spec_trace(spec_get_ray(*camera, width_scale as int, height_scale as int),
            world@, depth as nat, white(), old(rng).spec_state()).0,
        final (rng).spec_state() == spec_trace(spec_get_ray(*camera, width_scale as int,
            height_scale as int), world@, depth as nat, white(), old(rng).spec_state()).1,
        color_ok(r),
{
    let light_ray = camera.get_ray(width_scale, height_scale);
    color_scale_recursive(&light_ray, world, depth, Vec3 { x: SCALE, y: SCALE, z: SCALE }, rng)
}

} // verus!
