//! Rays and random scatter directions.
//!
//! A [`Ray`] is a half-line: an origin inside the world volume and a
//! direction that is normalized at construction, so every ray in flight
//! carries a unit direction (up to the fixed-point tolerance of
//! [`near_unit`]). A zero or near-zero direction is a construction error,
//! reported to the caller rather than propagated as a degenerate value.

use vstd::prelude::*;

use crate::fixed::SCALE;
use crate::rng::{spec_next_symmetric, RandomSource};
use crate::vec3::{in_bounds, l2_norm_squared, near_unit, normalize, spec_norm_sq,
    spec_normalize, Vec3, COORD_LIMIT, DIR_LIMIT, MIN_DIR_NSQ};

verus! {

/// Rejection-sampling attempts granted to [`random_unit_sphere_vector`]
/// before it falls back to a fixed axis; each attempt accepts with
/// probability near one half, so the fallback is unreachable in practice.
pub const RUV_FUEL: u32 = 128;

/// A half-line: origin plus unit direction.
#[derive(Clone, Copy, PartialEq, Eq, Structural, Debug)]
pub struct Ray {
    pub origin: Vec3,
    pub direction: Vec3,
}

impl Ray {
    /// A ray in flight: origin inside the world volume, direction normalized.
    pub open spec fn wf(self) -> bool {
        &&& in_bounds(self.origin, COORD_LIMIT as int)
        &&& near_unit(self.direction)
    }

    /// Whether a ray may be built from these inputs: the origin within the
    /// world volume and the direction at least half a unit long, so that
    /// normalizing it is meaningful.
    pub open spec fn inputs_ok(origin: Vec3, direction: Vec3) -> bool {
        &&& in_bounds(origin, COORD_LIMIT as int)
        &&& in_bounds(direction, DIR_LIMIT as int)
        &&& spec_norm_sq(direction) >= MIN_DIR_NSQ as int
    }

    /// Build a ray, normalizing the direction. Degenerate input — an origin
    /// outside the world volume or a direction too short to normalize — is
    /// rejected, never stored.
    pub fn new(origin: Vec3, direction: Vec3) -> (r: Option<Ray>)
        ensures
            r is Some <==> Self::inputs_ok(origin, direction),
            r is Some ==> r.unwrap() == (Ray { origin, direction: spec_normalize(direction) }),
            r is Some ==> r.unwrap().wf(),
    {
        if origin.x < -COORD_LIMIT || origin.x > COORD_LIMIT || origin.y < -COORD_LIMIT
            || origin.y > COORD_LIMIT || origin.z < -COORD_LIMIT || origin.z > COORD_LIMIT {
            return None;
        }
        if direction.x < -DIR_LIMIT || direction.x > DIR_LIMIT || direction.y < -DIR_LIMIT
            || direction.y > DIR_LIMIT || direction.z < -DIR_LIMIT || direction.z > DIR_LIMIT {
            return None;
        }
        let n2 = l2_norm_squared(&direction);
        if n2 < MIN_DIR_NSQ as i128 {
            return None;
        }
        Some(Ray { origin, direction: normalize(&direction) })
    }
}

/// The rejection sampler behind [`random_unit_sphere_vector`]: draw three
/// symmetric components; accept the draw if it lands inside the unit ball
/// but not too close to the center, and normalize it; otherwise retry on the
/// advanced generator state, down to the fuel bound. Exhausted fuel yields
/// a fixed axis. Returns the direction and the generator state left behind.
pub open spec fn spec_ruv(state: u64, fuel: nat) -> (Vec3, u64)
    decreases fuel,
{
    if fuel == 0 {
        (Vec3 { x: 0, y: 0, z: SCALE }, state)
    } else {
        let (s1, x) = spec_next_symmetric(state);
        let (s2, y) = spec_next_symmetric(s1);
        let (s3, z) = spec_next_symmetric(s2);
        let v = Vec3 { x, y, z };
        if MIN_DIR_NSQ <= spec_norm_sq(v) < SCALE * SCALE {
            (spec_normalize(v), s3)
        } else {
            spec_ruv(s3, (fuel - 1) as nat)
        }
    }
}

/// A uniformly distributed unit-length direction, drawn by rejection
/// sampling from the unit ball. Draws shorter than half a unit are also
/// rejected — the radius of a draw is independent of its direction, so the
/// result stays uniform while the normalization stays precise.
pub fn random_unit_sphere_vector(rng: &mut RandomSource) -> (r: Vec3)
    ensures
        r == spec_ruv(old(rng).spec_state(), RUV_FUEL as nat).0,
        final (rng).spec_state() == spec_ruv(old(rng).spec_state(), RUV_FUEL as nat).1,
        near_unit(r),
{
    let mut fuel: u32 = RUV_FUEL;
    loop
        invariant
            fuel <= RUV_FUEL,
            spec_ruv(old(rng).spec_state(), RUV_FUEL as nat) == spec_ruv(
                rng.spec_state(), fuel as nat),
        decreases fuel,
    {
        if fuel == 0 {
            proof {
                assert(spec_norm_sq(Vec3 { x: 0, y: 0, z: SCALE }) == SCALE * SCALE)
                    by (nonlinear_arith);
            }
            return Vec3 { x: 0, y: 0, z: SCALE };
        }
        let x = rng.next_symmetric();
        let y = rng.next_symmetric();
        let z = rng.next_symmetric();
        let v = Vec3 { x, y, z };
        let n2 = l2_norm_squared(&v);
        if n2 >= MIN_DIR_NSQ as i128 && n2 < (SCALE as i128) * (SCALE as i128) {
            return normalize(&v);
        }
        fuel = fuel - 1;
    }
}

} // verus!
