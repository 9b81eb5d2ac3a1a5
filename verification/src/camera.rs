//! The camera: a virtual viewport derived from field of view, aspect ratio
//! and focal length, mapping normalized screen coordinates to primary rays.
//!
//! The vertical convention is fixed here once: the screen coordinate `v`
//! grows downward with the image row, so `v = 0` looks along the top edge of
//! the viewport and `v = 1` along the bottom. The tangent of half the
//! vertical field of view is supplied by the caller as a fixed-point scalar
//! (the trigonometry itself has no place on the fixed-point grid);
//! `viewport_height = 2 * tan_half_vfov * focal_length` and
//! `viewport_width = aspect_ratio * viewport_height` are derived and stored
//! at construction, and the camera is immutable for the whole render.

use vstd::prelude::*;

use crate::fixed::{lemma_tdiv_bound, mul_fx, tdiv, SCALE};
use crate::ray::Ray;
use crate::vec3::{in_bounds, lemma_abs_mul, spec_normalize, Vec3, COORD_LIMIT, DIR_LIMIT,
    MIN_DIR_NSQ};

verus! {

/// Shortest accepted focal length: half a world unit. Anything shorter
/// leaves primary rays too short to normalize reliably.
pub const MIN_FOCAL: i64 = 32768;

/// Longest accepted focal length: 1024 world units.
pub const MAX_FOCAL: i64 = 67108864;

/// Largest accepted tangent of half the field of view: 16, about 175
/// degrees of vertical view.
pub const MAX_TAN: i64 = 1048576;

/// Accepted aspect ratios lie in `[1/16, 16]`.
pub const MIN_ASPECT: i64 = 4096;

/// See [`MIN_ASPECT`].
pub const MAX_ASPECT: i64 = 1048576;

/// Largest accepted derived viewport extent: 1024 world units.
pub const VIEW_LIMIT: i64 = 67108864;

/// Why a camera was rejected at construction.
#[derive(Clone, Copy, PartialEq, Eq, Structural, Debug)]
pub enum CameraError {
    OriginOutOfRange,
    FieldOfViewOutOfRange,
    AspectOutOfRange,
    FocalLengthOutOfRange,
    ViewportOutOfRange,
}

/// The derived viewport height: `2 * tan_half_vfov * focal_length`, on the
/// fixed-point grid.
pub open spec fn spec_viewport_height(tan_half_vfov: int, focal_length: int) -> int {
    tdiv((2 * tan_half_vfov) * focal_length, SCALE as int)
}

/// The derived viewport width: `aspect_ratio * viewport_height`.
pub open spec fn spec_viewport_width(aspect_ratio: int, viewport_height: int) -> int {
    tdiv(aspect_ratio * viewport_height, SCALE as int)
}

/// A pinhole camera, immutable once constructed.
#[derive(Clone, Copy, PartialEq, Eq, Structural, Debug)]
pub struct Camera {
    pub origin: Vec3,
    pub tan_half_vfov: i64,
    pub aspect_ratio: i64,
    pub focal_length: i64,
    pub viewport_height: i64,
    pub viewport_width: i64,
}

impl Camera {
    /// A camera the sampler accepts: parameters in range and the stored
    /// viewport equal to the derived one.
    pub open spec fn wf(self) -> bool {
        &&& in_bounds(self.origin, COORD_LIMIT as int)
        &&& 1 <= self.tan_half_vfov <= MAX_TAN
        &&& MIN_ASPECT <= self.aspect_ratio <= MAX_ASPECT
        &&& MIN_FOCAL <= self.focal_length <= MAX_FOCAL
        &&& self.viewport_height == spec_viewport_height(self.tan_half_vfov as int,
            self.focal_length as int)
        &&& self.viewport_width == spec_viewport_width(self.aspect_ratio as int,
            self.viewport_height as int)
        &&& 1 <= self.viewport_height <= VIEW_LIMIT
        &&& 1 <= self.viewport_width <= VIEW_LIMIT
    }

    /// Build a camera, deriving the viewport. Out-of-range parameters — and
    /// the degenerate viewports they could produce — are rejected here, so
    /// that [`Camera::get_ray`] is total over the camera's lifetime.
    pub fn new(origin: Vec3, tan_half_vfov: i64, aspect_ratio: i64, focal_length: i64) -> (r:
        Result<Camera, CameraError>)
        ensures
            r is Ok <==> ({
                let vh = spec_viewport_height(tan_half_vfov as int, focal_length as int);
                let vw = spec_viewport_width(aspect_ratio as int, vh);
                &&& in_bounds(origin, COORD_LIMIT as int)
                &&& 1 <= tan_half_vfov <= MAX_TAN
                &&& MIN_ASPECT <= aspect_ratio <= MAX_ASPECT
                &&& MIN_FOCAL <= focal_length <= MAX_FOCAL
                &&& 1 <= vh <= VIEW_LIMIT
                &&& 1 <= vw <= VIEW_LIMIT
            }),
            r is Ok ==> r.unwrap().wf() && r.unwrap() == (Camera {
                origin,
                tan_half_vfov,
                aspect_ratio,
                focal_length,
                viewport_height: spec_viewport_height(tan_half_vfov as int,
                    focal_length as int) as i64,
                viewport_width: spec_viewport_width(aspect_ratio as int, spec_viewport_height(
                    tan_half_vfov as int, focal_length as int)) as i64,
            }),
    {
        if origin.x < -COORD_LIMIT || origin.x > COORD_LIMIT || origin.y < -COORD_LIMIT
            || origin.y > COORD_LIMIT || origin.z < -COORD_LIMIT || origin.z > COORD_LIMIT {
            return Err(CameraError::OriginOutOfRange);
        }
        if tan_half_vfov < 1 || tan_half_vfov > MAX_TAN {
            return Err(CameraError::FieldOfViewOutOfRange);
        }
        if aspect_ratio < MIN_ASPECT || aspect_ratio > MAX_ASPECT {
            return Err(CameraError::AspectOutOfRange);
        }
        if focal_length < MIN_FOCAL || focal_length > MAX_FOCAL {
            return Err(CameraError::FocalLengthOutOfRange);
        }
        proof {
            lemma_abs_mul(2 * tan_half_vfov, focal_length as int, 2 * MAX_TAN as int,
                MAX_FOCAL as int);
        }
        let viewport_height = mul_fx(2 * tan_half_vfov, focal_length);
        proof {
            lemma_tdiv_bound((2 * tan_half_vfov) * focal_length, SCALE as int,
                0x4000_0000_0000);
            if 1 <= viewport_height <= VIEW_LIMIT {
                lemma_abs_mul(aspect_ratio as int, viewport_height as int, MAX_ASPECT as int,
                    VIEW_LIMIT as int);
            }
        }
        if viewport_height < 1 || viewport_height > VIEW_LIMIT {
            return Err(CameraError::ViewportOutOfRange);
        }
        let viewport_width = mul_fx(aspect_ratio, viewport_height);
        if viewport_width < 1 || viewport_width > VIEW_LIMIT {
            return Err(CameraError::ViewportOutOfRange);
        }
        Ok(Camera { origin, tan_half_vfov, aspect_ratio, focal_length, viewport_height,
            viewport_width })
    }
}

/// The primary ray through screen position `(u, v)`: through the viewport
/// point `((u - 1/2) * width, -(v - 1/2) * height, -focal_length)` relative
/// to the camera origin, so `v` grows downward with the image row. The
/// direction is normalized.
pub open spec fn spec_get_ray(cam: Camera, u: int, v: int) -> Ray {
    let xd = tdiv((u - 32768) * cam.viewport_width, SCALE as int) as i64;
    let yd = (-tdiv((v - 32768) * cam.viewport_height, SCALE as int)) as i64;
    let dir = Vec3 { x: xd, y: yd, z: (-cam.focal_length) as i64 };
    Ray { origin: cam.origin, direction: spec_normalize(dir) }
}

impl Camera {
    /// The primary ray through screen position `(u, v)`; see
    /// [`spec_get_ray`] for the convention. The screen coordinates may
    /// overshoot 1 by up to another whole unit, which a jittered sampler
    /// needs at the last row and column.
    pub fn get_ray(&self, u: i64, v: i64) -> (r: Ray)
        requires
            self.wf(),
            0 <= u <= 2 * SCALE,
            0 <= v <= 2 * SCALE,
        ensures
            r == spec_get_ray(*self, u as int, v as int),
            r.wf(),
    {
        proof {
            lemma_abs_mul((u as int) - 32768, self.viewport_width as int, 98304,
                VIEW_LIMIT as int);
            lemma_abs_mul((v as int) - 32768, self.viewport_height as int, 98304,
                VIEW_LIMIT as int);
            lemma_tdiv_bound((u - 32768) * self.viewport_width, SCALE as int, 0x1000_0000);
            lemma_tdiv_bound((v - 32768) * self.viewport_height, SCALE as int, 0x1000_0000);
        }
        let xd = mul_fx(u - 32768, self.viewport_width);
        let yd = -mul_fx(v - 32768, self.viewport_height);
        let dir = Vec3 { x: xd, y: yd, z: -self.focal_length };
        proof {
            assert(xd * xd >= 0 && yd * yd >= 0) by (nonlinear_arith);
            assert(dir.z * dir.z >= MIN_DIR_NSQ as int) by (nonlinear_arith)
                requires
                    dir.z <= -32768 || dir.z >= 32768,
                    MIN_DIR_NSQ == 268435456,
            ;
            assert(Ray::inputs_ok(self.origin, dir));
        }
        Ray::new(self.origin, dir).unwrap()
    }
}

} // verus!
