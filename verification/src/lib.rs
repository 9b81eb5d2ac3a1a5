//! A Monte-Carlo path tracer over a scene of spheres, written in fixed-point
//! arithmetic so that every stage of the pipeline carries an exact contract:
//! camera rays, ray/sphere intersection, material scattering, the recursive
//! path integrator, and the per-pixel sampler with gamma tone mapping.
//!
//! Every scalar is an `i64` counting 1/65536ths of a world unit (see
//! [`fixed::SCALE`]); colors use the same grid, with 1.0 = `SCALE` as full
//! intensity. Randomness comes from an explicit, seeded generator handle
//! threaded through the sampler, so a render is a pure function of the scene,
//! the configuration and the seed.

pub mod camera;
pub mod fixed;
pub mod ray;
pub mod render;
pub mod rng;
pub mod trace;
pub mod vec3;
pub mod world;

pub use fixed::SCALE;
