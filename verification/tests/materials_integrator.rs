//! Scattering and the path integrator.

use rust_raytracing::ray::{random_unit_sphere_vector, Ray};
use rust_raytracing::rng::RandomSource;
use rust_raytracing::trace::{color_scale_recursive, sky_color};
use rust_raytracing::vec3::Vec3;
use rust_raytracing::world::{scatter, HitRecord, Material, Sphere};

const S: i64 = 65536;

fn v(x: i64, y: i64, z: i64) -> Vec3 {
    Vec3 { x, y, z }
}

fn norm_sq(d: &Vec3) -> i128 {
    let (x, y, z) = (d.x as i128, d.y as i128, d.z as i128);
    x * x + y * y + z * z
}

fn assert_near_unit(d: &Vec3) {
    let n2 = norm_sq(d);
    let unit = (S as i128) * (S as i128);
    let tol = 13 * (S as i128);
    assert!(unit - tol <= n2 && n2 <= unit + tol, "norm_sq {} not within tolerance", n2);
}

fn record(normal: Vec3, material: Material) -> HitRecord {
    HitRecord {
        point_of_contact: v(0, 0, 0),
        normal,
        material,
        albedo: v(S / 2, S / 2, S / 2),
        t: 100,
        front_face: true,
    }
}

#[test]
fn metal_absorbs_when_reflection_stays_under_surface() {
    // Incoming along the normal itself: the reflection points straight back
    // into the surface, so the metal absorbs it.
    let rec = record(v(0, 0, S), Material::Metal);
    let ray = Ray::new(v(0, 0, 0), v(0, 0, S)).unwrap();
    let mut rng = RandomSource::new(1);
    assert!(scatter(&rec, &ray, &mut rng).is_none());
}

#[test]
fn metal_reflects_head_on() {
    let rec = record(v(0, 0, S), Material::Metal);
    let ray = Ray::new(v(0, 0, 0), v(0, 0, -S)).unwrap();
    let mut rng = RandomSource::new(1);
    let out = scatter(&rec, &ray, &mut rng).expect("must scatter");
    assert_eq!(out.direction, v(0, 0, S));
    assert_eq!(out.origin, rec.point_of_contact);
}

#[test]
fn lambertian_always_scatters() {
    let rec = record(v(0, 0, S), Material::Lambertian);
    let ray = Ray::new(v(0, 0, 0), v(0, 0, -S)).unwrap();
    for seed in [0u64, 1, 2, 3, 99] {
        let mut rng = RandomSource::new(seed);
        let out = scatter(&rec, &ray, &mut rng).expect("Lambertian never absorbs");
        assert_eq!(out.origin, rec.point_of_contact);
        assert_near_unit(&out.direction);
    }
}

#[test]
fn random_unit_sphere_vector_is_unit_and_seeded() {
    let mut a = RandomSource::new(42);
    let mut b = RandomSource::new(42);
    for _ in 0..20 {
        let va = random_unit_sphere_vector(&mut a);
        let vb = random_unit_sphere_vector(&mut b);
        assert_eq!(va, vb);
        assert_near_unit(&va);
    }
}

#[test]
fn rng_draws_stay_in_range() {
    let mut rng = RandomSource::new(7);
    for _ in 0..1000 {
        let u = rng.next_unit();
        assert!(0 <= u && u < S);
    }
    for _ in 0..1000 {
        let s = rng.next_symmetric();
        assert!(-S <= s && s < S);
    }
}

#[test]
fn trace_depth_zero_is_black() {
    // Depth zero gathers nothing, whatever the scene and attenuation.
    let world = vec![
        Sphere::new(v(0, 0, -2 * S), S, v(S, S, S), Material::Lambertian).unwrap(),
    ];
    let ray = Ray::new(v(0, 0, 0), v(0, 0, -S)).unwrap();
    let mut rng = RandomSource::new(5);
    let c = color_scale_recursive(&ray, &world, 0, v(S, S, S), &mut rng);
    assert_eq!(c, v(0, 0, 0));
}

#[test]
fn trace_tangent_metal_ray_is_absorbed() {
    // The ray grazes the metal sphere exactly at its silhouette: the
    // truncated reflection does not leave the surface and the path ends
    // black.
    let world = vec![
        Sphere::new(v(S, 0, -2 * S), S, v(S, S, S), Material::Metal).unwrap(),
    ];
    let ray = Ray::new(v(0, 0, 0), v(0, 0, -S)).unwrap();
    let mut rng = RandomSource::new(5);
    let c = color_scale_recursive(&ray, &world, 10, v(S, S, S), &mut rng);
    assert_eq!(c, v(0, 0, 0));
}

#[test]
fn sky_straight_up_is_zenith() {
    let c = sky_color(&v(0, S, 0));
    assert_eq!(c, v(32768, 45875, 65536));
}

#[test]
fn sky_straight_down_is_horizon() {
    let c = sky_color(&v(0, -S, 0));
    assert_eq!(c, v(S, S, S));
}

#[test]
fn trace_miss_returns_attenuated_sky() {
    let world: Vec<Sphere> = vec![];
    let up = Ray::new(v(0, 0, 0), v(0, 5 * S, 0)).unwrap();
    let down = Ray::new(v(0, 0, 0), v(0, -5 * S, 0)).unwrap();
    let mut rng = RandomSource::new(9);
    assert_eq!(color_scale_recursive(&up, &world, 4, v(S, S, S), &mut rng), v(32768, 45875, 65536));
    assert_eq!(color_scale_recursive(&down, &world, 4, v(S, S, S), &mut rng), v(S, S, S));
    // The attenuation multiplies the sky: half gray against the horizon.
    let half = v(S / 2, S / 2, S / 2);
    assert_eq!(color_scale_recursive(&down, &world, 4, half, &mut rng), half);
}

#[test]
fn trace_level_ray_sees_mid_gradient() {
    // A horizontal direction has t = 1/2: halfway from horizon to zenith.
    let world: Vec<Sphere> = vec![];
    let ray = Ray::new(v(0, 0, 0), v(0, 0, -S)).unwrap();
    let mut rng = RandomSource::new(9);
    let c = color_scale_recursive(&ray, &world, 4, v(S, S, S), &mut rng);
    assert_eq!(c, v(49152, 55705, 65536));
}
