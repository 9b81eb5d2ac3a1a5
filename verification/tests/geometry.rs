//! Vector algebra, ray construction and ray/sphere intersection.

use rust_raytracing::ray::Ray;
use rust_raytracing::vec3::{attenuate, dot, negate_vector, normalize, reflect, sum, Vec3};
use rust_raytracing::world::{nearest_hit, Material, SceneError, Sphere};

const S: i64 = 65536;

fn v(x: i64, y: i64, z: i64) -> Vec3 {
    Vec3 { x, y, z }
}

fn norm_sq(d: &Vec3) -> i128 {
    let (x, y, z) = (d.x as i128, d.y as i128, d.z as i128);
    x * x + y * y + z * z
}

fn assert_near_unit(d: &Vec3) {
    let n2 = norm_sq(d);
    let unit = (S as i128) * (S as i128);
    let tol = 13 * (S as i128);
    assert!(unit - tol <= n2 && n2 <= unit + tol, "norm_sq {} not within tolerance", n2);
}

#[test]
fn dot_is_exact() {
    let a = v(S, 2 * S, 3 * S);
    let b = v(4 * S, 5 * S, 6 * S);
    assert_eq!(dot(&a, &b), 32 * (S as i128) * (S as i128));
}

#[test]
fn sum_and_negate_are_elementwise() {
    let a = v(S, -2 * S, 3);
    let b = v(10, 20, -30);
    assert_eq!(sum(&a, &b), v(S + 10, -2 * S + 20, -27));
    assert_eq!(negate_vector(&a), v(-S, 2 * S, -3));
}

#[test]
fn attenuate_multiplies_channels() {
    let a = v(S / 2, S, 0);
    let b = v(S, S / 2, S);
    assert_eq!(attenuate(&a, &b), v(S / 2, S / 2, 0));
}

#[test]
fn normalize_axis_is_exact() {
    assert_eq!(normalize(&v(0, 0, -5 * S)), v(0, 0, -S));
    assert_eq!(normalize(&v(7 * S, 0, 0)), v(S, 0, 0));
}

#[test]
fn normalize_pythagorean_triple() {
    // |(3, 4, 12)| = 13 exactly; each component truncates to the grid.
    let r = normalize(&v(3 * S, 4 * S, 12 * S));
    assert_eq!(r, v(196608 / 13, 262144 / 13, 786432 / 13));
    assert_near_unit(&r);
}

#[test]
fn reflect_head_on_turns_back() {
    let r = reflect(&v(0, 0, -S), &v(0, 0, S));
    assert_eq!(r, v(0, 0, S));
}

#[test]
fn reflect_at_angle() {
    // Incoming at 45 degrees onto the floor normal: x keeps, z flips.
    let d = normalize(&v(S, 0, -S));
    let r = reflect(&d, &v(0, 0, S));
    assert_eq!(r.x, d.x);
    assert_eq!(r.z, -d.z);
}

#[test]
fn ray_new_normalizes_any_direction() {
    // Non-unit and negative inputs all come out unit length.
    for dir in [v(3 * S, 4 * S, 12 * S), v(0, 0, -5 * S), v(-7 * S, S, 2 * S), v(S, S, S)] {
        let ray = Ray::new(v(0, 0, 0), dir).expect("valid direction");
        assert_near_unit(&ray.direction);
    }
}

#[test]
fn ray_new_rejects_degenerate_direction() {
    assert!(Ray::new(v(0, 0, 0), v(0, 0, 0)).is_none());
    // Shorter than half a unit: too short to normalize.
    assert!(Ray::new(v(0, 0, 0), v(100, 100, 100)).is_none());
    // Origin outside the world volume.
    assert!(Ray::new(v(i64::MAX / 2, 0, 0), v(0, 0, -S)).is_none());
}

#[test]
fn sphere_hit_head_on() {
    // Ray from the origin straight at a sphere of radius 0.5 centered one
    // unit down the -z axis: strikes at t = 0.5.
    let sphere = Sphere::new(v(0, 0, -S), S / 2, v(S, S, S), Material::Lambertian).unwrap();
    let ray = Ray::new(v(0, 0, 0), v(0, 0, -S)).unwrap();
    let rec = sphere.hit(&ray, 0, i64::MAX).expect("must hit");
    assert_eq!(rec.t, S / 2);
    assert_eq!(rec.point_of_contact, v(0, 0, -S / 2));
    assert_eq!(rec.normal, v(0, 0, S));
    assert!(rec.front_face);
    assert_eq!(rec.albedo, v(S, S, S));
}

#[test]
fn sphere_get_root_head_on() {
    let sphere = Sphere::new(v(0, 0, -S), S / 2, v(S, S, S), Material::Lambertian).unwrap();
    let ray = Ray::new(v(0, 0, 0), v(0, 0, -S)).unwrap();
    assert_eq!(sphere.get_root(0, i64::MAX, &ray), Some(S / 2));
}

#[test]
fn sphere_miss_is_none() {
    // Same sphere, ray pointing along +x: parallel to and offset from it.
    let sphere = Sphere::new(v(0, 0, -S), S / 2, v(S, S, S), Material::Lambertian).unwrap();
    let ray = Ray::new(v(0, 0, 0), v(S, 0, 0)).unwrap();
    assert!(sphere.hit(&ray, 0, i64::MAX).is_none());
    assert!(sphere.get_root(0, i64::MAX, &ray).is_none());
}

#[test]
fn sphere_hit_from_inside_flips_normal() {
    let sphere = Sphere::new(v(0, 0, -S), S / 2, v(S, S, S), Material::Lambertian).unwrap();
    // Start at the center, look down -z: strike the inside wall.
    let ray = Ray::new(v(0, 0, -S), v(0, 0, -S)).unwrap();
    let rec = sphere.hit(&ray, 0, i64::MAX).expect("must hit");
    assert_eq!(rec.t, S / 2);
    assert!(!rec.front_face);
    // Oriented against the ray: back toward +z.
    assert_eq!(rec.normal, v(0, 0, S));
}

#[test]
fn window_excludes_boundary_roots() {
    let sphere = Sphere::new(v(0, 0, -S), S / 2, v(S, S, S), Material::Lambertian).unwrap();
    let ray = Ray::new(v(0, 0, 0), v(0, 0, -S)).unwrap();
    // Roots at 0.5 and 1.5; a window that ends exactly at the nearer root
    // excludes it and a window past both takes the nearer.
    assert_eq!(sphere.get_root(0, S / 2, &ray), None);
    assert_eq!(sphere.get_root(S / 2, i64::MAX, &ray), Some(3 * S / 2));
    assert_eq!(sphere.get_root(0, 2 * S, &ray), Some(S / 2));
}

#[test]
fn nearest_hit_takes_smaller_t() {
    // Two spheres along the ray, struck at t = 1 and t = 3.
    let near = Sphere::new(v(0, 0, -2 * S), S, v(S, 0, 0), Material::Lambertian).unwrap();
    let far = Sphere::new(v(0, 0, -4 * S), S, v(0, S, 0), Material::Lambertian).unwrap();
    let ray = Ray::new(v(0, 0, 0), v(0, 0, -S)).unwrap();
    for world in [vec![near, far], vec![far, near]] {
        let rec = nearest_hit(&world, &ray, 65, i64::MAX).expect("must hit");
        assert_eq!(rec.t, S);
        assert_eq!(rec.albedo, v(S, 0, 0));
    }
}

#[test]
fn nearest_hit_tie_takes_later_sphere() {
    let a = Sphere::new(v(0, 0, -2 * S), S, v(S, 0, 0), Material::Lambertian).unwrap();
    let b = Sphere::new(v(0, 0, -2 * S), S, v(0, S, 0), Material::Lambertian).unwrap();
    let ray = Ray::new(v(0, 0, 0), v(0, 0, -S)).unwrap();
    let rec = nearest_hit(&vec![a, b], &ray, 65, i64::MAX).expect("must hit");
    assert_eq!(rec.albedo, v(0, S, 0));
}

#[test]
fn nearest_hit_empty_world_is_none() {
    let ray = Ray::new(v(0, 0, 0), v(0, 0, -S)).unwrap();
    assert!(nearest_hit(&vec![], &ray, 65, i64::MAX).is_none());
}

#[test]
fn sphere_new_rejects_bad_geometry() {
    let white = v(S, S, S);
    assert_eq!(
        Sphere::new(v(0, 0, 0), 0, white, Material::Metal),
        Err(SceneError::RadiusOutOfRange)
    );
    assert_eq!(
        Sphere::new(v(0, 0, 0), -S, white, Material::Metal),
        Err(SceneError::RadiusOutOfRange)
    );
    // A sphere the grid cannot render — radius below a quarter unit plus
    // the truncation margin — is rejected at construction, not silently
    // missed at render time.
    assert_eq!(
        Sphere::new(v(0, 0, 0), 1, white, Material::Metal),
        Err(SceneError::RadiusOutOfRange)
    );
    assert_eq!(
        Sphere::new(v(0, 0, 0), 16399, white, Material::Metal),
        Err(SceneError::RadiusOutOfRange)
    );
    assert_eq!(
        Sphere::new(v(i64::MAX / 2, 0, 0), S, white, Material::Metal),
        Err(SceneError::CenterOutOfRange)
    );
    // A sphere protruding beyond the world volume is rejected too.
    assert_eq!(
        Sphere::new(v(268435456 - S / 2, 0, 0), S, white, Material::Metal),
        Err(SceneError::CenterOutOfRange)
    );
    assert_eq!(
        Sphere::new(v(0, 0, 0), S, v(S + 1, 0, 0), Material::Metal),
        Err(SceneError::AlbedoOutOfRange)
    );
    assert_eq!(
        Sphere::new(v(0, 0, 0), S, v(0, -1, 0), Material::Metal),
        Err(SceneError::AlbedoOutOfRange)
    );
    assert!(Sphere::new(v(0, 0, 0), S, white, Material::Metal).is_ok());
}

#[test]
fn smallest_renderable_sphere_is_visible() {
    // The smallest radius construction accepts (16400 steps, just over a
    // quarter unit) still renders: a head-on ray strikes it and the hit
    // carries a usable normal.
    let sphere = Sphere::new(v(0, 0, -S), 16400, v(S, S, S), Material::Lambertian).unwrap();
    let ray = Ray::new(v(0, 0, 0), v(0, 0, -S)).unwrap();
    let root = sphere.get_root(0, i64::MAX, &ray).expect("root in window");
    let rec = sphere.hit(&ray, 0, i64::MAX).expect("every root yields a record");
    assert_eq!(rec.t, root);
    assert_eq!(rec.t, S - 16400);
    assert!(rec.front_face);
    assert_near_unit(&rec.normal);
}
