//! The camera, tone mapping, and the full sampler pipeline.

use rust_raytracing::camera::{Camera, CameraError};
use rust_raytracing::render::{
    render_image, render_pixel, write_color, ConfigError, RenderConfig,
};
use rust_raytracing::rng::RandomSource;
use rust_raytracing::vec3::Vec3;
use rust_raytracing::world::{Material, Sphere};

const S: i64 = 65536;

fn v(x: i64, y: i64, z: i64) -> Vec3 {
    Vec3 { x, y, z }
}

fn test_camera() -> Camera {
    // 90 degrees of vertical view (tangent of half the angle is 1), square
    // aspect, focal length one unit.
    Camera::new(v(0, 0, 0), S, S, S).unwrap()
}

fn test_scene() -> Vec<Sphere> {
    vec![
        Sphere::new(v(0, 0, -2 * S), S / 2, v(45875, 19660, 19660), Material::Lambertian)
            .unwrap(),
        Sphere::new(v(S, 0, -2 * S), S / 2, v(52428, 39321, 13107), Material::Metal).unwrap(),
    ]
}

#[test]
fn camera_center_ray_looks_down_axis() {
    let cam = test_camera();
    let ray = cam.get_ray(S / 2, S / 2);
    assert_eq!(ray.direction, v(0, 0, -S));
    assert_eq!(ray.origin, v(0, 0, 0));
}

#[test]
fn camera_viewport_is_derived() {
    let cam = test_camera();
    // viewport_height = 2 * tan * focal = 2; width = aspect * height.
    assert_eq!(cam.viewport_height, 2 * S);
    assert_eq!(cam.viewport_width, 2 * S);
}

#[test]
fn camera_vertical_convention_v_grows_downward() {
    let cam = test_camera();
    // v = 0 is the top of the viewport: the ray bends upward (+y).
    let top = cam.get_ray(S / 2, 0);
    let bottom = cam.get_ray(S / 2, S);
    assert!(top.direction.y > 0);
    assert!(bottom.direction.y < 0);
}

#[test]
fn camera_new_rejects_bad_parameters() {
    assert_eq!(Camera::new(v(0, 0, 0), 0, S, S), Err(CameraError::FieldOfViewOutOfRange));
    assert_eq!(Camera::new(v(0, 0, 0), S, 0, S), Err(CameraError::AspectOutOfRange));
    assert_eq!(Camera::new(v(0, 0, 0), S, S, 0), Err(CameraError::FocalLengthOutOfRange));
    assert_eq!(
        Camera::new(v(i64::MAX / 2, 0, 0), S, S, S),
        Err(CameraError::OriginOutOfRange)
    );
}

#[test]
fn write_color_gamma_one_endpoints() {
    // An accumulated average of exactly 1.0 per channel maps to byte 255,
    // an average of 0.0 to byte 0 — gamma 1 is plain linear scaling.
    assert_eq!(write_color(v(100 * S, 100 * S, 100 * S), 100, 1), vec![255, 255, 255]);
    assert_eq!(write_color(v(0, 0, 0), 100, 1), vec![0, 0, 0]);
}

#[test]
fn write_color_truncates() {
    // Just under 1.0 truncates down, never rounds up.
    assert_eq!(write_color(v(S - 1, S - 1, S - 1), 1, 1), vec![254, 254, 254]);
}

#[test]
fn write_color_gamma_two_takes_square_root() {
    // An average of 0.25 under gamma 2 maps to floor(255 * 0.5) = 127.
    assert_eq!(write_color(v(S / 4, S / 4, S / 4), 1, 2), vec![127, 127, 127]);
}

#[test]
fn write_color_clamps_out_of_range_averages() {
    assert_eq!(write_color(v(2 * S, 2 * S, 2 * S), 1, 1), vec![255, 255, 255]);
    assert_eq!(write_color(v(-S, -S, -S), 1, 1), vec![0, 0, 0]);
}

#[test]
fn config_derives_height_by_rounding() {
    // Width 400 at 16:9 gives height round(400 * 9 / 16) = 225.
    let aspect = 16 * S / 9;
    let cfg = RenderConfig::new(400, aspect, 100, 50, 2).unwrap();
    assert_eq!(cfg.image_height, 225);
    assert_eq!(cfg.image_width, 400);
}

#[test]
fn config_rejects_out_of_domain_settings() {
    assert_eq!(RenderConfig::new(0, S, 1, 1, 2), Err(ConfigError::WidthOutOfRange));
    assert_eq!(RenderConfig::new(1, S, 1, 1, 2), Err(ConfigError::WidthOutOfRange));
    assert_eq!(RenderConfig::new(8, 0, 1, 1, 2), Err(ConfigError::AspectOutOfRange));
    assert_eq!(RenderConfig::new(8, S, 0, 1, 2), Err(ConfigError::SamplesOutOfRange));
    assert_eq!(RenderConfig::new(8, S, 1, 0, 2), Err(ConfigError::DepthOutOfRange));
    assert_eq!(RenderConfig::new(8, S, 1, 1, 0), Err(ConfigError::GammaOutOfRange));
    assert_eq!(RenderConfig::new(8, S, 1, 1, 13), Err(ConfigError::GammaOutOfRange));
    assert!(RenderConfig::new(8, S, 1, 1, 2).is_ok());
}

#[test]
fn render_is_deterministic_under_a_fixed_seed() {
    // Two renders of the same scene and configuration from the same seed
    // agree byte for byte.
    let cam = test_camera();
    let world = test_scene();
    let cfg = RenderConfig::new(8, S, 2, 4, 2).unwrap();
    let one = render_image(&cam, &world, &cfg, 7);
    let two = render_image(&cam, &world, &cfg, 7);
    assert_eq!(one.len(), 8 * 8 * 3);
    assert_eq!(one, two);
}

#[test]
fn render_pixel_matches_the_assembled_image() {
    let cam = test_camera();
    let world = test_scene();
    let cfg = RenderConfig::new(4, S, 2, 4, 2).unwrap();
    let img = render_image(&cam, &world, &cfg, 123);
    for j in 0..cfg.image_height {
        for i in 0..cfg.image_width {
            let px = render_pixel(&cam, &world, &cfg, 123, i, j);
            let at = ((j * cfg.image_width + i) * 3) as usize;
            assert_eq!(&img[at..at + 3], &px[..]);
        }
    }
}

#[test]
fn render_row_zero_is_the_top_of_the_image() {
    // Sky only, gamma 1: the top of the image looks toward the zenith, whose
    // red channel is darker than the horizon's at the bottom.
    let cam = test_camera();
    let world: Vec<Sphere> = vec![];
    let cfg = RenderConfig::new(4, S, 1, 4, 1).unwrap();
    let img = render_image(&cam, &world, &cfg, 3);
    let top_red = img[0];
    let bottom_red = img[((cfg.image_height - 1) * cfg.image_width * 3) as usize];
    assert!(top_red < bottom_red, "top {} bottom {}", top_red, bottom_red);
}

#[test]
fn pixel_streams_are_seeded_deterministically() {
    let a = RandomSource::for_pixel(99, 5);
    let b = RandomSource::for_pixel(99, 5);
    let mut a = a;
    let mut b = b;
    assert_eq!(a.next_bits(), b.next_bits());
}
