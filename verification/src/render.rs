//! The sampler and pixel resolver: jittered samples per pixel, averaged and
//! gamma-corrected into 8-bit RGB triples, assembled into a row-major grid.
//!
//! Every pixel draws from its own random stream, derived from the render
//! seed and the pixel index, so pixels are independent of one another — the
//! natural parallel decomposition is one unit of work per pixel — and the
//! whole grid is a pure function of camera, scene, configuration and seed.

use vstd::prelude::*;

use crate::camera::{spec_get_ray, Camera, MAX_ASPECT, MIN_ASPECT};
use crate::fixed::{clamp, lemma_powi_255_max, lemma_powi_le, lemma_tdiv_bound,
    lemma_tdiv_magnitude, pow_small, powi, spec_clamp, tdiv, SCALE};
use crate::rng::{spec_stream, RandomSource};
use crate::trace::{black, compute_color_scale, spec_trace, white};
use crate::vec3::{in_bounds, Vec3};
use crate::world::{spheres_ok, Sphere};

verus! {

/// Largest accepted image dimension, in pixels.
pub const MAX_DIM: u32 = 8192;

/// Largest accepted number of samples per pixel.
pub const MAX_SAMPLES: u32 = 65536;

/// Largest accepted gamma exponent.
pub const MAX_GAMMA: u32 = 12;

/// Why a render configuration was rejected at construction.
#[derive(Clone, Copy, PartialEq, Eq, Structural, Debug)]
pub enum ConfigError {
    WidthOutOfRange,
    AspectOutOfRange,
    HeightOutOfRange,
    SamplesOutOfRange,
    DepthOutOfRange,
    GammaOutOfRange,
}

/// The image height derived from the width and the aspect ratio:
/// `round(width / aspect)`, computed as `floor((2 w SCALE + a) / (2 a))`.
pub open spec fn spec_derived_height(width: int, aspect: int) -> int {
    (2 * width * SCALE + aspect) / (2 * aspect)
}

/// The immutable parameters of one render.
#[derive(Clone, Copy, PartialEq, Eq, Structural, Debug)]
pub struct RenderConfig {
    pub image_width: u32,
    pub image_height: u32,
    pub aspect_ratio: i64,
    pub samples_per_pixel: u32,
    pub recursion_depth_limit: u32,
    pub gamma: u32,
}

impl RenderConfig {
    /// A configuration the sampler accepts: dimensions at least 2 by 2 (the
    /// screen mapping divides by `dimension - 1`), the height the derived
    /// one, and positive sample, depth and gamma settings within their caps.
    pub open spec fn wf(self) -> bool {
        &&& 2 <= self.image_width <= MAX_DIM
        &&& MIN_ASPECT <= self.aspect_ratio <= MAX_ASPECT
        &&& self.image_height == spec_derived_height(self.image_width as int,
            self.aspect_ratio as int)
        &&& 2 <= self.image_height <= MAX_DIM
        &&& 1 <= self.samples_per_pixel <= MAX_SAMPLES
        &&& 1 <= self.recursion_depth_limit
        &&& 1 <= self.gamma <= MAX_GAMMA
    }

    /// Build a configuration, deriving the image height and rejecting every
    /// out-of-domain setting — zero or oversized dimensions, zero samples,
    /// zero depth, zero gamma — at construction time, never at render time.
    pub fn new(
        image_width: u32,
        aspect_ratio: i64,
        samples_per_pixel: u32,
        recursion_depth_limit: u32,
        gamma: u32,
    ) -> (r: Result<RenderConfig, ConfigError>)
        ensures
            r is Ok <==> (2 <= image_width <= MAX_DIM && MIN_ASPECT <= aspect_ratio
                <= MAX_ASPECT && 2 <= spec_derived_height(image_width as int,
                aspect_ratio as int) <= MAX_DIM && 1 <= samples_per_pixel <= MAX_SAMPLES && 1
                <= recursion_depth_limit && 1 <= gamma <= MAX_GAMMA),
            r is Ok ==> r.unwrap().wf() && r.unwrap() == (RenderConfig {
                image_width,
                image_height: spec_derived_height(image_width as int, aspect_ratio as int)
                    as u32,
                aspect_ratio,
                samples_per_pixel,
                recursion_depth_limit,
                gamma,
            }),
    {
        if image_width < 2 || image_width > MAX_DIM {
            return Err(ConfigError::WidthOutOfRange);
        }
        if aspect_ratio < MIN_ASPECT || aspect_ratio > MAX_ASPECT {
            return Err(ConfigError::AspectOutOfRange);
        }
        proof {
            assert(2 * (image_width as int) * (SCALE as int) + aspect_ratio <= u64::MAX as int)
                by (nonlinear_arith)
                requires
                    image_width <= 8192,
                    0 <= aspect_ratio <= 1048576,
                    SCALE == 65536,
            ;
        }
        let num: u64 = 2 * (image_width as u64) * (SCALE as u64) + (aspect_ratio as u64);
        let den: u64 = 2 * (aspect_ratio as u64);
        let height_wide: u64 = num / den;
        proof {
            assert(height_wide == spec_derived_height(image_width as int, aspect_ratio as int));
        }
        if height_wide < 2 || height_wide > MAX_DIM as u64 {
            return Err(ConfigError::HeightOutOfRange);
        }
        let image_height: u32 = height_wide as u32;
        if samples_per_pixel < 1 || samples_per_pixel > MAX_SAMPLES {
            return Err(ConfigError::SamplesOutOfRange);
        }
        if recursion_depth_limit < 1 {
            return Err(ConfigError::DepthOutOfRange);
        }
        if gamma < 1 || gamma > MAX_GAMMA {
            return Err(ConfigError::GammaOutOfRange);
        }
        Ok(RenderConfig {
            image_width,
            image_height,
            aspect_ratio,
            samples_per_pixel,
            recursion_depth_limit,
            gamma,
        })
    }
}

/// The largest byte `b <= bound` with `b^g * SCALE <= 255^g * c`, or zero.
/// For the clamped channel average `c`, this is exactly
/// `floor(255 * (c / SCALE)^(1 / g))`: gamma correction followed by scaling
/// to 255 and truncation to an integer.
pub open spec fn tone_from(c: int, g: nat, bound: int) -> int
    decreases bound,
{
    if bound <= 0 {
        0
    } else if powi(bound, g) * SCALE <= powi(255, g) * c {
        bound
    } else {
        tone_from(c, g, bound - 1)
    }
}

/// The tone-mapped byte of a channel average: clamp into `[0, 1]`, apply the
/// `1/gamma` power, scale by 255, truncate.
pub open spec fn spec_tone_byte(avg: int, g: nat) -> int {
    tone_from(spec_clamp(avg, 0, SCALE as int), g, 255)
}

/// The search result stays a byte.
pub proof fn lemma_tone_from_range(c: int, g: nat, bound: int)
    requires
        0 <= bound <= 255,
    ensures
        0 <= tone_from(c, g, bound) <= bound,
    decreases bound,
{
    if bound > 0 {
        lemma_tone_from_range(c, g, bound - 1);
    }
}

/// Gamma-correct one channel average into a byte.
pub fn tone_byte(avg: i64, gamma: u32) -> (r: u8)
    requires
        1 <= gamma <= MAX_GAMMA,
    ensures
        r as int == spec_tone_byte(avg as int, gamma as nat),
{
    let c = clamp(avg, 0, SCALE);
    proof {
        lemma_powi_255_max(gamma as nat);
        assert(powi(255, gamma as nat) * c <= 75593101654204447168212890625 * 65536)
            by (nonlinear_arith)
            requires
                0 <= powi(255, gamma as nat) <= 75593101654204447168212890625,
                0 <= c <= 65536,
        ;
    }
    let p255 = pow_small(255, gamma);
    let target: u128 = p255 * (c as u128);
    let mut b: u64 = 255;
    while b > 0
        invariant
            b <= 255,
            1 <= gamma <= MAX_GAMMA,
            0 <= c <= SCALE,
            c as int == spec_clamp(avg as int, 0, SCALE as int),
            target == powi(255, gamma as nat) * (c as int),
            tone_from(c as int, gamma as nat, 255) == tone_from(c as int, gamma as nat,
                b as int),
        decreases b,
    {
        let pb = pow_small(b, gamma);
        proof {
            lemma_powi_le(b as int, 255, gamma as nat);
            lemma_powi_255_max(gamma as nat);
            assert(powi(b as int, gamma as nat) * SCALE <= 75593101654204447168212890625
                * 65536) by (nonlinear_arith)
                requires
                    0 <= powi(b as int, gamma as nat) <= 75593101654204447168212890625,
                    SCALE == 65536,
            ;
        }
        if pb * (SCALE as u128) <= target {
            return b as u8;
        }
        b = b - 1;
    }
    0u8
}

/// Average the accumulated per-pixel color over its samples and tone-map
/// each channel into a byte: `255 * clamp(sum / samples, 0, 1)^(1 / gamma)`,
/// truncated.
pub fn write_color(pixel_color_scale: Vec3, samples_per_pixel: i64, gamma: u32) -> (r: Vec<u8>)
    requires
        1 <= samples_per_pixel <= MAX_SAMPLES,
        1 <= gamma <= MAX_GAMMA,
        in_bounds(pixel_color_scale, 0x1_0000_0000_0000),
    ensures
        r@.len() == 3,
        r@[0] as int == spec_tone_byte(tdiv(pixel_color_scale.x as int,
            samples_per_pixel as int), gamma as nat),
        r@[1] as int == spec_tone_byte(tdiv(pixel_color_scale.y as int,
            samples_per_pixel as int), gamma as nat),
        r@[2] as int == spec_tone_byte(tdiv(pixel_color_scale.z as int,
            samples_per_pixel as int), gamma as nat),
{
    let avg_x = pixel_color_scale.x / samples_per_pixel;
    let avg_y = pixel_color_scale.y / samples_per_pixel;
    let avg_z = pixel_color_scale.z / samples_per_pixel;
    let mut out: Vec<u8> = Vec::new();
    out.push(tone_byte(avg_x, gamma));
    out.push(tone_byte(avg_y, gamma));
    out.push(tone_byte(avg_z, gamma));
    out
}

/// A jittered screen coordinate `(index * SCALE + jitter) / (dim - 1)` lies
/// in `[0, 2]`: at the last row or column it may overshoot 1, never 2.
pub proof fn lemma_coord_bound(idx: int, jit: int, dim: int)
    requires
        0 <= idx < dim,
        0 <= jit < SCALE,
        2 <= dim <= MAX_DIM,
    ensures
        0 <= tdiv(idx * SCALE + jit, dim - 1) <= 2 * SCALE,
{
    assert(0 <= idx * SCALE + jit <= 2 * SCALE * (dim - 1)) by (nonlinear_arith)
        requires
            0 <= idx <= dim - 1,
            0 <= jit < SCALE,
            dim >= 2,
            SCALE == 65536,
    ;
    lemma_tdiv_magnitude(idx * SCALE + jit, dim - 1);
    lemma_tdiv_bound(idx * SCALE + jit, dim - 1, 2 * SCALE as int);
}

/// The remaining jittered samples of one pixel, folded onto the sum `acc`:
/// draw a jitter pair, map pixel `(i, j)` to screen coordinates
/// `u = (i + jitter) / (width - 1)` and `v = (j + jitter) / (height - 1)`,
/// trace the camera ray at full attenuation, and accumulate its radiance.
/// Returns the sum and the generator state left behind.
pub open spec fn spec_pixel_iter(
    cam: Camera,
    spheres: Seq<Sphere>,
    cfg: RenderConfig,
    i: int,
    j: int,
    acc: Vec3,
    remaining: nat,
    state: u64,
) -> (Vec3, u64)
    decreases remaining,
{
    if remaining == 0 {
        (acc, state)
    } else {
        let (s1, jx) = crate::rng::spec_next_unit(state);
        let (s2, jy) = crate::rng::spec_next_unit(s1);
        let u = tdiv(i * SCALE + jx, cfg.image_width - 1);
        let v = tdiv(j * SCALE + jy, cfg.image_height - 1);
        let (c, s3) = spec_trace(spec_get_ray(cam, u, v), spheres,
            cfg.recursion_depth_limit as nat, white(), s2);
        spec_pixel_iter(cam, spheres, cfg, i, j, Vec3 {
            x: (acc.x + c.x) as i64,
            y: (acc.y + c.y) as i64,
            z: (acc.z + c.z) as i64,
        }, (remaining - 1) as nat, s3)
    }
}

/// Sum the radiance of all of a pixel's jittered samples.
pub fn pixel_color_sum(
    camera: &Camera,
    world: &Vec<Sphere>,
    cfg: &RenderConfig,
    i: u32,
    j: u32,
    rng: &mut RandomSource,
) -> (r: Vec3)
    requires
        camera.wf(),
        spheres_ok(world@),
        cfg.wf(),
        i < cfg.image_width,
        j < cfg.image_height,
    ensures
        r == spec_pixel_iter(*camera, world@, *cfg, i as int, j as int, black(),
            cfg.samples_per_pixel as nat, old(rng).spec_state()).0,
        final (rng).spec_state() == spec_pixel_iter(*camera, world@, *cfg, i as int, j as int,
            black(), cfg.samples_per_pixel as nat, old(rng).spec_state()).1,
        0 <= r.x <= cfg.samples_per_pixel * SCALE,
        0 <= r.y <= cfg.samples_per_pixel * SCALE,
        0 <= r.z <= cfg.samples_per_pixel * SCALE,
{
    let mut acc = Vec3 { x: 0, y: 0, z: 0 };
    let mut remaining: u32 = cfg.samples_per_pixel;
    while remaining > 0
        invariant
            camera.wf(),
            spheres_ok(world@),
            cfg.wf(),
            i < cfg.image_width,
            j < cfg.image_height,
            remaining <= cfg.samples_per_pixel,
            0 <= acc.x <= (cfg.samples_per_pixel - remaining) * SCALE,
            0 <= acc.y <= (cfg.samples_per_pixel - remaining) * SCALE,
            0 <= acc.z <= (cfg.samples_per_pixel - remaining) * SCALE,
            spec_pixel_iter(*camera, world@, *cfg, i as int, j as int, black(),
                cfg.samples_per_pixel as nat, old(rng).spec_state()) == spec_pixel_iter(
                *camera, world@, *cfg, i as int, j as int, acc, remaining as nat,
                rng.spec_state()),
        decreases remaining,
    {
        let jx = rng.next_unit();
        let jy = rng.next_unit();
        proof {
            lemma_coord_bound(i as int, jx as int, cfg.image_width as int);
            lemma_coord_bound(j as int, jy as int, cfg.image_height as int);
            assert((cfg.samples_per_pixel - remaining) * SCALE + SCALE
                <= (cfg.samples_per_pixel - (remaining - 1)) * SCALE) by (nonlinear_arith)
                requires
                    1 <= remaining <= cfg.samples_per_pixel,
                    SCALE == 65536,
            ;
            assert(cfg.samples_per_pixel * SCALE <= 65536 * 65536) by (nonlinear_arith)
                requires
                    cfg.samples_per_pixel <= 65536,
                    SCALE == 65536,
            ;
        }
        let u = ((i as i64) * SCALE + jx) / ((cfg.image_width - 1) as i64);
        let v = ((j as i64) * SCALE + jy) / ((cfg.image_height - 1) as i64);
        let c = compute_color_scale(u, v, cfg.recursion_depth_limit, camera, world, rng);
        acc = Vec3 { x: acc.x + c.x, y: acc.y + c.y, z: acc.z + c.z };
        remaining = remaining - 1;
    }
    acc
}

/// The finished bytes of pixel `(i, j)`: its own random stream, the sample
/// sum, and the tone-mapped channel averages.
#[verifier::opaque]
pub open spec fn spec_pixel_bytes(
    cam: Camera,
    spheres: Seq<Sphere>,
    cfg: RenderConfig,
    seed: u64,
    i: int,
    j: int,
) -> (u8, u8, u8) {
    let state = spec_stream(seed, (j * cfg.image_width + i) as u64);
    let (sum, s1) = spec_pixel_iter(cam, spheres, cfg, i, j, black(),
        cfg.samples_per_pixel as nat, state);
    (
        spec_tone_byte(tdiv(sum.x as int, cfg.samples_per_pixel as int), cfg.gamma as nat)
            as u8,
        spec_tone_byte(tdiv(sum.y as int, cfg.samples_per_pixel as int), cfg.gamma as nat)
            as u8,
        spec_tone_byte(tdiv(sum.z as int, cfg.samples_per_pixel as int), cfg.gamma as nat)
            as u8,
    )
}

/// Render one pixel into its three bytes. Pixels are independent: any
/// partition of the image across workers computes the same grid.
pub fn render_pixel(
    camera: &Camera,
    world: &Vec<Sphere>,
    cfg: &RenderConfig,
    seed: u64,
    i: u32,
    j: u32,
) -> (r: Vec<u8>)
    requires
        camera.wf(),
        spheres_ok(world@),
        cfg.wf(),
        i < cfg.image_width,
        j < cfg.image_height,
    ensures
        r@.len() == 3,
        r@[0] == spec_pixel_bytes(*camera, world@, *cfg, seed, i as int, j as int).0,
        r@[1] == spec_pixel_bytes(*camera, world@, *cfg, seed, i as int, j as int).1,
        r@[2] == spec_pixel_bytes(*camera, world@, *cfg, seed, i as int, j as int).2,
{
    proof {
        reveal(spec_pixel_bytes);
        assert((j as int) * cfg.image_width + i <= u64::MAX as int) by (nonlinear_arith)
            requires
                j < cfg.image_height <= 8192,
                i < cfg.image_width <= 8192,
        ;
    }
    let index: u64 = (j as u64) * (cfg.image_width as u64) + (i as u64);
    let mut rng = RandomSource::for_pixel(seed, index);
    let sum = pixel_color_sum(camera, world, cfg, i, j, &mut rng);
    proof {
        assert(in_bounds(sum, 0x1_0000_0000_0000));
        lemma_tone_from_range(spec_clamp(tdiv(sum.x as int, cfg.samples_per_pixel as int), 0,
            SCALE as int), cfg.gamma as nat, 255);
        lemma_tone_from_range(spec_clamp(tdiv(sum.y as int, cfg.samples_per_pixel as int), 0,
            SCALE as int), cfg.gamma as nat, 255);
        lemma_tone_from_range(spec_clamp(tdiv(sum.z as int, cfg.samples_per_pixel as int), 0,
            SCALE as int), cfg.gamma as nat, 255);
    }
    write_color(sum, cfg.samples_per_pixel as i64, cfg.gamma)
}

/// The bytes of pixel `(i, j)` stand at their row-major place in `s`.
pub open spec fn pixel_ok(
    s: Seq<u8>,
    cam: Camera,
    spheres: Seq<Sphere>,
    cfg: RenderConfig,
    seed: u64,
    i: int,
    j: int,
) -> bool {
    let p = (j * cfg.image_width + i) * 3;
    let bytes = spec_pixel_bytes(cam, spheres, cfg, seed, i, j);
    &&& s[p] == bytes.0
    &&& s[p + 1] == bytes.1
    &&& s[p + 2] == bytes.2
}

/// The whole output grid: `image_height` rows of `image_width` pixels, three
/// bytes per pixel, row-major, row 0 at the top of the image.
pub open spec fn spec_render_image(
    cam: Camera,
    spheres: Seq<Sphere>,
    cfg: RenderConfig,
    seed: u64,
) -> Seq<u8> {
    Seq::new((cfg.image_height * cfg.image_width * 3) as nat, |k: int| {
        let p = k / 3;
        let i = p % (cfg.image_width as int);
        let j = p / (cfg.image_width as int);
        let bytes = spec_pixel_bytes(cam, spheres, cfg, seed, i, j);
        if k % 3 == 0 {
            bytes.0
        } else if k % 3 == 1 {
            bytes.1
        } else {
            bytes.2
        }
    })
}

/// Render the full image: a row-major grid of RGB byte triples, pinned to
/// [`spec_render_image`] — so the grid is a pure function of camera, scene,
/// configuration and seed, and two renders from the same seed agree byte
/// for byte.
#[verifier::rlimit(100)]
pub fn render_image(camera: &Camera, world: &Vec<Sphere>, cfg: &RenderConfig, seed: u64) -> (r:
    Vec<u8>)
    requires
        camera.wf(),
        spheres_ok(world@),
        cfg.wf(),
    ensures
        r@ == spec_render_image(*camera, world@, *cfg, seed),
        r@.len() == cfg.image_height * cfg.image_width * 3,
{
    let w = cfg.image_width;
    let h = cfg.image_height;
    proof {
        assert((h as int) * w * 3 <= usize::MAX as int) by (nonlinear_arith)
            requires
                w <= 8192,
                h <= 8192,
        ;
    }
    let mut buf: Vec<u8> = Vec::new();
    let mut j: u32 = 0;
    while j < h
        invariant
            camera.wf(),
            spheres_ok(world@),
            cfg.wf(),
            w == cfg.image_width,
            h == cfg.image_height,
            j <= h,
            buf@.len() == (j as int) * w * 3,
            forall|jj: int, ii: int|
                0 <= jj < j && 0 <= ii < w ==> #[trigger] pixel_ok(buf@, *camera, world@, *cfg,
                    seed, ii, jj),
        decreases h - j,
    {
        proof {
            assert forall|jj: int, ii: int|
                0 <= jj < h && 0 <= ii < w && jj * w + ii < (j as int) * w implies #[trigger]
            pixel_ok(buf@, *camera, world@, *cfg, seed, ii, jj) by {
                assert(jj < j as int) by (nonlinear_arith)
                    requires
                        0 <= ii < w,
                        jj >= 0,
                        jj * w + ii < (j as int) * w,
                        w >= 1,
                ;
            }
        }
        let mut i: u32 = 0;
        while i < w
            invariant
                camera.wf(),
                spheres_ok(world@),
                cfg.wf(),
                w == cfg.image_width,
                h == cfg.image_height,
                j < h,
                i <= w,
                buf@.len() == ((j as int) * w + i) * 3,
                forall|jj: int, ii: int|
                    0 <= jj < h && 0 <= ii < w && jj * w + ii < (j as int) * w + i
                        ==> #[trigger] pixel_ok(buf@, *camera, world@, *cfg, seed, ii, jj),
            decreases w - i,
        {
            let mut px = render_pixel(camera, world, cfg, seed, i, j);
            let ghost old_buf = buf@;
            buf.append(&mut px);
            proof {
                assert forall|jj: int, ii: int|
                    0 <= jj < h && 0 <= ii < w && jj * w + ii < (j as int) * w + i
                        + 1 implies #[trigger] pixel_ok(buf@, *camera, world@, *cfg, seed, ii,
                    jj) by {
                    if jj * w + ii < (j as int) * w + i {
                        assert(pixel_ok(old_buf, *camera, world@, *cfg, seed, ii, jj));
                        assert((jj * w + ii) * 3 + 2 < old_buf.len()) by (nonlinear_arith)
                            requires
                                jj * w + ii < (j as int) * w + i,
                                old_buf.len() == ((j as int) * w + i) * 3,
                        ;
                    } else {
                        assert(jj == j && ii == i) by (nonlinear_arith)
                            requires
                                0 <= jj < h,
                                0 <= ii < w,
                                0 <= i < w,
                                0 <= (j as int) < h,
                                (j as int) * w + i <= jj * w + ii < (j as int) * w + i + 1,
                        ;
                    }
                }
            }
            i = i + 1;
        }
        proof {
            assert(((j as int) * w + w) == ((j as int) + 1) * w) by (nonlinear_arith);
            assert(((j as int) + 1) * w * 3 == ((j as int) * w + w) * 3) by (nonlinear_arith);
            assert forall|jj: int, ii: int|
                0 <= jj < (j as int) + 1 && 0 <= ii < w implies #[trigger] pixel_ok(buf@,
                *camera, world@, *cfg, seed, ii, jj) by {
                assert(jj * w + ii < (j as int) * w + w) by (nonlinear_arith)
                    requires
                        0 <= jj <= (j as int),
                        0 <= ii < w,
                        w >= 1,
                ;
            }
        }
        j = j + 1;
    }
    proof {
        lemma_grid_complete(buf@, *camera, world@, *cfg, seed);
    }
    buf
}

/// A buffer of the right length whose every pixel triple is in place equals
/// the specified grid.
proof fn lemma_grid_complete(
    s: Seq<u8>,
    cam: Camera,
    spheres: Seq<Sphere>,
    cfg: RenderConfig,
    seed: u64,
)
    requires
        cfg.wf(),
        s.len() == (cfg.image_height as int) * cfg.image_width * 3,
        forall|jj: int, ii: int|
            0 <= jj < cfg.image_height && 0 <= ii < cfg.image_width ==> #[trigger] pixel_ok(s,
                cam, spheres, cfg, seed, ii, jj),
    ensures
        s == spec_render_image(cam, spheres, cfg, seed),
{
    let w = cfg.image_width as int;
    let h = cfg.image_height as int;
    let model = spec_render_image(cam, spheres, cfg, seed);
    assert(model.len() == h * w * 3);
    assert forall|k: int| 0 <= k < s.len() implies s[k] == model[k] by {
        let p = k / 3;
        let m = k % 3;
        vstd::arithmetic::div_mod::lemma_fundamental_div_mod(k, 3);
        assert(0 <= p < h * w) by (nonlinear_arith)
            requires
                k == 3 * p + m,
                0 <= m < 3,
                0 <= k < h * w * 3,
        ;
        let ii = p % w;
        let jj = p / w;
        vstd::arithmetic::div_mod::lemma_fundamental_div_mod(p, w);
        assert(0 <= ii < w && 0 <= jj < h) by (nonlinear_arith)
            requires
                p == w * jj + ii,
                0 <= ii < w,
                0 <= p < h * w,
                w >= 2,
        ;
        assert(pixel_ok(s, cam, spheres, cfg, seed, ii, jj));
        assert((jj * w + ii) * 3 == 3 * p) by (nonlinear_arith)
            requires
                p == w * jj + ii,
        ;
        assert(s[3 * p + m] == model[k]);
    }
    assert(s =~= model);
}

} // verus!
