//! A stochastic path tracer over fixed-point arithmetic.
//!
//! Every scalar is an `i64` counting 1/65536ths of a unit, so the whole
//! rendering pipeline — sphere intersection, material scattering, the
//! radiance recursion and the image reduction — is exact integer
//! arithmetic with machine-checked contracts. Randomness enters through a
//! single trusted wrapper around the `rand` crate; everything downstream
//! of a draw is verified for every value the wrapper can return.

pub mod camera;
pub mod fixed;
pub mod hittables;
pub mod image;
pub mod materials;
pub mod math;
pub mod utils;

use crate::camera::{camera_ray_ok, camera_wf, Camera};
use crate::fixed::{
    fx_div, fx_div_s, fx_mul, fx_mul_s, iabs, lemma_fx_mul_cap, lemma_sqrt_floor_bounds,
    lemma_tdiv_bound, tdiv, tdiv_i128, FX_ONE, FX_OP_BOUND,
};
use crate::hittables::{list_hit_spec, scene_wf, HittableList, Sphere, RAY_DIR_BOUND, RAY_ORIGIN_BOUND};
use crate::image::{image_wf, pixels_in_range, Image};
use crate::materials::attenuation_of;
use crate::math::{bounded, dot_wide, lemma_self_dot, sdot, unit_t, v3, Color, Ray, Vector3};
use crate::utils::rand_range;
use vstd::prelude::*;

verus! {

/// Largest bounce budget the integrator accepts; keeps every bounce's
/// origin within the intersection test's range.
pub const MAX_DEPTH_LIMIT: usize = 64;

/// Lower bound of every hit interval: about a thousandth of a unit, so a
/// scattered ray cannot re-intersect the surface it just left.
pub const T_EPS: i64 = 64;

/// The far plane: no bounce travels farther than 4096 units; anything
/// beyond sees the background.
pub const FAR_CAP: i64 = 0x1000_0000;

/// The sky gradient a missed ray returns: a blend from white at the
/// horizon to sky blue at the zenith, keyed by the unit direction's
/// vertical component mapped from `[-1, 1]` to `[0, 1]`.
pub open spec fn background_color(r: Ray) -> (int, int, int) {
    let u = unit_t(v3(r.direction));
    let t = fx_mul_s(32768, u.1 + FX_ONE);
    (
        fx_mul_s(FX_ONE as int, FX_ONE - t) + fx_mul_s(32768, t),
        fx_mul_s(FX_ONE as int, FX_ONE - t) + fx_mul_s(45875, t),
        fx_mul_s(FX_ONE as int, FX_ONE - t) + fx_mul_s(FX_ONE as int, t),
    )
}

/// The interval upper bound the integrator hands the scene query for a
/// ray: the far plane rescaled by the direction's length, clamped to the
/// fixed-point operating range.
pub open spec fn ray_far_cap(r: Ray) -> int {
    let dlen = sqrt_floor_of_dir(r);
    let computed = fx_div_s(FAR_CAP as int, dlen);
    if computed > FX_OP_BOUND as int {
        FX_OP_BOUND as int
    } else {
        computed
    }
}

/// The fixed-point length of a ray's direction.
pub open spec fn sqrt_floor_of_dir(r: Ray) -> int {
    crate::fixed::sqrt_floor(sdot(v3(r.direction), v3(r.direction)))
}

/// What holds of the radiance reported for a ray, whatever the material
/// draws decided: channels within one unit; black once the bounce budget
/// is spent; exactly the background gradient whenever the scene query
/// misses within the far cap; and on a hit, either black (the ray was
/// absorbed, or its continuation was) or some in-range bounce radiance
/// tinted channelwise by the hit material's attenuation.
pub open spec fn radiance_ok(objs: Seq<Sphere>, depth: int, ray: Ray, c: Color) -> bool {
    &&& 0 <= c.0 <= FX_ONE
    &&& 0 <= c.1 <= FX_ONE
    &&& 0 <= c.2 <= FX_ONE
    &&& (depth == 0 ==> c == (Vector3(0, 0, 0)))
    &&& (depth > 0 && sdot(v3(ray.direction), v3(ray.direction)) > 0 && list_hit_spec(
        objs,
        ray,
        T_EPS as int,
        ray_far_cap(ray),
    ).is_none() ==> v3(c) == background_color(ray))
    &&& (depth > 0 && sdot(v3(ray.direction), v3(ray.direction)) > 0 ==> (list_hit_spec(
        objs,
        ray,
        T_EPS as int,
        ray_far_cap(ray),
    ) matches Some(pr) ==> {
        let att = attenuation_of(objs[pr.0].material);
        ||| c == (Vector3(0, 0, 0))
        ||| exists|rest: Color|
            {
                &&& 0 <= rest.0 <= FX_ONE
                &&& 0 <= rest.1 <= FX_ONE
                &&& 0 <= rest.2 <= FX_ONE
                &&& c.0 == #[trigger] fx_mul_s(att.0, rest.0 as int)
                &&& c.1 == fx_mul_s(att.1, rest.1 as int)
                &&& c.2 == fx_mul_s(att.2, rest.2 as int)
            }
    }))
}

/// One channel of the gradient stays within one unit.
proof fn lemma_background_channel(t: int, chan: int)
    requires
        0 <= t <= 65536,
        0 <= chan <= 65536,
    ensures
        fx_mul_s(FX_ONE as int, FX_ONE - t) == 65536 - t,
        0 <= fx_mul_s(chan, t) <= t,
{
    assert((FX_ONE as int) * (FX_ONE - t) == 65536 * (65536 - t)) by (nonlinear_arith)
        requires
            FX_ONE == 65536i64,
    ;
    vstd::arithmetic::div_mod::lemma_div_multiples_vanish(65536 - t, 65536);
    lemma_tdiv_bound(65536 * (65536 - t), FX_ONE as int, 65536 * (65536 - t));
    assert(0 <= chan * t <= 65536 * t) by (nonlinear_arith)
        requires
            0 <= chan <= 65536,
            0 <= t,
    ;
    lemma_tdiv_bound(chan * t, FX_ONE as int, chan * t);
    vstd::arithmetic::div_mod::lemma_div_is_ordered(chan * t, 65536 * t, 65536);
    vstd::arithmetic::div_mod::lemma_div_multiples_vanish(t, 65536);
}

/// The sky gradient, exactly as [`background_color`] states it.
fn background(ray: &Ray) -> (c: Color)
    requires
        bounded(ray.direction, RAY_DIR_BOUND as int),
        sdot(v3(ray.direction), v3(ray.direction)) > 0,
    ensures
        v3(c) == background_color(*ray),
        0 <= c.0 <= FX_ONE,
        0 <= c.1 <= FX_ONE,
        0 <= c.2 <= FX_ONE,
{
    let unit_direction = ray.direction.unit_vector();
    proof {
        assert(0 <= 32768 * (unit_direction.1 + FX_ONE) <= 65536int * 65536);
        lemma_tdiv_bound(
            32768 * (unit_direction.1 + FX_ONE),
            FX_ONE as int,
            65536int * 65536,
        );
        vstd::arithmetic::div_mod::lemma_multiply_divide_le(
            32768 * (unit_direction.1 + FX_ONE),
            65536,
            65536,
        );
    }
    let t = fx_mul(32768, unit_direction.y() + FX_ONE);
    proof {
        lemma_background_channel(t as int, 32768);
        lemma_background_channel(t as int, 45875);
        lemma_background_channel(t as int, 65536);
    }
    let white = Vector3(FX_ONE, FX_ONE, FX_ONE).mul(FX_ONE - t);
    let blue = Vector3(32768, 45875, FX_ONE).mul(t);
    white.add(blue)
}

/// A product of two unit-interval channels stays in the unit interval.
proof fn lemma_unit_channel_mul(a: int, b: int)
    requires
        0 <= a <= 65536,
        0 <= b <= 65536,
    ensures
        0 <= fx_mul_s(a, b) <= 65536,
{
    lemma_fx_mul_cap(a, b, 65536, 65536, 65536);
    crate::fixed::lemma_abs_mul_bound(a, b, 65536, 65536);
    assert(0 <= a * b) by (nonlinear_arith)
        requires
            0 <= a,
            0 <= b,
    ;
    lemma_tdiv_bound(a * b, FX_ONE as int, 65536int * 65536);
}

/// A parameter below the far-plane cap displaces each component by at most
/// the far plane.
proof fn lemma_displacement(di: int, dlen: int, t: int)
    requires
        iabs(di) <= dlen,
        0 < dlen,
        0 <= t <= tdiv(17592186044416, dlen),
    ensures
        iabs(fx_mul_s(di, t)) <= FAR_CAP as int,
{
    let q = 17592186044416int / dlen;
    assert(tdiv(17592186044416, dlen) == q);
    vstd::arithmetic::div_mod::lemma_fundamental_div_mod(17592186044416, dlen);
    assert(iabs(di * t) <= 17592186044416) by (nonlinear_arith)
        requires
            iabs(di) <= dlen,
            0 < dlen,
            0 <= t <= q,
            17592186044416 == dlen * q + 17592186044416int % dlen,
            0 <= 17592186044416int % dlen,
    ;
    lemma_tdiv_bound(di * t, FX_ONE as int, 17592186044416);
    vstd::arithmetic::div_mod::lemma_multiply_divide_le(iabs(di * t), 65536, 268435456);
}

/// The radiance carried back along a ray: black once the bounce budget is
/// spent, the sky gradient when nothing is hit within the far plane, and
/// otherwise the scattered ray's radiance tinted by the material's
/// attenuation — black when the material absorbs the ray. Every channel
/// of the result lies in the unit interval.
pub fn ray_color(ray: Ray, world: &HittableList, depth: usize) -> (c: Color)
    requires
        scene_wf(world.objects@),
        depth <= MAX_DEPTH_LIMIT,
        bounded(ray.origin, RAY_ORIGIN_BOUND as int - (depth as int) * 0x1000_0000),
        bounded(ray.direction, RAY_DIR_BOUND as int),
    ensures
        radiance_ok(world.objects@, depth as int, ray, c),
        depth > 0 && world.objects@.len() == 0 && sdot(v3(ray.direction), v3(ray.direction)) > 0
            ==> v3(c) == background_color(ray),
    decreases depth,
{
    if depth == 0 {
        return Vector3(0, 0, 0);
    }
    let a = dot_wide(&ray.direction, &ray.direction);
    if a == 0 {
        // a degenerate direction meets nothing and selects no gradient
        return Vector3(0, 0, 0);
    }
    proof {
        lemma_self_dot(v3(ray.direction));
        lemma_sqrt_floor_bounds(sdot(v3(ray.direction), v3(ray.direction)));
        assert(FAR_CAP * (FX_ONE as int) == 17592186044416) by (nonlinear_arith)
            requires
                FAR_CAP == 0x1000_0000i64,
                FX_ONE == 65536i64,
        ;
    }
    let dlen = ray.direction.length();
    proof {
        assert(dlen >= 1) by {
            if dlen == 0 {
                assert((0int + 1) * (0int + 1) == 1) by (nonlinear_arith);
                assert(sdot(v3(ray.direction), v3(ray.direction)) < 1);
            }
        }
        lemma_tdiv_bound(FAR_CAP * (FX_ONE as int), dlen as int, 17592186044416);
    }
    let computed = fx_div(FAR_CAP, dlen);
    let t_cap = if computed > FX_OP_BOUND {
        FX_OP_BOUND
    } else {
        computed
    };
    proof {
        assert(t_cap == ray_far_cap(ray));
    }
    let hit = world.hit(ray, T_EPS, t_cap);
    match hit {
        Some(rec) => {
            proof {
                let i = choose|i: int|
                    0 <= i < world.objects@.len() && (#[trigger] world.objects@[i]).material
                        == rec.material;
                assert(crate::hittables::sphere_wf(world.objects@[i]));
                lemma_displacement(ray.direction.0 as int, dlen as int, rec.t as int);
                lemma_displacement(ray.direction.1 as int, dlen as int, rec.t as int);
                lemma_displacement(ray.direction.2 as int, dlen as int, rec.t as int);
            }
            let m = rec.material;
            let scattered = m.scatter(ray, &rec);
            match scattered {
                Some((attenuation, next_ray)) => {
                    let rest = ray_color(next_ray, world, depth - 1);
                    proof {
                        lemma_unit_channel_mul(attenuation.0 as int, rest.0 as int);
                        lemma_unit_channel_mul(attenuation.1 as int, rest.1 as int);
                        lemma_unit_channel_mul(attenuation.2 as int, rest.2 as int);
                    }
                    let out = Vector3(
                        fx_mul(attenuation.0, rest.0),
                        fx_mul(attenuation.1, rest.1),
                        fx_mul(attenuation.2, rest.2),
                    );
                    proof {
                        let lh = list_hit_spec(
                            world.objects@,
                            ray,
                            T_EPS as int,
                            ray_far_cap(ray),
                        );
                        let pr = lh->0;
                        assert(rec.material == world.objects@[pr.0].material);
                        let att = attenuation_of(world.objects@[pr.0].material);
                        assert(att == v3(attenuation));
                        assert(exists|r2: Color|
                            {
                                &&& 0 <= r2.0 <= FX_ONE
                                &&& 0 <= r2.1 <= FX_ONE
                                &&& 0 <= r2.2 <= FX_ONE
                                &&& out.0 == #[trigger] fx_mul_s(att.0, r2.0 as int)
                                &&& out.1 == fx_mul_s(att.1, r2.1 as int)
                                &&& out.2 == fx_mul_s(att.2, r2.2 as int)
                            }) by {
                            assert(out.0 == fx_mul_s(att.0, rest.0 as int) && out.1 == fx_mul_s(
                                att.1,
                                rest.1 as int,
                            ) && out.2 == fx_mul_s(att.2, rest.2 as int));
                        }
                    }
                    out
                },
                None => Vector3(0, 0, 0),
            }
        },
        None => background(&ray),
    }
}

/// One jittered image-plane coordinate: the cell index plus a uniform
/// sub-cell offset, normalized by the extent; always within two units.
fn sample_coord(idx: u32, extent: u32) -> (r: i64)
    requires
        idx < extent,
        2 <= extent <= 4096,
    ensures
        0 <= r <= 2 * FX_ONE,
        exists|jit: int|
            0 <= jit < 65536 && r == #[trigger] tdiv(idx * 65536 + jit, extent - 1),
{
    let jitter = rand_range(0, FX_ONE);
    let num: i64 = (idx as i64) * 65536 + jitter;
    proof {
        vstd::arithmetic::div_mod::lemma_div_pos_is_pos(num as int, extent as int - 1);
        assert(num <= (extent as int - 1) * 131072) by (nonlinear_arith)
            requires
                num <= (extent as int - 1) * 65536 + 65536,
                2 <= extent,
        ;
        vstd::arithmetic::div_mod::lemma_multiply_divide_le(num as int, extent as int - 1, 131072);
    }
    let q = tdiv_i128(num as i128, (extent - 1) as i128);
    proof {
        assert(exists|jit: int|
            0 <= jit < 65536 && q as int == #[trigger] tdiv(idx * 65536 + jit, extent - 1)) by {
            assert(q as int == tdiv(idx * 65536 + jitter as int, extent - 1));
        }
    }
    q as i64
}

/// The channel sums of a sequence of sample colors.
pub open spec fn color_sum(cs: Seq<Color>) -> (int, int, int)
    decreases cs.len(),
{
    if cs.len() == 0 {
        (0, 0, 0)
    } else {
        let rest = color_sum(cs.drop_last());
        (rest.0 + cs.last().0, rest.1 + cs.last().1, rest.2 + cs.last().2)
    }
}

/// One admissible sample for the pixel in column `i` of scanline `j`
/// (scanline zero is the image's bottom): a radiance value satisfying
/// [`radiance_ok`] for a camera ray generated at the cell's coordinates,
/// each jittered by its own uniform sub-cell offset.
pub open spec fn sample_ok(
    cam: Camera,
    objs: Seq<Sphere>,
    depth: int,
    i: int,
    j: int,
    w: int,
    h: int,
    c: Color,
) -> bool {
    exists|ju: int, jv: int, r: Ray|
        {
            &&& 0 <= ju < 65536
            &&& 0 <= jv < 65536
            &&& #[trigger] camera_ray_ok(
                cam,
                tdiv(i * 65536 + ju, w - 1),
                tdiv(j * 65536 + jv, h - 1),
                r,
            )
            &&& radiance_ok(objs, depth, r, c)
        }
}

/// The pixel is the truncated mean of `n` admissible samples for its cell.
pub open spec fn pixel_sampled(
    cam: Camera,
    objs: Seq<Sphere>,
    depth: int,
    i: int,
    j: int,
    w: int,
    h: int,
    n: int,
    p: Color,
) -> bool {
    exists|cs: Seq<Color>|
        {
            &&& (#[trigger] cs.len()) == n
            &&& (forall|k: int|
                0 <= k < cs.len() ==> sample_ok(cam, objs, depth, i, j, w, h, #[trigger] cs[k]))
            &&& p.0 == color_sum(cs).0 / n
            &&& p.1 == color_sum(cs).1 / n
            &&& p.2 == color_sum(cs).2 / n
        }
}

/// A pixel index within a complete row prefix stays within that prefix.
proof fn lemma_row_index(row: int, col: int, w: int, rows: int)
    by (nonlinear_arith)
    requires
        0 <= col < w,
        0 <= row < rows,
    ensures
        0 <= row * w + col < rows * w,
{
}

/// A nonnegative channel sum divided by the sample count.
fn div_samples(c: i64, n: i64) -> (r: i64)
    requires
        0 <= c <= n * 65536,
        0 < n,
    ensures
        r == c as int / n as int,
        0 <= r <= FX_ONE,
{
    proof {
        vstd::arithmetic::div_mod::lemma_div_pos_is_pos(c as int, n as int);
        vstd::arithmetic::div_mod::lemma_multiply_divide_le(c as int, n as int, 65536);
    }
    let q = tdiv_i128(c as i128, n as i128);
    q as i64
}

/// Renders the whole frame: for each pixel, top row first, it draws the
/// configured number of jittered camera rays, sums their radiance and
/// stores the truncated mean — row `row` of the buffer holds scanline
/// `height - 1 - row`, and every pixel satisfies [`pixel_sampled`]: it is
/// the mean of `samples_per_pixel` radiance values, each for a camera ray
/// at that cell's jittered coordinates.
pub fn render(
    image_width: u32,
    samples_per_pixel: u32,
    max_depth: usize,
    world: &HittableList,
    camera: &Camera,
) -> (img: Image)
    requires
        scene_wf(world.objects@),
        camera_wf(*camera),
        2 <= image_width <= 4096,
        1 <= samples_per_pixel <= 0x8000,
        max_depth <= MAX_DEPTH_LIMIT,
        2 <= tdiv(image_width * 65536, camera.aspect_ratio as int) <= 4096,
    ensures
        img.width == image_width,
        img.height == tdiv(image_width * 65536, camera.aspect_ratio as int),
        image_wf(img),
        forall|row: int, col: int|
            0 <= row < img.height && 0 <= col < img.width ==> pixel_sampled(
                *camera,
                world.objects@,
                max_depth as int,
                col,
                img.height - 1 - row,
                img.width as int,
                img.height as int,
                samples_per_pixel as int,
                #[trigger] img.pixels@[row * (img.width as int) + col],
            ),
{
    proof {
        lemma_tdiv_bound(
            image_width * 65536,
            camera.aspect_ratio as int,
            image_width * 65536,
        );
    }
    let hw = tdiv_i128((image_width as i128) * 65536, camera.aspect_ratio as i128);
    let image_height = hw as u32;
    let mut image = Image::new(image_width, image_height);
    let mut pixels: Vec<Color> = Vec::new();
    let mut j: u32 = image_height;
    while j > 0
        invariant
            scene_wf(world.objects@),
            camera_wf(*camera),
            2 <= image_width <= 4096,
            1 <= samples_per_pixel <= 0x8000,
            max_depth <= MAX_DEPTH_LIMIT,
            2 <= image_height <= 4096,
            j <= image_height,
            pixels@.len() == (image_height - j) * image_width,
            pixels_in_range(pixels@, FX_ONE as int),
            forall|row: int, col: int|
                0 <= row < image_height - j && 0 <= col < image_width ==> pixel_sampled(
                    *camera,
                    world.objects@,
                    max_depth as int,
                    col,
                    image_height - 1 - row,
                    image_width as int,
                    image_height as int,
                    samples_per_pixel as int,
                    #[trigger] pixels@[row * (image_width as int) + col],
                ),
        decreases j,
    {
        j = j - 1;
        let mut i: u32 = 0;
        while i < image_width
            invariant
                scene_wf(world.objects@),
                camera_wf(*camera),
                2 <= image_width <= 4096,
                1 <= samples_per_pixel <= 0x8000,
                max_depth <= MAX_DEPTH_LIMIT,
                2 <= image_height <= 4096,
                j < image_height,
                i <= image_width,
                pixels@.len() == (image_height - j - 1) * image_width + i,
                pixels_in_range(pixels@, FX_ONE as int),
                forall|row: int, col: int|
                    0 <= row < image_height - j - 1 && 0 <= col < image_width ==> pixel_sampled(
                        *camera,
                        world.objects@,
                        max_depth as int,
                        col,
                        image_height - 1 - row,
                        image_width as int,
                        image_height as int,
                        samples_per_pixel as int,
                        #[trigger] pixels@[row * (image_width as int) + col],
                    ),
                forall|col: int|
                    0 <= col < i ==> pixel_sampled(
                        *camera,
                        world.objects@,
                        max_depth as int,
                        col,
                        j as int,
                        image_width as int,
                        image_height as int,
                        samples_per_pixel as int,
                        #[trigger] pixels@[(image_height - j - 1) * image_width + col],
                    ),
            decreases image_width - i,
        {
            let mut sum_r: i64 = 0;
            let mut sum_g: i64 = 0;
            let mut sum_b: i64 = 0;
            let mut s_idx: u32 = 0;
            let ghost mut samples: Seq<Color> = Seq::empty();
            while s_idx < samples_per_pixel
                invariant
                    scene_wf(world.objects@),
                    camera_wf(*camera),
                    2 <= image_width <= 4096,
                    1 <= samples_per_pixel <= 0x8000,
                    max_depth <= MAX_DEPTH_LIMIT,
                    2 <= image_height <= 4096,
                    j < image_height,
                    i < image_width,
                    s_idx <= samples_per_pixel,
                    0 <= sum_r <= s_idx * 65536,
                    0 <= sum_g <= s_idx * 65536,
                    0 <= sum_b <= s_idx * 65536,
                    samples.len() == s_idx,
                    (sum_r as int, sum_g as int, sum_b as int) == color_sum(samples),
                    forall|k: int|
                        0 <= k < samples.len() ==> sample_ok(
                            *camera,
                            world.objects@,
                            max_depth as int,
                            i as int,
                            j as int,
                            image_width as int,
                            image_height as int,
                            #[trigger] samples[k],
                        ),
                decreases samples_per_pixel - s_idx,
            {
                let u = sample_coord(i, image_width);
                let v = sample_coord(j, image_height);
                let r = camera.ray(u, v);
                proof {
                    assert((max_depth as int) * 0x1000_0000 <= 0x4_0000_0000_0000);
                }
                let c = ray_color(r, world, max_depth);
                proof {
                    let ju = choose|jt: int|
                        0 <= jt < 65536 && u as int == #[trigger] tdiv(
                            i * 65536 + jt,
                            image_width - 1,
                        );
                    let jv = choose|jt: int|
                        0 <= jt < 65536 && v as int == #[trigger] tdiv(
                            j * 65536 + jt,
                            image_height - 1,
                        );
                    assert(sample_ok(
                        *camera,
                        world.objects@,
                        max_depth as int,
                        i as int,
                        j as int,
                        image_width as int,
                        image_height as int,
                        c,
                    )) by {
                        assert(camera_ray_ok(
                            *camera,
                            tdiv(i * 65536 + ju, image_width - 1),
                            tdiv(j * 65536 + jv, image_height - 1),
                            r,
                        ));
                    }
                    let prev = samples;
                    samples = samples.push(c);
                    assert(samples.drop_last() =~= prev);
                    assert(samples.last() == c);
                }
                sum_r = sum_r + c.0;
                sum_g = sum_g + c.1;
                sum_b = sum_b + c.2;
                s_idx = s_idx + 1;
            }
            let pr = div_samples(sum_r, samples_per_pixel as i64);
            let pg = div_samples(sum_g, samples_per_pixel as i64);
            let pb = div_samples(sum_b, samples_per_pixel as i64);
            let p = Vector3(pr, pg, pb);
            proof {
                assert(pixel_sampled(
                    *camera,
                    world.objects@,
                    max_depth as int,
                    i as int,
                    j as int,
                    image_width as int,
                    image_height as int,
                    samples_per_pixel as int,
                    p,
                )) by {
                    assert(samples.len() == samples_per_pixel as int);
                }
            }
            pixels.push(p);
            proof {
                assert forall|row: int, col: int|
                    0 <= row < image_height - j - 1 && 0 <= col
                        < image_width implies pixel_sampled(
                    *camera,
                    world.objects@,
                    max_depth as int,
                    col,
                    image_height - 1 - row,
                    image_width as int,
                    image_height as int,
                    samples_per_pixel as int,
                    #[trigger] pixels@[row * (image_width as int) + col],
                ) by {
                    lemma_row_index(row, col, image_width as int, image_height - j - 1);
                }
            }
            i = i + 1;
        }
        proof {
            assert((image_height - j - 1) * image_width + image_width == (image_height - j)
                * image_width) by (nonlinear_arith);
            assert forall|row: int, col: int|
                0 <= row < image_height - j && 0 <= col < image_width implies pixel_sampled(
                *camera,
                world.objects@,
                max_depth as int,
                col,
                image_height - 1 - row,
                image_width as int,
                image_height as int,
                samples_per_pixel as int,
                #[trigger] pixels@[row * (image_width as int) + col],
            ) by {
                if row == image_height - j - 1 {
                    assert(image_height - 1 - row == j as int);
                }
            }
        }
    }
    proof {
        assert((image_height - 0) * image_width == (image_width as int) * (image_height as int))
            by (nonlinear_arith);
    }
    image.pixels = pixels;
    image
}

/// The coordinator's budget split: each of `threads` workers renders the
/// whole frame with an even share of the sample budget; the remainder is
/// dropped, as integer division does.
pub fn split_samples(samples_per_pixel: u32, threads: u32) -> (r: u32)
    requires
        1 <= threads,
    ensures
        r == samples_per_pixel / threads,
{
    samples_per_pixel / threads
}

} // verus!
