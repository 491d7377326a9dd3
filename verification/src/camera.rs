//! The camera: precomputed ray-generation vectors and a thin lens.
//!
//! The constructor takes the viewport height directly (callers derive it
//! from a field of view outside the library); ray generation maps
//! normalized image-plane coordinates to a ray, offset by a random lens
//! point when the aperture is open.

use crate::fixed::{
    fx_div, fx_div_s, fx_mul, fx_mul_s, iabs, lemma_abs_mul_bound, lemma_fx_mul_cap,
    lemma_fx_rescale_cap, lemma_tdiv_bound, tdiv, FX_ONE,
};
use crate::hittables::RAY_DIR_BOUND;
use crate::math::{bounded, lemma_self_dot, sdot, v3, Point3, Ray, Vector3};
use crate::utils::random_in_unit_disk;
use vstd::prelude::*;

verus! {

/// Componentwise bound on the camera's precomputed vectors.
pub const CAM_VEC_BOUND: i64 = 0x80_0000;

/// A camera whose vectors are small enough that every generated ray is
/// accepted by the intersection test.
pub open spec fn camera_wf(c: Camera) -> bool {
    &&& bounded(c.origin, CAM_VEC_BOUND as int)
    &&& bounded(c.lower_left_corner, CAM_VEC_BOUND as int)
    &&& bounded(c.horizontal, CAM_VEC_BOUND as int)
    &&& bounded(c.vertical, CAM_VEC_BOUND as int)
    &&& bounded(c.u, FX_ONE as int)
    &&& bounded(c.v, 2 * (FX_ONE as int))
    &&& 0 <= c.lens_radius <= 4 * (FX_ONE as int)
    &&& 0 < c.aspect_ratio
}

/// The direction of the ray through image-plane coordinates `(s, t)`,
/// ignoring the lens offset: `lower_left + s * horizontal + t * vertical -
/// origin`.
pub open spec fn cam_ray_dir(c: Camera, s: int, t: int) -> (int, int, int) {
    (
        c.lower_left_corner.0 + fx_mul_s(c.horizontal.0 as int, s) + fx_mul_s(
            c.vertical.0 as int,
            t,
        ) - c.origin.0,
        c.lower_left_corner.1 + fx_mul_s(c.horizontal.1 as int, s) + fx_mul_s(
            c.vertical.1 as int,
            t,
        ) - c.origin.1,
        c.lower_left_corner.2 + fx_mul_s(c.horizontal.2 as int, s) + fx_mul_s(
            c.vertical.2 as int,
            t,
        ) - c.origin.2,
    )
}

/// What every generated ray satisfies, whatever the lens sampler drew: the
/// ray is in the intersection test's range; origin plus direction lands
/// exactly on the focus-plane target `lower_left + s * horizontal + t *
/// vertical`, independent of the lens sample; the origin is the camera's
/// origin shifted by the lens basis scaled with a point of the unit disk;
/// and with the lens closed the ray is exactly [`cam_ray_dir`] from the
/// camera's origin.
pub open spec fn camera_ray_ok(cam: Camera, s: int, t: int, r: Ray) -> bool {
    &&& bounded(r.origin, 0x100_0000)
    &&& bounded(r.direction, RAY_DIR_BOUND as int)
    &&& r.origin.0 + r.direction.0 == cam.lower_left_corner.0 + fx_mul_s(
        cam.horizontal.0 as int,
        s,
    ) + fx_mul_s(cam.vertical.0 as int, t)
    &&& r.origin.1 + r.direction.1 == cam.lower_left_corner.1 + fx_mul_s(
        cam.horizontal.1 as int,
        s,
    ) + fx_mul_s(cam.vertical.1 as int, t)
    &&& r.origin.2 + r.direction.2 == cam.lower_left_corner.2 + fx_mul_s(
        cam.horizontal.2 as int,
        s,
    ) + fx_mul_s(cam.vertical.2 as int, t)
    &&& exists|d: Vector3|
        {
            &&& sdot(#[trigger] v3(d), v3(d)) < (FX_ONE as int) * (FX_ONE as int)
            &&& d.2 == 0
            &&& r.origin.0 == cam.origin.0 + fx_mul_s(
                cam.u.0 as int,
                fx_mul_s(cam.lens_radius as int, d.0 as int),
            ) + fx_mul_s(cam.v.0 as int, fx_mul_s(cam.lens_radius as int, d.1 as int))
            &&& r.origin.1 == cam.origin.1 + fx_mul_s(
                cam.u.1 as int,
                fx_mul_s(cam.lens_radius as int, d.0 as int),
            ) + fx_mul_s(cam.v.1 as int, fx_mul_s(cam.lens_radius as int, d.1 as int))
            &&& r.origin.2 == cam.origin.2 + fx_mul_s(
                cam.u.2 as int,
                fx_mul_s(cam.lens_radius as int, d.0 as int),
            ) + fx_mul_s(cam.v.2 as int, fx_mul_s(cam.lens_radius as int, d.1 as int))
        }
    &&& (cam.lens_radius == 0 ==> r.origin == cam.origin && v3(r.direction) == cam_ray_dir(
        cam,
        s,
        t,
    ))
}

/// Ray-generation state: where rays start, the viewport's corner and
/// spanning vectors, the lens basis and radius, and the aspect ratio the
/// render loop uses to derive the image height.
#[derive(Debug, Clone, Copy, PartialEq, Eq, Structural)]
pub struct Camera {
    pub origin: Point3,
    pub lower_left_corner: Point3,
    pub horizontal: Vector3,
    pub vertical: Vector3,
    pub u: Vector3,
    pub v: Vector3,
    pub lens_radius: i64,
    pub aspect_ratio: i64,
}

impl Camera {
    /// Assembles the ray-generation vectors from the view parameters: the
    /// eye point, the target, the up direction, the viewport height at the
    /// focus plane, the aspect ratio, the aperture diameter and the focus
    /// distance. A degenerate up direction falls back to a fixed lens axis
    /// rather than dividing by zero.
    #[verifier::rlimit(80)]
    pub fn new(
        lookfrom: Point3,
        lookat: Point3,
        vup: Vector3,
        viewport_height: i64,
        aspect_ratio: i64,
        aperture: i64,
        focus_dist: i64,
    ) -> (c: Camera)
        requires
            bounded(lookfrom, 0x10_0000),
            bounded(lookat, 0x10_0000),
            bounded(vup, 0x4_0000),
            ({
                let dx = lookfrom.0 - lookat.0;
                let dy = lookfrom.1 - lookat.1;
                let dz = lookfrom.2 - lookat.2;
                sdot((dx, dy, dz), (dx, dy, dz)) > 0
            }),
            0 < viewport_height <= 2 * FX_ONE,
            0x2000 <= aspect_ratio <= 2 * FX_ONE,
            0 <= aperture <= 8 * FX_ONE,
            0 < focus_dist <= 0x10_0000,
        ensures
            camera_wf(c),
            c.origin == lookfrom,
            c.aspect_ratio == aspect_ratio,
            c.lens_radius == aperture as int / 2,
    {
        let diff = lookfrom.sub(lookat);
        let w = diff.unit_vector();
        proof {
            lemma_abs_mul_bound(vup.1 as int, w.2 as int, 0x4_0000, 0x1_0000);
            lemma_abs_mul_bound(vup.2 as int, w.1 as int, 0x4_0000, 0x1_0000);
            lemma_abs_mul_bound(vup.2 as int, w.0 as int, 0x4_0000, 0x1_0000);
            lemma_abs_mul_bound(vup.0 as int, w.2 as int, 0x4_0000, 0x1_0000);
            lemma_abs_mul_bound(vup.0 as int, w.1 as int, 0x4_0000, 0x1_0000);
            lemma_abs_mul_bound(vup.1 as int, w.0 as int, 0x4_0000, 0x1_0000);
        }
        let cu = vup.cross(&w);
        proof {
            lemma_fx_rescale_cap(vup.1 * w.2 - vup.2 * w.1, 0x8_0000);
            lemma_fx_rescale_cap(vup.2 * w.0 - vup.0 * w.2, 0x8_0000);
            lemma_fx_rescale_cap(vup.0 * w.1 - vup.1 * w.0, 0x8_0000);
        }
        let u = if cu.x() == 0 && cu.y() == 0 && cu.z() == 0 {
            Vector3(FX_ONE, 0, 0)
        } else {
            proof {
                lemma_self_dot(v3(cu));
                if cu.0 != 0 {
                    assert((cu.0 as int) * (cu.0 as int) >= 1) by (nonlinear_arith)
                        requires
                            cu.0 != 0,
                    ;
                } else if cu.1 != 0 {
                    assert((cu.1 as int) * (cu.1 as int) >= 1) by (nonlinear_arith)
                        requires
                            cu.1 != 0,
                    ;
                } else {
                    assert((cu.2 as int) * (cu.2 as int) >= 1) by (nonlinear_arith)
                        requires
                            cu.2 != 0,
                    ;
                }
            }
            cu.unit_vector()
        };
        proof {
            lemma_abs_mul_bound(w.1 as int, u.2 as int, 0x1_0000, 0x1_0000);
            lemma_abs_mul_bound(w.2 as int, u.1 as int, 0x1_0000, 0x1_0000);
            lemma_abs_mul_bound(w.2 as int, u.0 as int, 0x1_0000, 0x1_0000);
            lemma_abs_mul_bound(w.0 as int, u.2 as int, 0x1_0000, 0x1_0000);
            lemma_abs_mul_bound(w.0 as int, u.1 as int, 0x1_0000, 0x1_0000);
            lemma_abs_mul_bound(w.1 as int, u.0 as int, 0x1_0000, 0x1_0000);
        }
        let v = w.cross(&u);
        proof {
            lemma_fx_rescale_cap(w.1 * u.2 - w.2 * u.1, 0x2_0000);
            lemma_fx_rescale_cap(w.2 * u.0 - w.0 * u.2, 0x2_0000);
            lemma_fx_rescale_cap(w.0 * u.1 - w.1 * u.0, 0x2_0000);
            lemma_fx_mul_cap(aspect_ratio as int, viewport_height as int, 131072, 131072, 262144);
        }
        let viewport_width = fx_mul(aspect_ratio, viewport_height);
        proof {
            lemma_fx_mul_cap(focus_dist as int, viewport_width as int, 1048576, 262144, 4194304);
            lemma_fx_mul_cap(focus_dist as int, viewport_height as int, 1048576, 131072, 2097152);
        }
        let h_scale = fx_mul(focus_dist, viewport_width);
        let v_scale = fx_mul(focus_dist, viewport_height);
        proof {
            lemma_fx_mul_cap(u.0 as int, h_scale as int, 65536, 4194304, 4194304);
            lemma_fx_mul_cap(u.1 as int, h_scale as int, 65536, 4194304, 4194304);
            lemma_fx_mul_cap(u.2 as int, h_scale as int, 65536, 4194304, 4194304);
            lemma_fx_mul_cap(v.0 as int, v_scale as int, 131072, 2097152, 4194304);
            lemma_fx_mul_cap(v.1 as int, v_scale as int, 131072, 2097152, 4194304);
            lemma_fx_mul_cap(v.2 as int, v_scale as int, 131072, 2097152, 4194304);
            lemma_fx_mul_cap(w.0 as int, focus_dist as int, 65536, 1048576, 1048576);
            lemma_fx_mul_cap(w.1 as int, focus_dist as int, 65536, 1048576, 1048576);
            lemma_fx_mul_cap(w.2 as int, focus_dist as int, 65536, 1048576, 1048576);
        }
        let horizontal = u.mul(h_scale);
        let vertical = v.mul(v_scale);
        let w_focus = w.mul(focus_dist);
        proof {
            lemma_half_cap(horizontal.0 as int);
            lemma_half_cap(horizontal.1 as int);
            lemma_half_cap(horizontal.2 as int);
            lemma_half_cap(vertical.0 as int);
            lemma_half_cap(vertical.1 as int);
            lemma_half_cap(vertical.2 as int);
        }
        let half_h = horizontal.div(2 * FX_ONE);
        let half_v = vertical.div(2 * FX_ONE);
        let lower_left_corner = lookfrom.sub(half_h).sub(half_v).sub(w_focus);
        proof {
            lemma_abs_mul_bound(aperture as int, FX_ONE as int, 524288, 65536);
            lemma_tdiv_bound(
                (aperture as int) * (FX_ONE as int),
                2 * (FX_ONE as int),
                34359738368,
            );
            vstd::arithmetic::div_mod::lemma_multiply_divide_le(
                iabs((aperture as int) * (FX_ONE as int)),
                131072,
                262144,
            );
            // (aperture * 65536) / 131072 is exactly aperture / 2
            let q = aperture as int / 2;
            vstd::arithmetic::div_mod::lemma_fundamental_div_mod(aperture as int, 2);
            vstd::arithmetic::div_mod::lemma_mod_division_less_than_divisor(aperture as int, 2);
            assert((aperture as int) * 65536 == 131072 * q + (aperture as int % 2) * 65536);
            vstd::arithmetic::div_mod::lemma_div_multiples_vanish_fancy(
                q,
                (aperture as int % 2) * 65536,
                131072,
            );
        }
        let lens_radius = fx_div(aperture, 2 * FX_ONE);
        Camera {
            origin: lookfrom,
            horizontal,
            vertical,
            lower_left_corner,
            aspect_ratio,
            u,
            v,
            lens_radius,
        }
    }

    /// The ray through image-plane coordinates `(s, t)`, offset by a random
    /// lens point scaled by the lens radius. Whatever the lens sampler
    /// drew, origin plus direction is exactly the focus-plane target for
    /// `(s, t)`; with the lens closed the ray is exactly [`cam_ray_dir`]
    /// from the camera's origin.
    #[verifier::rlimit(60)]
    pub fn ray(&self, s: i64, t: i64) -> (r: Ray)
        requires
            camera_wf(*self),
            0 <= s <= 2 * FX_ONE,
            0 <= t <= 2 * FX_ONE,
        ensures
            camera_ray_ok(*self, s as int, t as int, r),
    {
        let fd = random_in_unit_disk();
        proof {
            lemma_fx_mul_cap(self.lens_radius as int, fd.0 as int, 262144, 65536, 262144);
            lemma_fx_mul_cap(self.lens_radius as int, fd.1 as int, 262144, 65536, 262144);
            if self.lens_radius == 0 {
                assert(0int * (fd.0 as int) == 0);
                assert(0int * (fd.1 as int) == 0);
                assert(iabs(fx_mul_s(0, fd.0 as int)) <= 0);
                assert(iabs(fx_mul_s(0, fd.1 as int)) <= 0);
            }
        }
        let lr_x = fx_mul(self.lens_radius, fd.x());
        let lr_y = fx_mul(self.lens_radius, fd.y());
        proof {
            lemma_fx_mul_cap(self.u.0 as int, lr_x as int, 65536, 262144, 262144);
            lemma_fx_mul_cap(self.u.1 as int, lr_x as int, 65536, 262144, 262144);
            lemma_fx_mul_cap(self.u.2 as int, lr_x as int, 65536, 262144, 262144);
            lemma_fx_mul_cap(self.v.0 as int, lr_y as int, 131072, 262144, 524288);
            lemma_fx_mul_cap(self.v.1 as int, lr_y as int, 131072, 262144, 524288);
            lemma_fx_mul_cap(self.v.2 as int, lr_y as int, 131072, 262144, 524288);
            if self.lens_radius == 0 {
                lemma_zero_scale(self.u.0 as int);
                lemma_zero_scale(self.u.1 as int);
                lemma_zero_scale(self.u.2 as int);
                lemma_zero_scale(self.v.0 as int);
                lemma_zero_scale(self.v.1 as int);
                lemma_zero_scale(self.v.2 as int);
            }
        }
        let offset = self.u.mul(lr_x).add(self.v.mul(lr_y));
        let origin = self.origin.add(offset);
        proof {
            lemma_fx_mul_cap(self.horizontal.0 as int, s as int, 8388608, 131072, 16777216);
            lemma_fx_mul_cap(self.horizontal.1 as int, s as int, 8388608, 131072, 16777216);
            lemma_fx_mul_cap(self.horizontal.2 as int, s as int, 8388608, 131072, 16777216);
            lemma_fx_mul_cap(self.vertical.0 as int, t as int, 8388608, 131072, 16777216);
            lemma_fx_mul_cap(self.vertical.1 as int, t as int, 8388608, 131072, 16777216);
            lemma_fx_mul_cap(self.vertical.2 as int, t as int, 8388608, 131072, 16777216);
        }
        let sh = self.horizontal.mul(s);
        let tv = self.vertical.mul(t);
        let dir = self.lower_left_corner.add(sh).add(tv).sub(self.origin).sub(offset);
        let r = Ray::new(origin, dir);
        proof {
            assert(exists|d: Vector3|
                {
                    &&& sdot(#[trigger] v3(d), v3(d)) < (FX_ONE as int) * (FX_ONE as int)
                    &&& d.2 == 0
                    &&& r.origin.0 == self.origin.0 + fx_mul_s(
                        self.u.0 as int,
                        fx_mul_s(self.lens_radius as int, d.0 as int),
                    ) + fx_mul_s(self.v.0 as int, fx_mul_s(self.lens_radius as int, d.1 as int))
                    &&& r.origin.1 == self.origin.1 + fx_mul_s(
                        self.u.1 as int,
                        fx_mul_s(self.lens_radius as int, d.0 as int),
                    ) + fx_mul_s(self.v.1 as int, fx_mul_s(self.lens_radius as int, d.1 as int))
                    &&& r.origin.2 == self.origin.2 + fx_mul_s(
                        self.u.2 as int,
                        fx_mul_s(self.lens_radius as int, d.0 as int),
                    ) + fx_mul_s(self.v.2 as int, fx_mul_s(self.lens_radius as int, d.1 as int))
                }) by {
                assert(sdot(v3(fd), v3(fd)) < (FX_ONE as int) * (FX_ONE as int));
            }
        }
        r
    }
}

/// Scaling by a zero factor gives a zero component.
proof fn lemma_zero_scale(c: int)
    ensures
        fx_mul_s(c, 0) == 0,
{
    assert(c * 0 == 0);
}

/// Halving a camera vector component by the fixed-point two.
proof fn lemma_half_cap(c: int)
    requires
        iabs(c) <= 4194304,
    ensures
        iabs(fx_div_s(c, 2 * (FX_ONE as int))) <= 2097152,
{
    lemma_abs_mul_bound(c, FX_ONE as int, 4194304, 65536);
    lemma_tdiv_bound(c * (FX_ONE as int), 2 * (FX_ONE as int), iabs(c * (FX_ONE as int)));
    vstd::arithmetic::div_mod::lemma_multiply_divide_le(
        iabs(c * (FX_ONE as int)),
        131072,
        2097152,
    );
}

} // verus!
