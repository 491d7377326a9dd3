//! Surface materials: a closed set of three scattering behaviors,
//! dispatched by one `match` so spheres can store their material by value.

use crate::fixed::{
    fx_div, fx_div_s, fx_mul, fx_mul_s, fx_sqrt, iabs, lemma_tdiv_bound, sqrt_floor, tdiv, FX_ONE,
};
use crate::hittables::{HitRecord, RAY_DIR_BOUND};
use crate::math::{bounded, sdot, unit_t, v3, Color, Ray, Vector3, NEAR_ZERO_EPS};
use crate::utils::{
    clamp, lemma_reflect_unit_bound, lemma_refract_unit_bound, rand_range, random_in_unit_sphere,
    random_unit_vector, reflect, reflect_t, refract, refract_t, RATIO_BOUND,
};
use vstd::prelude::*;

verus! {

/// Smallest refraction index a well-formed dielectric may carry: a quarter
/// unit, far below any physical medium.
pub const INDEX_MIN: i64 = 0x4000;

/// Largest refraction index a well-formed dielectric may carry: four units.
pub const INDEX_MAX: i64 = 0x4_0000;

/// A matte surface that scatters diffusely and tints by its albedo.
#[derive(Debug, Clone, Copy, PartialEq, Eq, Structural)]
pub struct Lambertian {
    pub albedo: Color,
}

/// A mirror-like surface with a fuzz factor perturbing the reflection.
#[derive(Debug, Clone, Copy, PartialEq, Eq, Structural)]
pub struct Metal {
    pub albedo: Color,
    pub fuzz: i64,
}

/// A clear surface that refracts or reflects by its refraction index.
#[derive(Debug, Clone, Copy, PartialEq, Eq, Structural)]
pub struct Dielectric {
    pub refraction_index: i64,
}

/// The closed set of materials a surface can carry.
#[derive(Debug, Clone, Copy, PartialEq, Eq, Structural)]
pub enum Material {
    Lambertian(Lambertian),
    Metal(Metal),
    Dielectric(Dielectric),
}

/// Every channel lies in `[0, 1]` in the fixed-point scale.
pub open spec fn color_wf(c: Color) -> bool {
    &&& 0 <= c.0 <= FX_ONE
    &&& 0 <= c.1 <= FX_ONE
    &&& 0 <= c.2 <= FX_ONE
}

/// A material whose parameters are in the ranges the scattering code
/// assumes: unit-interval albedo and fuzz, a refraction index within
/// [`INDEX_MIN`, `INDEX_MAX`].
pub open spec fn material_wf(m: Material) -> bool {
    match m {
        Material::Lambertian(l) => color_wf(l.albedo),
        Material::Metal(mt) => color_wf(mt.albedo) && 0 <= mt.fuzz <= FX_ONE,
        Material::Dielectric(d) => INDEX_MIN <= d.refraction_index <= INDEX_MAX,
    }
}

impl Lambertian {
    /// A diffuse material with the given albedo.
    pub fn new(albedo: Color) -> (r: Material)
        ensures
            r == (Material::Lambertian(Lambertian { albedo })),
    {
        Material::Lambertian(Lambertian { albedo })
    }
}

impl Metal {
    /// A metal with the given albedo; the fuzz factor is clamped to at most
    /// one unit.
    pub fn new(albedo: Color, fuzz: i64) -> (r: Material)
        ensures
            r == (Material::Metal(
                Metal {
                    albedo,
                    fuzz: if fuzz > FX_ONE {
                        FX_ONE
                    } else {
                        fuzz
                    },
                },
            )),
    {
        let f = if fuzz > FX_ONE {
            FX_ONE
        } else {
            fuzz
        };
        Material::Metal(Metal { albedo, fuzz: f })
    }
}

impl Dielectric {
    /// A clear material with the given refraction index.
    pub fn new(refraction_index: i64) -> (r: Material)
        ensures
            r == (Material::Dielectric(Dielectric { refraction_index })),
    {
        Material::Dielectric(Dielectric { refraction_index })
    }

    /// The Schlick approximation of the angle-dependent reflection
    /// probability, exactly as [`reflectance_s`] states it.
    pub fn reflectance(cosine: i64, refraction_ratio: i64) -> (r: i64)
        requires
            -FX_ONE <= cosine <= FX_ONE,
            0 < refraction_ratio <= RATIO_BOUND,
        ensures
            r == reflectance_s(cosine as int, refraction_ratio as int),
    {
        proof {
            let num = (FX_ONE - refraction_ratio) * (FX_ONE as int);
            crate::fixed::lemma_abs_mul_bound(
                FX_ONE - refraction_ratio,
                FX_ONE as int,
                196608,
                65536,
            );
            lemma_tdiv_bound(num, FX_ONE + refraction_ratio, iabs(num));
            vstd::arithmetic::div_mod::lemma_multiply_divide_le(
                iabs(num),
                FX_ONE + refraction_ratio,
                196608,
            );
        }
        let r0 = fx_div(FX_ONE - refraction_ratio, FX_ONE + refraction_ratio);
        proof {
            crate::fixed::lemma_fx_mul_cap(r0 as int, r0 as int, 196608, 196608, 589824);
            crate::fixed::lemma_abs_mul_bound(r0 as int, r0 as int, 196608, 196608);
            assert((r0 as int) * (r0 as int) >= 0) by (nonlinear_arith);
            lemma_tdiv_bound((r0 as int) * (r0 as int), FX_ONE as int, 38654705664);
        }
        let r0_sq = fx_mul(r0, r0);
        let p1 = FX_ONE - cosine;
        proof {
            crate::fixed::lemma_fx_mul_cap(p1 as int, p1 as int, 131072, 131072, 262144);
        }
        let p2 = fx_mul(p1, p1);
        proof {
            crate::fixed::lemma_fx_mul_cap(p2 as int, p2 as int, 262144, 262144, 1048576);
        }
        let p4 = fx_mul(p2, p2);
        proof {
            crate::fixed::lemma_fx_mul_cap(p4 as int, p1 as int, 1048576, 131072, 2097152);
        }
        let p5 = fx_mul(p4, p1);
        proof {
            crate::fixed::lemma_fx_mul_cap(
                FX_ONE - r0_sq as int,
                p5 as int,
                655360,
                2097152,
                20971520,
            );
        }
        r0_sq + fx_mul(FX_ONE - r0_sq, p5)
    }
}

/// The Schlick reflection probability, as computed: `r0 + (1 - r0) *
/// (1 - cos)^5` with `r0 = ((1 - ratio) / (1 + ratio))^2`, every product
/// rescaled by one truncating division.
pub open spec fn reflectance_s(cos: int, ratio: int) -> int {
    let r0 = fx_div_s(FX_ONE - ratio, FX_ONE + ratio);
    let r0_sq = fx_mul_s(r0, r0);
    let p1 = FX_ONE - cos;
    let p2 = fx_mul_s(p1, p1);
    let p4 = fx_mul_s(p2, p2);
    let p5 = fx_mul_s(p4, p1);
    r0_sq + fx_mul_s(FX_ONE - r0_sq, p5)
}

/// Componentwise bound on every scattered ray direction.
pub const SCATTER_DIR_BOUND: i64 = 0x40_0000;

/// The attenuation a material applies to whatever its scattered ray
/// brings back: its albedo, or plain white for a dielectric.
pub open spec fn attenuation_of(m: Material) -> (int, int, int) {
    match m {
        Material::Lambertian(l) => v3(l.albedo),
        Material::Metal(mt) => v3(mt.albedo),
        Material::Dielectric(_) => (FX_ONE as int, FX_ONE as int, FX_ONE as int),
    }
}

/// What scattering returns for given random draws. `rand_unit` stands in
/// for the unit direction a diffuse bounce adds, `rand_sphere` for the
/// in-sphere point a fuzzy metal adds, `rand_draw` for the uniform draw a
/// dielectric compares against its reflection probability; each case reads
/// only the draws it uses.
pub open spec fn scatter_rel(
    m: Material,
    ray: Ray,
    rec: HitRecord,
    rand_unit: Vector3,
    rand_sphere: Vector3,
    rand_draw: int,
    res: Option<(Color, Ray)>,
) -> bool {
    match m {
        Material::Lambertian(l) => {
            let sx = rec.normal.0 + rand_unit.0;
            let sy = rec.normal.1 + rand_unit.1;
            let sz = rec.normal.2 + rand_unit.2;
            let degenerate = iabs(sx) < NEAR_ZERO_EPS && iabs(sy) < NEAR_ZERO_EPS && iabs(sz)
                < NEAR_ZERO_EPS;
            let dir = if degenerate {
                v3(rec.normal)
            } else {
                (sx, sy, sz)
            };
            res matches Some(pr) && pr.0 == l.albedo && pr.1.origin == rec.point && v3(
                pr.1.direction,
            ) == dir
        },
        Material::Metal(mt) => {
            let u = unit_t(v3(ray.direction));
            let refl = reflect_t(u, v3(rec.normal));
            let dir = (
                refl.0 + fx_mul_s(rand_sphere.0 as int, mt.fuzz as int),
                refl.1 + fx_mul_s(rand_sphere.1 as int, mt.fuzz as int),
                refl.2 + fx_mul_s(rand_sphere.2 as int, mt.fuzz as int),
            );
            if tdiv(sdot(dir, v3(rec.normal)), FX_ONE as int) > 0 {
                res matches Some(pr) && pr.0 == mt.albedo && pr.1.origin == rec.point && v3(
                    pr.1.direction,
                ) == dir
            } else {
                res is None
            }
        },
        Material::Dielectric(d) => {
            let ratio = if rec.front_face {
                fx_div_s(FX_ONE as int, d.refraction_index as int)
            } else {
                d.refraction_index as int
            };
            let u = unit_t(v3(ray.direction));
            let cd = tdiv(-sdot(u, v3(rec.normal)), FX_ONE as int);
            let cos = if cd < -FX_ONE {
                -FX_ONE as int
            } else if cd > FX_ONE {
                FX_ONE as int
            } else {
                cd
            };
            let sin = sqrt_floor((FX_ONE - fx_mul_s(cos, cos)) * (FX_ONE as int));
            let dir = if fx_mul_s(ratio, sin) > FX_ONE || reflectance_s(cos, ratio) > rand_draw {
                reflect_t(u, v3(rec.normal))
            } else {
                refract_t(u, v3(rec.normal), ratio)
            };
            res matches Some(pr) && pr.0 == (Vector3(FX_ONE, FX_ONE, FX_ONE)) && pr.1.origin
                == rec.point && v3(pr.1.direction) == dir
        },
    }
}

impl Material {
    /// Scattering with the random draws passed in: fully deterministic, so
    /// the result is pinned down by [`scatter_rel`].
    pub fn scatter_with(
        &self,
        ray: Ray,
        rec: &HitRecord,
        rand_unit: Vector3,
        rand_sphere: Vector3,
        rand_draw: i64,
    ) -> (res: Option<(Color, Ray)>)
        requires
            material_wf(*self),
            bounded(rec.normal, FX_ONE as int),
            bounded(ray.direction, RAY_DIR_BOUND as int),
            sdot(v3(ray.direction), v3(ray.direction)) > 0,
            bounded(rand_unit, FX_ONE as int),
            bounded(rand_sphere, FX_ONE as int),
            0 <= rand_draw < FX_ONE,
        ensures
            scatter_rel(*self, ray, *rec, rand_unit, rand_sphere, rand_draw as int, res),
            res matches Some(pr) ==> {
                &&& pr.1.origin == rec.point
                &&& bounded(pr.1.direction, SCATTER_DIR_BOUND as int)
                &&& color_wf(pr.0)
            },
    {
        match *self {
            Material::Lambertian(l) => {
                let scatter_direction = rec.normal.add(rand_unit);
                let dir = if scatter_direction.near_zero() {
                    rec.normal
                } else {
                    scatter_direction
                };
                Some((l.albedo, Ray::new(rec.point, dir)))
            },
            Material::Metal(mt) => {
                let u = ray.direction.unit_vector();
                let reflected = reflect(u, rec.normal);
                proof {
                    lemma_reflect_unit_bound(v3(u), v3(rec.normal));
                    crate::fixed::lemma_fx_mul_cap(
                        rand_sphere.0 as int,
                        mt.fuzz as int,
                        65536,
                        65536,
                        65536,
                    );
                    crate::fixed::lemma_fx_mul_cap(
                        rand_sphere.1 as int,
                        mt.fuzz as int,
                        65536,
                        65536,
                        65536,
                    );
                    crate::fixed::lemma_fx_mul_cap(
                        rand_sphere.2 as int,
                        mt.fuzz as int,
                        65536,
                        65536,
                        65536,
                    );
                }
                let fuzzed = rand_sphere.mul(mt.fuzz);
                let dir = reflected.add(fuzzed);
                let side = dir.dot(&rec.normal);
                if side > 0 {
                    Some((mt.albedo, Ray::new(rec.point, dir)))
                } else {
                    None
                }
            },
            Material::Dielectric(d) => {
                let refraction_ratio = if rec.front_face {
                    proof {
                        assert((FX_ONE as int) * (FX_ONE as int) == 4294967296) by (nonlinear_arith)
                            requires
                                FX_ONE == 65536i64,
                        ;
                        lemma_tdiv_bound(
                            (FX_ONE as int) * (FX_ONE as int),
                            d.refraction_index as int,
                            4294967296,
                        );
                        vstd::arithmetic::div_mod::lemma_multiply_divide_le(
                            4294967296,
                            d.refraction_index as int,
                            262144,
                        );
                        vstd::arithmetic::div_mod::lemma_div_is_ordered_by_denominator(
                            4294967296,
                            d.refraction_index as int,
                            262144,
                        );
                    }
                    fx_div(FX_ONE, d.refraction_index)
                } else {
                    d.refraction_index
                };
                let u = ray.direction.unit_vector();
                proof {
                    crate::math::lemma_sdot_bound(v3(u), v3(rec.normal), 65536, 65536);
                    crate::math::lemma_sdot_neg_left(v3(u), v3(rec.normal));
                    lemma_tdiv_bound(-sdot(v3(u), v3(rec.normal)), FX_ONE as int, 12884901888);
                    vstd::arithmetic::div_mod::lemma_multiply_divide_le(
                        iabs(-sdot(v3(u), v3(rec.normal))),
                        65536,
                        196608,
                    );
                }
                let minus_u = u.neg();
                let cd = minus_u.dot(&rec.normal);
                let cos_theta = clamp(cd, -FX_ONE, FX_ONE);
                proof {
                    crate::fixed::lemma_fx_mul_cap(
                        cos_theta as int,
                        cos_theta as int,
                        65536,
                        65536,
                        65536,
                    );
                    assert(fx_mul_s(cos_theta as int, cos_theta as int) >= 0) by {
                        crate::fixed::lemma_abs_mul_bound(
                            cos_theta as int,
                            cos_theta as int,
                            65536,
                            65536,
                        );
                        assert((cos_theta as int) * (cos_theta as int) >= 0) by (nonlinear_arith);
                        lemma_tdiv_bound(
                            (cos_theta as int) * (cos_theta as int),
                            FX_ONE as int,
                            4294967296,
                        );
                    }
                }
                let sin_sq = FX_ONE - fx_mul(cos_theta, cos_theta);
                let sin_theta = fx_sqrt(sin_sq);
                proof {
                    crate::fixed::lemma_abs_mul_bound(
                        sin_sq as int,
                        FX_ONE as int,
                        65536,
                        65536,
                    );
                    crate::fixed::lemma_sqrt_floor_bounds((sin_sq as int) * (FX_ONE as int));
                    assert(sqrt_floor((sin_sq as int) * (FX_ONE as int)) <= 65536)
                        by (nonlinear_arith)
                        requires
                            0 <= sqrt_floor((sin_sq as int) * (FX_ONE as int)),
                            sqrt_floor((sin_sq as int) * (FX_ONE as int)) * sqrt_floor(
                                (sin_sq as int) * (FX_ONE as int),
                            ) <= (sin_sq as int) * (FX_ONE as int),
                            iabs((sin_sq as int) * (FX_ONE as int)) <= 4294967296,
                    ;
                }
                let cannot_refract = fx_mul(refraction_ratio, sin_theta) > FX_ONE;
                let draw_reflect = Dielectric::reflectance(cos_theta, refraction_ratio) > rand_draw;
                let dir = if cannot_refract || draw_reflect {
                    proof {
                        lemma_reflect_unit_bound(v3(u), v3(rec.normal));
                    }
                    reflect(u, rec.normal)
                } else {
                    proof {
                        lemma_refract_unit_bound(
                            v3(u),
                            v3(rec.normal),
                            refraction_ratio as int,
                        );
                    }
                    refract(u, rec.normal, refraction_ratio)
                };
                Some((Vector3(FX_ONE, FX_ONE, FX_ONE), Ray::new(rec.point, dir)))
            },
        }
    }

    /// Scattering with fresh random draws. What holds of every outcome: the
    /// scattered ray starts at the hit point, its direction is bounded, the
    /// attenuation is the material's own (white for a dielectric), and only
    /// a metal ever absorbs the ray.
    pub fn scatter(&self, ray: Ray, rec: &HitRecord) -> (res: Option<(Color, Ray)>)
        requires
            material_wf(*self),
            bounded(rec.normal, FX_ONE as int),
            bounded(ray.direction, RAY_DIR_BOUND as int),
            sdot(v3(ray.direction), v3(ray.direction)) > 0,
        ensures
            res matches Some(pr) ==> {
                &&& pr.1.origin == rec.point
                &&& bounded(pr.1.direction, SCATTER_DIR_BOUND as int)
                &&& color_wf(pr.0)
                &&& match *self {
                    Material::Lambertian(l) => pr.0 == l.albedo,
                    Material::Metal(mt) => pr.0 == mt.albedo,
                    Material::Dielectric(_) => pr.0 == (Vector3(FX_ONE, FX_ONE, FX_ONE)),
                }
            },
            !(*self is Metal) ==> res.is_some(),
    {
        let rand_unit = random_unit_vector();
        let rand_sphere = random_in_unit_sphere();
        let rand_draw = rand_range(0, FX_ONE);
        let res = self.scatter_with(ray, rec, rand_unit, rand_sphere, rand_draw);
        res
    }
}

} // verus!
