//! Spheres, hit records and the scene container.
//!
//! A sphere intersection solves `|O - C + tD|^2 = r^2`. Because every
//! quantity is a scaled integer, the discriminant sign is computed exactly;
//! the only rounding is the integer square root and the final division,
//! both stated verbatim in the specification functions below.

use crate::fixed::{
    iabs, isqrt_u128, lemma_abs_mul_bound, lemma_fx_mul_bound, lemma_sqrt_floor_bounds,
    lemma_tdiv_bound, lemma_tdiv_ordered, sqrt_floor, tdiv, tdiv_i128, FX_ONE, FX_OP_BOUND,
};
use crate::materials::{material_wf, Material};
use crate::math::{
    bounded, dot_wide, lemma_component_le_length, lemma_sdot_bound, lemma_self_dot,
    lemma_unit_component, sdot, v3, Point3, Ray, Vector3,
};
use vstd::prelude::*;

verus! {

/// Componentwise bound on sphere centers, and bound on radius magnitudes.
pub const SCENE_BOUND: i64 = 0x800_0000;

/// Componentwise bound on ray origins accepted by the intersection test.
pub const RAY_ORIGIN_BOUND: i64 = 0x8_0000_0000;

/// Componentwise bound on ray directions accepted by the intersection test.
pub const RAY_DIR_BOUND: i64 = 0x400_0000;

/// What one intersection query reports: where the ray met the surface, the
/// sidedness-corrected unit normal there, the ray parameter, whether the
/// ray arrived from outside, and the surface's material.
#[derive(Debug, Clone, Copy, PartialEq, Eq, Structural)]
pub struct HitRecord {
    pub point: Point3,
    pub normal: Vector3,
    pub t: i64,
    pub front_face: bool,
    pub material: Material,
}

/// A sphere: center, signed radius (negative radii turn the normal inward,
/// for hollow surfaces), and its material, stored by value.
#[derive(Debug, Clone, Copy, PartialEq, Eq, Structural)]
pub struct Sphere {
    pub center: Point3,
    pub radius: i64,
    pub material: Material,
}

/// A ray the intersection test accepts: origin and direction small enough
/// that the exact quadratic fits in wide integers.
pub open spec fn hit_ray_wf(r: Ray) -> bool {
    &&& bounded(r.origin, RAY_ORIGIN_BOUND as int)
    &&& bounded(r.direction, RAY_DIR_BOUND as int)
}

/// A sphere the intersection test accepts.
pub open spec fn sphere_wf(s: Sphere) -> bool {
    &&& bounded(s.center, SCENE_BOUND as int)
    &&& s.radius != 0
    &&& iabs(s.radius as int) <= SCENE_BOUND as int
    &&& material_wf(s.material)
}

/// The ray origin's offset from the sphere center.
pub open spec fn sp_oc(s: Sphere, r: Ray) -> (int, int, int) {
    (
        r.origin.0 - s.center.0,
        r.origin.1 - s.center.1,
        r.origin.2 - s.center.2,
    )
}

/// The quadratic's leading coefficient: the direction's exact self-dot.
pub open spec fn sp_a(r: Ray) -> int {
    sdot(v3(r.direction), v3(r.direction))
}

/// Half the quadratic's middle coefficient: the exact offset-direction dot.
pub open spec fn sp_half_b(s: Sphere, r: Ray) -> int {
    sdot(sp_oc(s, r), v3(r.direction))
}

/// The quadratic's constant coefficient: offset self-dot minus the squared
/// radius.
pub open spec fn sp_c(s: Sphere, r: Ray) -> int {
    sdot(sp_oc(s, r), sp_oc(s, r)) - (s.radius as int) * (s.radius as int)
}

/// The (quarter) discriminant, computed exactly.
pub open spec fn sp_disc(s: Sphere, r: Ray) -> int {
    sp_half_b(s, r) * sp_half_b(s, r) - sp_a(r) * sp_c(s, r)
}

/// The smaller root, as the fixed-point code computes it.
pub open spec fn sp_root_lo(s: Sphere, r: Ray) -> int {
    tdiv((-sp_half_b(s, r) - sqrt_floor(sp_disc(s, r))) * (FX_ONE as int), sp_a(r))
}

/// The larger root, as the fixed-point code computes it.
pub open spec fn sp_root_hi(s: Sphere, r: Ray) -> int {
    tdiv((-sp_half_b(s, r) + sqrt_floor(sp_disc(s, r))) * (FX_ONE as int), sp_a(r))
}

/// Which root, if any, a sphere reports for the interval `[t_min, t_max]`:
/// none for a negative discriminant or a degenerate direction, else the
/// smaller root when it lies in the interval, else the larger root when it
/// does, else none.
pub open spec fn chosen_root(s: Sphere, r: Ray, t_min: int, t_max: int) -> Option<int> {
    if sp_a(r) == 0 || sp_disc(s, r) < 0 {
        None
    } else if t_min <= sp_root_lo(s, r) <= t_max {
        Some(sp_root_lo(s, r))
    } else if t_min <= sp_root_hi(s, r) <= t_max {
        Some(sp_root_hi(s, r))
    } else {
        None
    }
}

/// The outward unit normal the code stores at point `p`: the offset from
/// the center rescaled by its own length (zero if the point degenerates to
/// the center), flipped for a negative radius.
pub open spec fn outward_normal_at(s: Sphere, p: Point3) -> (int, int, int) {
    let off = (p.0 - s.center.0, p.1 - s.center.1, p.2 - s.center.2);
    let len = sqrt_floor(sdot(off, off));
    if len == 0 {
        (0, 0, 0)
    } else {
        let u = (
            tdiv(off.0 * (FX_ONE as int), len),
            tdiv(off.1 * (FX_ONE as int), len),
            tdiv(off.2 * (FX_ONE as int), len),
        );
        if s.radius > 0 {
            u
        } else {
            (-u.0, -u.1, -u.2)
        }
    }
}

/// `p` is where ray `r` evaluates at parameter `t`.
pub open spec fn hit_point_for(r: Ray, t: int, p: Point3) -> bool {
    &&& p.0 == r.origin.0 + crate::fixed::fx_mul_s(r.direction.0 as int, t)
    &&& p.1 == r.origin.1 + crate::fixed::fx_mul_s(r.direction.1 as int, t)
    &&& p.2 == r.origin.2 + crate::fixed::fx_mul_s(r.direction.2 as int, t)
}

/// The record a hit of sphere `s` by ray `r` at parameter `t` must carry:
/// the evaluated point, the outward normal flipped to face the ray (the
/// sidedness test is the exact sign of the scaled dot), and the sphere's
/// material.
pub open spec fn hit_record_for(s: Sphere, r: Ray, t: int, rec: HitRecord) -> bool {
    &&& rec.t == t
    &&& hit_point_for(r, t, rec.point)
    &&& {
        let ow = outward_normal_at(s, rec.point);
        &&& rec.front_face == (sdot(v3(r.direction), ow) < 0)
        &&& if rec.front_face {
            v3(rec.normal) == ow
        } else {
            v3(rec.normal) == (-ow.0, -ow.1, -ow.2)
        }
    }
    &&& rec.material == s.material
}

impl HitRecord {
    /// Builds a record from its parts.
    pub fn new(point: Point3, normal: Vector3, t: i64, front_face: bool, material: Material) -> (r:
        HitRecord)
        ensures
            r == (HitRecord { point, normal, t, front_face, material }),
    {
        HitRecord { point, normal, t, front_face, material }
    }

    /// Stores the outward normal flipped to face against the ray, recording
    /// which side the ray came from; the sidedness test is the exact sign
    /// of the scaled dot product.
    pub fn set_face_normal(&mut self, ray: Ray, outward_normal: Vector3)
        requires
            bounded(ray.direction, crate::math::VEC_GEO_BOUND as int),
            bounded(outward_normal, crate::math::VEC_GEO_BOUND as int),
        ensures
            final(self).front_face == (sdot(v3(ray.direction), v3(outward_normal)) < 0),
            v3(final(self).normal) == if sdot(v3(ray.direction), v3(outward_normal)) < 0 {
                v3(outward_normal)
            } else {
                (-(outward_normal.0 as int), -(outward_normal.1 as int), -(outward_normal.2 as int))
            },
            final(self).point == old(self).point,
            final(self).t == old(self).t,
            final(self).material == old(self).material,
    {
        let dw = dot_wide(&ray.direction, &outward_normal);
        self.front_face = dw < 0;
        self.normal = if self.front_face {
            outward_normal
        } else {
            outward_normal.neg()
        };
    }
}

impl Sphere {
    /// Builds a sphere from its parts.
    pub fn new(center: Point3, radius: i64, material: Material) -> (r: Sphere)
        ensures
            r == (Sphere { center, radius, material }),
    {
        Sphere { center, radius, material }
    }

    /// The record for a hit at parameter `t`, with the normal computed from
    /// the evaluated point.
    fn record_at(&self, ray: Ray, t: i64) -> (rec: HitRecord)
        requires
            sphere_wf(*self),
            hit_ray_wf(ray),
            -FX_OP_BOUND <= t <= FX_OP_BOUND,
        ensures
            hit_record_for(*self, ray, t as int, rec),
            bounded(rec.normal, FX_ONE as int),
    {
        proof {
            crate::fixed::lemma_fx_mul_cap(
                ray.direction.0 as int,
                t as int,
                67108864,
                549755813888,
                562949953421312,
            );
            crate::fixed::lemma_fx_mul_cap(
                ray.direction.1 as int,
                t as int,
                67108864,
                549755813888,
                562949953421312,
            );
            crate::fixed::lemma_fx_mul_cap(
                ray.direction.2 as int,
                t as int,
                67108864,
                549755813888,
                562949953421312,
            );
        }
        let point = ray.at(t);
        let offx = point.0 - self.center.0;
        let offy = point.1 - self.center.1;
        let offz = point.2 - self.center.2;
        proof {
            lemma_abs_mul_bound(offx as int, offx as int, 0x4_0000_0000_0000, 0x4_0000_0000_0000);
            lemma_abs_mul_bound(offy as int, offy as int, 0x4_0000_0000_0000, 0x4_0000_0000_0000);
            lemma_abs_mul_bound(offz as int, offz as int, 0x4_0000_0000_0000, 0x4_0000_0000_0000);
            lemma_self_dot((offx as int, offy as int, offz as int));
        }
        let od: i128 = (offx as i128) * (offx as i128) + (offy as i128) * (offy as i128) + (
        offz as i128) * (offz as i128);
        let len_u = isqrt_u128(od as u128);
        let outward: Vector3;
        if len_u == 0 {
            outward = Vector3(0, 0, 0);
        } else {
            proof {
                lemma_component_le_length((offx as int, offy as int, offz as int));
                lemma_unit_component(offx as int, len_u as int);
                lemma_unit_component(offy as int, len_u as int);
                lemma_unit_component(offz as int, len_u as int);
            }
            let len: i128 = len_u as i128;
            let nx = tdiv_i128((offx as i128) * 65536, len);
            let ny = tdiv_i128((offy as i128) * 65536, len);
            let nz = tdiv_i128((offz as i128) * 65536, len);
            let u = Vector3(nx as i64, ny as i64, nz as i64);
            outward = if self.radius < 0 {
                u.neg()
            } else {
                u
            };
        }
        let mut rec = HitRecord::new(point, Vector3(0, 0, 0), t, false, self.material);
        rec.set_face_normal(ray, outward);
        rec
    }

    /// The nearest intersection of `ray` with this sphere whose parameter
    /// lies in `[t_min, t_max]`, exactly as [`chosen_root`] states it.
    pub fn hit(&self, ray: Ray, t_min: i64, t_max: i64) -> (res: Option<HitRecord>)
        requires
            sphere_wf(*self),
            hit_ray_wf(ray),
            -FX_OP_BOUND <= t_min <= FX_OP_BOUND,
            -FX_OP_BOUND <= t_max <= FX_OP_BOUND,
        ensures
            res.is_some() == chosen_root(*self, ray, t_min as int, t_max as int).is_some(),
            res matches Some(rec) ==> {
                &&& chosen_root(*self, ray, t_min as int, t_max as int) == Some(rec.t as int)
                &&& hit_record_for(*self, ray, rec.t as int, rec)
                &&& t_min <= rec.t <= t_max
                &&& bounded(rec.normal, FX_ONE as int)
            },
    {
        let oc = Vector3(
            ray.origin.0 - self.center.0,
            ray.origin.1 - self.center.1,
            ray.origin.2 - self.center.2,
        );
        proof {
            lemma_sdot_bound(v3(ray.direction), v3(ray.direction), 67108864, 67108864);
            lemma_sdot_bound(v3(oc), v3(ray.direction), 34493956096, 67108864);
            lemma_sdot_bound(v3(oc), v3(oc), 34493956096, 34493956096);
            lemma_abs_mul_bound(self.radius as int, self.radius as int, 134217728, 134217728);
        }
        let a = dot_wide(&ray.direction, &ray.direction);
        let half_b = dot_wide(&oc, &ray.direction);
        let oc2 = dot_wide(&oc, &oc);
        let c = oc2 - (self.radius as i128) * (self.radius as i128);
        if a == 0 {
            return None;
        }
        proof {
            lemma_abs_mul_bound(
                half_b as int,
                half_b as int,
                6944550625405304832,
                6944550625405304832,
            );
            lemma_abs_mul_bound(a as int, c as int, 13510798882111488, 3569517035856836165632);
        }
        let disc = half_b * half_b - a * c;
        if disc < 0 {
            return None;
        }
        let sq = isqrt_u128(disc as u128);
        let sqrtd: i128 = sq as i128;
        let num1 = -half_b - sqrtd;
        let t1w = tdiv_i128(num1 * 65536, a);
        assert(t1w == sp_root_lo(*self, ray));
        if (t_min as i128) <= t1w && t1w <= (t_max as i128) {
            let t = t1w as i64;
            let rec = self.record_at(ray, t);
            return Some(rec);
        }
        let num2 = -half_b + sqrtd;
        let t2w = tdiv_i128(num2 * 65536, a);
        assert(t2w == sp_root_hi(*self, ray));
        if (t_min as i128) <= t2w && t2w <= (t_max as i128) {
            let t = t2w as i64;
            let rec = self.record_at(ray, t);
            return Some(rec);
        }
        None
    }
}

/// The scene: an insertion-ordered list of spheres.
#[derive(Debug)]
pub struct HittableList {
    pub objects: Vec<Sphere>,
}

/// Every sphere in the scene is well formed.
pub open spec fn scene_wf(objs: Seq<Sphere>) -> bool {
    forall|j: int| 0 <= j < objs.len() ==> sphere_wf(#[trigger] objs[j])
}

/// What the scene query returns, as the loop computes it: walking the
/// spheres in order while narrowing the interval's upper bound to the best
/// parameter so far; the result is the winning index and parameter.
pub open spec fn list_hit_spec(objs: Seq<Sphere>, ray: Ray, t_min: int, t_max: int) -> Option<
    (int, int),
>
    decreases objs.len(),
{
    if objs.len() == 0 {
        None
    } else {
        let prev = list_hit_spec(objs.drop_last(), ray, t_min, t_max);
        let cur_max = match prev {
            Some(pr) => pr.1,
            None => t_max,
        };
        match chosen_root(objs.last(), ray, t_min, cur_max) {
            Some(t) => Some((objs.len() - 1, t)),
            None => prev,
        }
    }
}

impl HittableList {
    /// An empty scene.
    pub fn new() -> (r: HittableList)
        ensures
            r.objects@.len() == 0,
    {
        HittableList { objects: Vec::new() }
    }

    /// Appends a sphere; insertion order is kept.
    pub fn add(&mut self, object: Sphere)
        ensures
            final(self).objects@ == old(self).objects@.push(object),
    {
        self.objects.push(object);
    }

    /// Removes every sphere.
    pub fn clear(&mut self)
        ensures
            final(self).objects@.len() == 0,
    {
        self.objects.clear();
    }

    /// The closest hit across all spheres for the interval `[t_min,
    /// t_max]`: each sphere is queried with the upper bound narrowed to the
    /// best parameter found so far, so a later sphere supersedes only by
    /// being at least as close.
    pub fn hit(&self, ray: Ray, t_min: i64, t_max: i64) -> (res: Option<HitRecord>)
        requires
            scene_wf(self.objects@),
            hit_ray_wf(ray),
            -FX_OP_BOUND <= t_min <= FX_OP_BOUND,
            -FX_OP_BOUND <= t_max <= FX_OP_BOUND,
        ensures
            res.is_some() == list_hit_spec(self.objects@, ray, t_min as int, t_max as int).is_some(),
            res matches Some(rec) ==> {
                &&& list_hit_spec(self.objects@, ray, t_min as int, t_max as int) matches Some(pr)
                    && 0 <= pr.0 < self.objects@.len() && pr.1 == rec.t && hit_record_for(
                    self.objects@[pr.0],
                    ray,
                    rec.t as int,
                    rec,
                )
                &&& hit_point_for(ray, rec.t as int, rec.point)
                &&& exists|i: int|
                    0 <= i < self.objects@.len() && (#[trigger] self.objects@[i]).material
                        == rec.material
                &&& t_min <= rec.t <= t_max
                &&& bounded(rec.normal, FX_ONE as int)
            },
    {
        let ghost objs = self.objects@;
        let mut result: Option<HitRecord> = None;
        let mut closest_so_far: i64 = t_max;
        let mut i: usize = 0;
        while i < self.objects.len()
            invariant
                objs == self.objects@,
                scene_wf(objs),
                hit_ray_wf(ray),
                -FX_OP_BOUND <= t_min <= FX_OP_BOUND,
                -FX_OP_BOUND <= t_max <= FX_OP_BOUND,
                i <= objs.len(),
                -FX_OP_BOUND <= closest_so_far <= FX_OP_BOUND,
                result.is_none() ==> {
                    &&& list_hit_spec(objs.take(i as int), ray, t_min as int, t_max as int).is_none()
                    &&& closest_so_far == t_max
                },
                result matches Some(rec) ==> {
                    &&& list_hit_spec(objs.take(i as int), ray, t_min as int, t_max as int)
                        matches Some(pr) && 0 <= pr.0 < i && pr.1 == rec.t && hit_record_for(
                        objs[pr.0],
                        ray,
                        rec.t as int,
                        rec,
                    )
                    &&& closest_so_far == rec.t
                    &&& t_min <= rec.t <= t_max
                    &&& bounded(rec.normal, FX_ONE as int)
                },
            decreases objs.len() - i,
        {
            let obj = self.objects[i];
            assert(sphere_wf(obj));
            let this_hit = obj.hit(ray, t_min, closest_so_far);
            proof {
                assert(objs.take(i + 1 as int).drop_last() =~= objs.take(i as int));
                assert(objs.take(i + 1 as int).last() == objs[i as int]);
            }
            match this_hit {
                Some(rec) => {
                    closest_so_far = rec.t;
                    result = Some(rec);
                },
                None => {},
            }
            i = i + 1;
        }
        proof {
            assert(objs.take(objs.len() as int) =~= objs);
        }
        result
    }
}

/// THE SCENE RETURNS THE CLOSEST HIT: when the walk reports a winner, that
/// sphere's own root over the full interval is exactly the reported
/// parameter, and no sphere in the scene has a root in the full interval
/// that is closer; when it reports nothing, no sphere has any root in the
/// interval.
pub proof fn lemma_list_hit_closest(objs: Seq<Sphere>, ray: Ray, t_min: int, t_max: int)
    ensures
        list_hit_spec(objs, ray, t_min, t_max) matches Some(pr) ==> {
            &&& 0 <= pr.0 < objs.len()
            &&& chosen_root(objs[pr.0], ray, t_min, t_max) == Some(pr.1)
            &&& forall|j: int|
                0 <= j < objs.len() ==> match chosen_root(#[trigger] objs[j], ray, t_min, t_max) {
                    Some(tj) => pr.1 <= tj,
                    None => true,
                }
        },
        list_hit_spec(objs, ray, t_min, t_max).is_none() ==> forall|j: int|
            0 <= j < objs.len() ==> chosen_root(#[trigger] objs[j], ray, t_min, t_max).is_none(),
    decreases objs.len(),
{
    if objs.len() == 0 {
    } else {
        let head = objs.drop_last();
        let last = objs.last();
        lemma_list_hit_closest(head, ray, t_min, t_max);
        assert(forall|j: int| 0 <= j < head.len() ==> head[j] == objs[j]);
        let prev = list_hit_spec(head, ray, t_min, t_max);
        match prev {
            None => {
                // no earlier sphere has a root in the interval; the walk hands
                // the last sphere the full interval
            },
            Some(ip) => {
                // the winner so far hit at ip.1, which lies in the interval
                assert(t_min <= ip.1 <= t_max);
                lemma_chosen_root_narrow(last, ray, t_min, ip.1, t_max);
            },
        }
    }
}

/// Narrowing the interval's upper bound: a root found in the narrowed
/// interval is the root of the full interval and respects the bound; if the
/// narrowed interval has none, any full-interval root lies beyond the bound.
proof fn lemma_chosen_root_narrow(s: Sphere, r: Ray, t_min: int, m: int, t_max: int)
    requires
        m <= t_max,
    ensures
        chosen_root(s, r, t_min, m) matches Some(t) ==> t <= m && chosen_root(s, r, t_min, t_max)
            == Some(t),
        chosen_root(s, r, t_min, m).is_none() ==> match chosen_root(s, r, t_min, t_max) {
            Some(t2) => t2 > m,
            None => true,
        },
{
    if sp_a(r) == 0 || sp_disc(s, r) < 0 {
    } else {
        lemma_self_dot(v3(r.direction));
        assert(sp_a(r) > 0);
        lemma_sqrt_floor_bounds(sp_disc(s, r));
        let q = sqrt_floor(sp_disc(s, r));
        assert((-sp_half_b(s, r) - q) * (FX_ONE as int) <= (-sp_half_b(s, r) + q) * (
        FX_ONE as int)) by (nonlinear_arith)
            requires
                0 <= q,
        ;
        lemma_tdiv_ordered(
            (-sp_half_b(s, r) - q) * (FX_ONE as int),
            (-sp_half_b(s, r) + q) * (FX_ONE as int),
            sp_a(r),
        );
        assert(sp_root_lo(s, r) <= sp_root_hi(s, r));
    }
}

/// A MISSED SPHERE STAYS MISSED: a ray whose origin lies strictly outside a
/// sphere (`sp_c > 0`: squared center distance above the squared radius)
/// and whose direction does not approach the center (`sp_half_b >= 0`) has
/// no root at any positive parameter, so over any interval with a positive
/// lower bound the sphere reports no hit.
pub proof fn lemma_hit_miss_when_receding(s: Sphere, r: Ray, t_min: int, t_max: int)
    requires
        sp_c(s, r) > 0,
        sp_half_b(s, r) >= 0,
        t_min > 0,
    ensures
        chosen_root(s, r, t_min, t_max).is_none(),
{
    if sp_a(r) == 0 || sp_disc(s, r) < 0 {
    } else {
        let hb = sp_half_b(s, r);
        let a = sp_a(r);
        lemma_self_dot(v3(r.direction));
        assert(a > 0);
        assert(sp_disc(s, r) < hb * hb) by (nonlinear_arith)
            requires
                a > 0,
                sp_c(s, r) > 0,
                sp_disc(s, r) == hb * hb - a * sp_c(s, r),
        ;
        lemma_sqrt_floor_bounds(sp_disc(s, r));
        let q = sqrt_floor(sp_disc(s, r));
        assert(q <= hb) by (nonlinear_arith)
            requires
                0 <= q,
                0 <= hb,
                q * q <= sp_disc(s, r),
                sp_disc(s, r) < hb * hb,
        ;
        assert((-hb - q) * (FX_ONE as int) <= 0) by (nonlinear_arith)
            requires
                0 <= q,
                0 <= hb,
        ;
        assert((-hb + q) * (FX_ONE as int) <= 0) by (nonlinear_arith)
            requires
                q <= hb,
        ;
        lemma_tdiv_bound((-hb - q) * (FX_ONE as int), a, iabs((-hb - q) * (FX_ONE as int)));
        lemma_tdiv_bound((-hb + q) * (FX_ONE as int), a, iabs((-hb + q) * (FX_ONE as int)));
        lemma_tdiv_ordered((-hb - q) * (FX_ONE as int), 0, a);
        lemma_tdiv_ordered((-hb + q) * (FX_ONE as int), 0, a);
        assert(tdiv(0, a) == 0) by {
            vstd::arithmetic::div_mod::lemma_div_of0(a);
        }
        assert(sp_root_lo(s, r) <= 0);
        assert(sp_root_hi(s, r) <= 0);
    }
}

/// A RAY AIMED AT THE CENTER HITS FRONT-ON: if the direction is a positive
/// multiple `k` of the center-minus-origin offset and the origin lies
/// outside the sphere, the discriminant is positive, and — in the exact
/// model, with `q` its integer square root — the hit offset from the
/// center, scaled by the leading coefficient, is the positive multiple
/// `q * k` of the origin's offset from the center: the reported normal
/// direction is parallel to `hit_point - center`. Its exact dot with the
/// direction is negative, so the ray arrives on the front face.
#[verifier::rlimit(60)]
pub proof fn lemma_aimed_at_center_front_hit(s: Sphere, r: Ray, k: int)
    requires
        k > 0,
        s.radius != 0,
        r.direction.0 == k * (s.center.0 - r.origin.0),
        r.direction.1 == k * (s.center.1 - r.origin.1),
        r.direction.2 == k * (s.center.2 - r.origin.2),
        sp_c(s, r) > 0,
    ensures
        sp_disc(s, r) > 0,
        sqrt_floor(sp_disc(s, r)) >= 1,
        ({
            let q = sqrt_floor(sp_disc(s, r));
            let tn = -sp_half_b(s, r) - q;
            let w = (
                sp_a(r) * sp_oc(s, r).0 + tn * (r.direction.0 as int),
                sp_a(r) * sp_oc(s, r).1 + tn * (r.direction.1 as int),
                sp_a(r) * sp_oc(s, r).2 + tn * (r.direction.2 as int),
            );
            &&& w.0 == (q * k) * sp_oc(s, r).0
            &&& w.1 == (q * k) * sp_oc(s, r).1
            &&& w.2 == (q * k) * sp_oc(s, r).2
            &&& sdot(v3(r.direction), w) < 0
        }),
{
    let ox = sp_oc(s, r).0;
    let oy = sp_oc(s, r).1;
    let oz = sp_oc(s, r).2;
    let dx = r.direction.0 as int;
    let dy = r.direction.1 as int;
    let dz = r.direction.2 as int;
    let n2 = ox * ox + oy * oy + oz * oz;
    let rr = (s.radius as int) * (s.radius as int);
    assert(sdot(sp_oc(s, r), sp_oc(s, r)) == n2);
    assert(sp_a(r) == dx * dx + dy * dy + dz * dz);
    assert(sp_half_b(s, r) == ox * dx + oy * dy + oz * dz);
    assert(rr > 0) by (nonlinear_arith)
        requires
            s.radius != 0,
            rr == (s.radius as int) * (s.radius as int),
    ;
    assert(n2 > 0);
    assert(dx * dx == (k * k) * (ox * ox)) by (nonlinear_arith)
        requires
            dx == k * -ox,
    ;
    assert(dy * dy == (k * k) * (oy * oy)) by (nonlinear_arith)
        requires
            dy == k * -oy,
    ;
    assert(dz * dz == (k * k) * (oz * oz)) by (nonlinear_arith)
        requires
            dz == k * -oz,
    ;
    assert((k * k) * (ox * ox) + (k * k) * (oy * oy) + (k * k) * (oz * oz) == (k * k) * n2)
        by (nonlinear_arith)
        requires
            n2 == ox * ox + oy * oy + oz * oz,
    ;
    assert(ox * dx == -(k * (ox * ox))) by (nonlinear_arith)
        requires
            dx == k * -ox,
    ;
    assert(oy * dy == -(k * (oy * oy))) by (nonlinear_arith)
        requires
            dy == k * -oy,
    ;
    assert(oz * dz == -(k * (oz * oz))) by (nonlinear_arith)
        requires
            dz == k * -oz,
    ;
    assert(-(k * (ox * ox)) + -(k * (oy * oy)) + -(k * (oz * oz)) == -(k * n2))
        by (nonlinear_arith)
        requires
            n2 == ox * ox + oy * oy + oz * oz,
    ;
    let hb = sp_half_b(s, r);
    let aa = sp_a(r);
    assert(sp_disc(s, r) == ((k * k) * n2) * rr) by (nonlinear_arith)
        requires
            sp_disc(s, r) == hb * hb - aa * (n2 - rr),
            hb == -(k * n2),
            aa == (k * k) * n2,
    ;
    assert(sp_disc(s, r) > 0) by (nonlinear_arith)
        requires
            sp_disc(s, r) == ((k * k) * n2) * rr,
            k > 0,
            n2 > 0,
            rr > 0,
    ;
    lemma_sqrt_floor_bounds(sp_disc(s, r));
    let q = sqrt_floor(sp_disc(s, r));
    assert(q >= 1) by (nonlinear_arith)
        requires
            0 <= q,
            sp_disc(s, r) >= 1,
            sp_disc(s, r) < (q + 1) * (q + 1),
    ;
    let tn = -hb - q;
    assert(aa * ox + tn * dx == (q * k) * ox) by (nonlinear_arith)
        requires
            dx == k * -ox,
            aa == (k * k) * n2,
            hb == -(k * n2),
            tn == -hb - q,
    ;
    assert(aa * oy + tn * dy == (q * k) * oy) by (nonlinear_arith)
        requires
            dy == k * -oy,
            aa == (k * k) * n2,
            hb == -(k * n2),
            tn == -hb - q,
    ;
    assert(aa * oz + tn * dz == (q * k) * oz) by (nonlinear_arith)
        requires
            dz == k * -oz,
            aa == (k * k) * n2,
            hb == -(k * n2),
            tn == -hb - q,
    ;
    let w = ((q * k) * ox, (q * k) * oy, (q * k) * oz);
    assert(sdot(v3(r.direction), w) == dx * w.0 + dy * w.1 + dz * w.2);
    assert(dx * w.0 + dy * w.1 + dz * w.2 < 0) by (nonlinear_arith)
        requires
            dx == k * -ox,
            dy == k * -oy,
            dz == k * -oz,
            w == (((q * k) * ox, (q * k) * oy, (q * k) * oz)),
            n2 == ox * ox + oy * oy + oz * oz,
            q >= 1,
            k > 0,
            n2 > 0,
    ;
}

} // verus!
