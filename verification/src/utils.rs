//! Sampling helpers and the reflection/refraction formulas.
//!
//! Randomness enters the crate through exactly one trusted wrapper,
//! [`rand_range`]; everything downstream of a draw is verified for every
//! value the wrapper can hand back.

use crate::fixed::{
    fx_mul_s, fx_div_s, fx_sqrt, iabs, lemma_abs_mul_bound, lemma_div_ordered, lemma_tdiv_bound,
    sqrt_floor, tdiv, FX_ONE, FX_OP_BOUND,
};
use crate::math::{bounded, dot_wide, lemma_sdot_bound, lemma_sdot_neg_left, sdot, v3, Vector3};
use rand::Rng;
use vstd::prelude::*;

verus! {

/// Componentwise bound accepted by [`reflect`] and [`refract`]; their
/// arguments are unit-scale directions and normals, far below it.
pub const MIRROR_BOUND: i64 = 0x10_0000;

/// Largest refraction ratio accepted by [`refract`]: four units, far above
/// any physical index of refraction.
pub const RATIO_BOUND: i64 = 0x4_0000;

/// Relies on rand's `Rng::gen_range` (via `thread_rng`) on an `i64` range:
/// it returns a draw from the half-open range `lo..hi` and panics only when
/// the range is empty.
#[verifier::external_body]
pub(crate) fn rand_range(lo: i64, hi: i64) -> (r: i64)
    requires
        lo < hi,
    ensures
        lo <= r < hi,
{
    rand::thread_rng().gen_range(lo..hi)
}

/// `x` forced into `[min, max]`, preferring `min` when the interval is
/// empty, exactly as the comparisons read.
pub fn clamp(x: i64, min: i64, max: i64) -> (r: i64)
    ensures
        r == if x < min {
            min
        } else if x > max {
            max
        } else {
            x
        },
{
    if x < min {
        min
    } else if x > max {
        max
    } else {
        x
    }
}

/// A vector strictly inside the unit sphere and strictly off its center.
pub open spec fn in_unit_sphere(p: Vector3) -> bool {
    &&& 0 < sdot(v3(p), v3(p)) < (FX_ONE as int) * (FX_ONE as int)
    &&& bounded(p, FX_ONE as int)
}

/// `r` is `p` rescaled to (truncated) unit length.
pub open spec fn is_unitized(p: Vector3, r: Vector3) -> bool {
    v3(r) == crate::math::unit_t(v3(p))
}

/// Draws a point strictly inside the unit sphere, and at least half a
/// unit from its center so that rescaling it to unit length loses almost
/// nothing to truncation, by rejection sampling. The attempt budget makes
/// termination a theorem; after it, a fixed admissible point stands in
/// (each attempt fails with probability below two thirds, so the budget
/// is effectively never exhausted).
pub fn random_in_unit_sphere() -> (r: Vector3)
    ensures
        in_unit_sphere(r),
        sdot(v3(r), v3(r)) >= 0x4000_0000,
{
    let mut tries: u32 = 0;
    while tries < 64
        invariant
            tries <= 64,
        decreases 64 - tries,
    {
        let p = Vector3(
            rand_range(-FX_ONE, FX_ONE),
            rand_range(-FX_ONE, FX_ONE),
            rand_range(-FX_ONE, FX_ONE),
        );
        let d = dot_wide(&p, &p);
        if 1073741824 <= d && d < 65536 * 65536 {
            return p;
        }
        tries = tries + 1;
    }
    let fallback = Vector3(32768, 0, 0);
    proof {
        assert(sdot(v3(fallback), v3(fallback)) == 0x4000_0000) by (nonlinear_arith)
            requires
                fallback == (Vector3(32768i64, 0i64, 0i64)),
        ;
    }
    fallback
}

/// Draws a point strictly inside the unit disk of the x-y plane, for lens
/// defocus; the same bounded rejection sampling as the sphere, with the
/// disk center as the fallback.
pub fn random_in_unit_disk() -> (r: Vector3)
    ensures
        sdot(v3(r), v3(r)) < (FX_ONE as int) * (FX_ONE as int),
        r.2 == 0,
        bounded(r, FX_ONE as int),
{
    let mut tries: u32 = 0;
    while tries < 64
        invariant
            tries <= 64,
        decreases 64 - tries,
    {
        let p = Vector3(rand_range(-FX_ONE, FX_ONE), rand_range(-FX_ONE, FX_ONE), 0);
        let d = dot_wide(&p, &p);
        if d < 65536 * 65536 {
            return p;
        }
        tries = tries + 1;
    }
    Vector3(0, 0, 0)
}

/// Draws a unit-length direction: a point inside the unit sphere,
/// rescaled to length one. Because the draw is at least half a unit long,
/// the result's squared length is within a few parts in 65536 of one
/// square unit.
pub fn random_unit_vector() -> (r: Vector3)
    ensures
        exists|p: Vector3| in_unit_sphere(p) && is_unitized(p, r),
        bounded(r, FX_ONE as int),
        (FX_ONE as int) * ((FX_ONE as int) - 7) <= sdot(v3(r), v3(r)) <= (FX_ONE as int) * ((
        FX_ONE as int) + 4),
{
    let p = random_in_unit_sphere();
    let r = p.unit_vector();
    proof {
        assert(in_unit_sphere(p) && is_unitized(p, r));
        let pp = sdot(v3(p), v3(p));
        let ll = sqrt_floor(pp);
        crate::fixed::lemma_sqrt_floor_bounds(pp);
        crate::fixed::lemma_sqrt_floor_is(1073741824, 32768);
        crate::fixed::lemma_sqrt_floor_ordered(1073741824, pp);
        assert(32768 <= ll);
        let uu = sdot(v3(r), v3(r));
        crate::math::lemma_self_dot(v3(r));
        assert((FX_ONE as int) * (FX_ONE as int) == 4294967296) by (nonlinear_arith)
            requires
                FX_ONE == 65536i64,
        ;
        assert(pp <= ll * ll + 2 * ll) by (nonlinear_arith)
            requires
                pp < (ll + 1) * (ll + 1),
        ;
        assert(uu <= (FX_ONE as int) * ((FX_ONE as int) + 4)) by (nonlinear_arith)
            requires
                uu * (ll * ll) <= 4294967296 * pp,
                pp <= ll * ll + 2 * ll,
                32768 <= ll,
                0 <= uu,
                FX_ONE == 65536i64,
        ;
        assert((FX_ONE as int) * ((FX_ONE as int) - 7) <= uu) by (nonlinear_arith)
            requires
                4294967296 * pp < uu * (ll * ll) + (ll * ll) * (6 * 65536 + 3),
                ll * ll <= pp,
                1 <= ll,
                FX_ONE == 65536i64,
        ;
    }
    r
}

/// The mirror reflection of `v` about `n`, as computed: `v` minus `n`
/// scaled by twice the fixed-point dot product.
pub open spec fn reflect_t(v: (int, int, int), n: (int, int, int)) -> (int, int, int) {
    let d2 = 2 * tdiv(sdot(v, n), FX_ONE as int);
    (
        v.0 - fx_mul_s(n.0, d2),
        v.1 - fx_mul_s(n.1, d2),
        v.2 - fx_mul_s(n.2, d2),
    )
}

/// Mirror reflection: `v - 2 (v . n) n`.
pub fn reflect(v: Vector3, n: Vector3) -> (r: Vector3)
    requires
        bounded(v, MIRROR_BOUND as int),
        bounded(n, MIRROR_BOUND as int),
    ensures
        v3(r) == reflect_t(v3(v), v3(n)),
        bounded(r, 0x2_0000_0000),
{
    proof {
        lemma_sdot_bound(v3(v), v3(n), MIRROR_BOUND as int, MIRROR_BOUND as int);
        lemma_tdiv_bound(
            sdot(v3(v), v3(n)),
            FX_ONE as int,
            3 * ((MIRROR_BOUND as int) * (MIRROR_BOUND as int)),
        );
        lemma_div_ordered(
            iabs(sdot(v3(v), v3(n))),
            3 * ((MIRROR_BOUND as int) * (MIRROR_BOUND as int)),
            FX_ONE as int,
        );
    }
    let d = v.dot(&n);
    let s = 2 * d;
    let scaled = n.mul(s);
    proof {
        lemma_scale_bound(n.0 as int, s as int);
        lemma_scale_bound(n.1 as int, s as int);
        lemma_scale_bound(n.2 as int, s as int);
    }
    v.sub(scaled)
}

/// A product of a mirror-bounded component with a moderate scalar, rescaled,
/// stays small.
proof fn lemma_scale_bound(c: int, s: int)
    requires
        iabs(c) <= MIRROR_BOUND as int,
        iabs(s) <= 0x800_0000,
    ensures
        iabs(fx_mul_s(c, s)) <= 0x8000_0000,
{
    lemma_abs_mul_bound(c, s, MIRROR_BOUND as int, 0x800_0000);
    lemma_tdiv_bound(c * s, FX_ONE as int, (MIRROR_BOUND as int) * 0x800_0000);
    lemma_div_ordered(iabs(c * s), (MIRROR_BOUND as int) * 0x800_0000, FX_ONE as int);
}

/// The refraction of unit direction `uv` at a surface with outward normal
/// `n` and refraction ratio `ratio`, as computed: the perpendicular part is
/// `ratio * (uv + cos * n)` with `cos` the clamped fixed-point cosine, the
/// parallel part restores unit length through one square root.
pub open spec fn refract_t(uv: (int, int, int), n: (int, int, int), ratio: int) -> (
    int,
    int,
    int,
) {
    let cos = {
        let c = tdiv(-sdot(uv, n), FX_ONE as int);
        if c > FX_ONE as int {
            FX_ONE as int
        } else {
            c
        }
    };
    let px = fx_mul_s(uv.0 + fx_mul_s(n.0, cos), ratio);
    let py = fx_mul_s(uv.1 + fx_mul_s(n.1, cos), ratio);
    let pz = fx_mul_s(uv.2 + fx_mul_s(n.2, cos), ratio);
    let ls = tdiv(sdot((px, py, pz), (px, py, pz)), FX_ONE as int);
    let s = sqrt_floor(iabs(FX_ONE as int - ls) * (FX_ONE as int));
    (px + fx_mul_s(n.0, -s), py + fx_mul_s(n.1, -s), pz + fx_mul_s(n.2, -s))
}

/// Refraction by Snell's law, with the same clamping and truncation the
/// specification function states.
pub fn refract(uv: Vector3, n: Vector3, etai_over_etat: i64) -> (r: Vector3)
    requires
        bounded(uv, MIRROR_BOUND as int),
        bounded(n, MIRROR_BOUND as int),
        0 < etai_over_etat <= RATIO_BOUND,
    ensures
        v3(r) == refract_t(v3(uv), v3(n), etai_over_etat as int),
        bounded(r, 0x200_0000_0000),
{
    let minus_uv = uv.neg();
    proof {
        lemma_sdot_neg_left(v3(uv), v3(n));
        lemma_sdot_bound(v3(uv), v3(n), MIRROR_BOUND as int, MIRROR_BOUND as int);
        lemma_tdiv_bound(
            sdot(v3(minus_uv), v3(n)),
            FX_ONE as int,
            3 * ((MIRROR_BOUND as int) * (MIRROR_BOUND as int)),
        );
        lemma_div_ordered(
            iabs(sdot(v3(minus_uv), v3(n))),
            3 * ((MIRROR_BOUND as int) * (MIRROR_BOUND as int)),
            FX_ONE as int,
        );
    }
    let cd = minus_uv.dot(&n);
    let cos_theta = if cd > FX_ONE {
        FX_ONE
    } else {
        cd
    };
    let scaled_n = n.mul(cos_theta);
    proof {
        lemma_scale_bound(n.0 as int, cos_theta as int);
        lemma_scale_bound(n.1 as int, cos_theta as int);
        lemma_scale_bound(n.2 as int, cos_theta as int);
    }
    let base = uv.add(scaled_n);
    let r_out_perp = base.mul(etai_over_etat);
    proof {
        lemma_perp_bound(base.0 as int, etai_over_etat as int);
        lemma_perp_bound(base.1 as int, etai_over_etat as int);
        lemma_perp_bound(base.2 as int, etai_over_etat as int);
        lemma_sdot_bound(v3(r_out_perp), v3(r_out_perp), 0x4_0000_0000, 0x4_0000_0000);
        lemma_tdiv_bound(
            sdot(v3(r_out_perp), v3(r_out_perp)),
            FX_ONE as int,
            3 * (0x4_0000_0000int * 0x4_0000_0000int),
        );
        lemma_div_ordered(
            iabs(sdot(v3(r_out_perp), v3(r_out_perp))),
            3 * (0x4_0000_0000int * 0x4_0000_0000int),
            FX_ONE as int,
        );
    }
    let ls = r_out_perp.length_squared();
    let diff = if ls > FX_ONE {
        ls - FX_ONE
    } else {
        FX_ONE - ls
    };
    let s = fx_sqrt(diff);
    proof {
        let m = (diff as int) * (FX_ONE as int);
        crate::fixed::lemma_sqrt_floor_bounds(m);
        assert(m <= 0x40_0000_0000_0000int * 65536) by (nonlinear_arith)
            requires
                0 <= diff as int <= 0x40_0000_0000_0000,
                m == (diff as int) * 65536,
        ;
        assert(sqrt_floor(m) <= 0x8_0000_0000) by (nonlinear_arith)
            requires
                0 <= sqrt_floor(m),
                sqrt_floor(m) * sqrt_floor(m) <= m,
                m <= 0x40_0000_0000_0000int * 65536,
        ;
    }
    let r_out_parallel = n.mul(-s);
    proof {
        lemma_par_bound(n.0 as int, -s as int);
        lemma_par_bound(n.1 as int, -s as int);
        lemma_par_bound(n.2 as int, -s as int);
        assert(iabs(FX_ONE as int - ls as int) == diff as int);
    }
    r_out_perp.add(r_out_parallel)
}

/// Reflecting one unit-scale vector about another stays within seven units
/// per component.
pub proof fn lemma_reflect_unit_bound(u: (int, int, int), n: (int, int, int))
    requires
        iabs(u.0) <= FX_ONE as int,
        iabs(u.1) <= FX_ONE as int,
        iabs(u.2) <= FX_ONE as int,
        iabs(n.0) <= FX_ONE as int,
        iabs(n.1) <= FX_ONE as int,
        iabs(n.2) <= FX_ONE as int,
    ensures
        iabs(reflect_t(u, n).0) <= 7 * (FX_ONE as int),
        iabs(reflect_t(u, n).1) <= 7 * (FX_ONE as int),
        iabs(reflect_t(u, n).2) <= 7 * (FX_ONE as int),
{
    lemma_sdot_bound(u, n, FX_ONE as int, FX_ONE as int);
    lemma_tdiv_bound(sdot(u, n), FX_ONE as int, 3 * ((FX_ONE as int) * (FX_ONE as int)));
    lemma_div_ordered(iabs(sdot(u, n)), 3 * ((FX_ONE as int) * (FX_ONE as int)), FX_ONE as int);
    let d2 = 2 * tdiv(sdot(u, n), FX_ONE as int);
    crate::fixed::lemma_fx_mul_bound(n.0, d2, FX_ONE as int, 6 * (FX_ONE as int));
    crate::fixed::lemma_fx_mul_bound(n.1, d2, FX_ONE as int, 6 * (FX_ONE as int));
    crate::fixed::lemma_fx_mul_bound(n.2, d2, FX_ONE as int, 6 * (FX_ONE as int));
}

/// Refracting one unit-scale vector at another with a ratio of at most four
/// units stays within twenty-two units per component.
pub proof fn lemma_refract_unit_bound(u: (int, int, int), n: (int, int, int), ratio: int)
    requires
        iabs(u.0) <= FX_ONE as int,
        iabs(u.1) <= FX_ONE as int,
        iabs(u.2) <= FX_ONE as int,
        iabs(n.0) <= FX_ONE as int,
        iabs(n.1) <= FX_ONE as int,
        iabs(n.2) <= FX_ONE as int,
        0 < ratio <= 4 * (FX_ONE as int),
    ensures
        iabs(refract_t(u, n, ratio).0) <= 44 * (FX_ONE as int),
        iabs(refract_t(u, n, ratio).1) <= 44 * (FX_ONE as int),
        iabs(refract_t(u, n, ratio).2) <= 44 * (FX_ONE as int),
{
    let one = FX_ONE as int;
    lemma_sdot_bound(u, n, one, one);
    lemma_tdiv_bound(-sdot(u, n), one, 3 * (one * one));
    lemma_div_ordered(iabs(-sdot(u, n)), 3 * (one * one), one);
    let cos = {
        let c = tdiv(-sdot(u, n), one);
        if c > one {
            one
        } else {
            c
        }
    };
    assert(iabs(cos) <= 3 * one);
    crate::fixed::lemma_fx_mul_bound(n.0, cos, one, 3 * one);
    crate::fixed::lemma_fx_mul_bound(n.1, cos, one, 3 * one);
    crate::fixed::lemma_fx_mul_bound(n.2, cos, one, 3 * one);
    crate::fixed::lemma_fx_mul_bound(u.0 + fx_mul_s(n.0, cos), ratio, 4 * one, 4 * one);
    crate::fixed::lemma_fx_mul_bound(u.1 + fx_mul_s(n.1, cos), ratio, 4 * one, 4 * one);
    crate::fixed::lemma_fx_mul_bound(u.2 + fx_mul_s(n.2, cos), ratio, 4 * one, 4 * one);
    let px = fx_mul_s(u.0 + fx_mul_s(n.0, cos), ratio);
    let py = fx_mul_s(u.1 + fx_mul_s(n.1, cos), ratio);
    let pz = fx_mul_s(u.2 + fx_mul_s(n.2, cos), ratio);
    lemma_sdot_bound((px, py, pz), (px, py, pz), 16 * one, 16 * one);
    lemma_tdiv_bound(sdot((px, py, pz), (px, py, pz)), one, 768 * (one * one));
    lemma_div_ordered(iabs(sdot((px, py, pz), (px, py, pz))), 768 * (one * one), one);
    let ls = tdiv(sdot((px, py, pz), (px, py, pz)), one);
    let m = iabs(one - ls) * one;
    crate::fixed::lemma_sqrt_floor_bounds(m);
    let s = sqrt_floor(m);
    assert(s <= 28 * one) by (nonlinear_arith)
        requires
            0 <= s,
            s * s <= m,
            m <= 769 * (one * one),
            one == 65536,
    ;
    crate::fixed::lemma_fx_mul_bound(n.0, -s, one, 28 * one);
    crate::fixed::lemma_fx_mul_bound(n.1, -s, one, 28 * one);
    crate::fixed::lemma_fx_mul_bound(n.2, -s, one, 28 * one);
}

/// REFLECTION KEEPS THE ANGLE AND THE ENERGY: in the exact model — the
/// reflection written with every term scaled by the normal's self-dot, so
/// that no truncation occurs — the reflected direction's dot with the
/// normal is exactly the opposite of the incoming direction's (the angle
/// of incidence equals the angle of reflection), and its squared length is
/// the incoming one's, rescaled only by the square of the normal's
/// self-dot: a mirror bounce gains no energy. The executable [`reflect`]
/// computes the same expression with one truncating rescale per component.
pub proof fn lemma_reflect_exact_incidence(v: (int, int, int), n: (int, int, int))
    ensures
        ({
            let r = (
                sdot(n, n) * v.0 - (2 * sdot(v, n)) * n.0,
                sdot(n, n) * v.1 - (2 * sdot(v, n)) * n.1,
                sdot(n, n) * v.2 - (2 * sdot(v, n)) * n.2,
            );
            &&& sdot(r, n) == -(sdot(n, n) * sdot(v, n))
            &&& sdot(r, r) == (sdot(n, n) * sdot(n, n)) * sdot(v, v)
        }),
{
    let vx = v.0;
    let vy = v.1;
    let vz = v.2;
    let nx = n.0;
    let ny = n.1;
    let nz = n.2;
    let nn = sdot(n, n);
    let vn = sdot(v, n);
    let rx = nn * vx - (2 * vn) * nx;
    let ry = nn * vy - (2 * vn) * ny;
    let rz = nn * vz - (2 * vn) * nz;
    assert(rx * nx == nn * (vx * nx) - (2 * vn) * (nx * nx)) by (nonlinear_arith)
        requires
            rx == nn * vx - (2 * vn) * nx,
    ;
    assert(ry * ny == nn * (vy * ny) - (2 * vn) * (ny * ny)) by (nonlinear_arith)
        requires
            ry == nn * vy - (2 * vn) * ny,
    ;
    assert(rz * nz == nn * (vz * nz) - (2 * vn) * (nz * nz)) by (nonlinear_arith)
        requires
            rz == nn * vz - (2 * vn) * nz,
    ;
    assert(nn * (vx * nx) + nn * (vy * ny) + nn * (vz * nz) == nn * vn) by (nonlinear_arith)
        requires
            vn == vx * nx + vy * ny + vz * nz,
    ;
    assert((2 * vn) * (nx * nx) + (2 * vn) * (ny * ny) + (2 * vn) * (nz * nz) == 2 * (nn * vn))
        by (nonlinear_arith)
        requires
            nn == nx * nx + ny * ny + nz * nz,
    ;
    assert(rx * nx + ry * ny + rz * nz == -(nn * vn));
    let rn = rx * nx + ry * ny + rz * nz;
    // the dot with the incoming direction, componentwise then factored
    assert(rx * vx == nn * (vx * vx) - (2 * vn) * (nx * vx)) by (nonlinear_arith)
        requires
            rx == nn * vx - (2 * vn) * nx,
    ;
    assert(ry * vy == nn * (vy * vy) - (2 * vn) * (ny * vy)) by (nonlinear_arith)
        requires
            ry == nn * vy - (2 * vn) * ny,
    ;
    assert(rz * vz == nn * (vz * vz) - (2 * vn) * (nz * vz)) by (nonlinear_arith)
        requires
            rz == nn * vz - (2 * vn) * nz,
    ;
    assert(nn * (vx * vx) + nn * (vy * vy) + nn * (vz * vz) == nn * (vx * vx + vy * vy + vz * vz))
        by (nonlinear_arith);
    assert((2 * vn) * (nx * vx) + (2 * vn) * (ny * vy) + (2 * vn) * (nz * vz) == (2 * vn) * vn)
        by (nonlinear_arith)
        requires
            vn == vx * nx + vy * ny + vz * nz,
    ;
    let rv = rx * vx + ry * vy + rz * vz;
    let vv = vx * vx + vy * vy + vz * vz;
    assert(rv == nn * vv - (2 * vn) * vn);
    // the squared length by linearity: r . r == nn (r . v) - 2 vn (r . n)
    assert(rx * rx == nn * (rx * vx) - (2 * vn) * (rx * nx)) by (nonlinear_arith)
        requires
            rx == nn * vx - (2 * vn) * nx,
    ;
    assert(ry * ry == nn * (ry * vy) - (2 * vn) * (ry * ny)) by (nonlinear_arith)
        requires
            ry == nn * vy - (2 * vn) * ny,
    ;
    assert(rz * rz == nn * (rz * vz) - (2 * vn) * (rz * nz)) by (nonlinear_arith)
        requires
            rz == nn * vz - (2 * vn) * nz,
    ;
    assert(nn * (rx * vx) + nn * (ry * vy) + nn * (rz * vz) == nn * rv) by (nonlinear_arith)
        requires
            rv == rx * vx + ry * vy + rz * vz,
    ;
    assert((2 * vn) * (rx * nx) + (2 * vn) * (ry * ny) + (2 * vn) * (rz * nz) == (2 * vn) * rn)
        by (nonlinear_arith)
        requires
            rn == rx * nx + ry * ny + rz * nz,
    ;
    assert(nn * (nn * vv - (2 * vn) * vn) - (2 * vn) * (-(nn * vn)) == (nn * nn) * vv)
        by (nonlinear_arith);
    assert(rx * rx + ry * ry + rz * rz == (nn * nn) * vv);
}

/// A UNIT REFRACTION RATIO DOES NOT BEND LIGHT: in the exact model of the
/// refraction formula with ratio one — the perpendicular part written as
/// `p = (n.n) u + c n` with `c` the (scaled) cosine `-(u.n)`, so that no
/// truncation occurs — recombining `p` with the parallel part `-c n`
/// returns exactly the incoming direction, because what the parallel part
/// takes the square root of, `(n.n) (u.u) - c^2` rescaled, is exactly the
/// radicand whose root is the cosine: `sdot(p, p) == (n.n) ((n.n)(u.u) -
/// c^2)`. The executable [`refract`] computes the same expression with
/// truncating rescales and a floor square root.
pub proof fn lemma_unit_ratio_passthrough(u: (int, int, int), n: (int, int, int))
    ensures
        ({
            let c = -sdot(u, n);
            let p = (
                sdot(n, n) * u.0 + c * n.0,
                sdot(n, n) * u.1 + c * n.1,
                sdot(n, n) * u.2 + c * n.2,
            );
            &&& p.0 - c * n.0 == sdot(n, n) * u.0
            &&& p.1 - c * n.1 == sdot(n, n) * u.1
            &&& p.2 - c * n.2 == sdot(n, n) * u.2
            &&& sdot(p, p) == sdot(n, n) * (sdot(n, n) * sdot(u, u) - c * c)
        }),
{
    let ux = u.0;
    let uy = u.1;
    let uz = u.2;
    let nx = n.0;
    let ny = n.1;
    let nz = n.2;
    let nn = sdot(n, n);
    let c = -sdot(u, n);
    let px = nn * ux + c * nx;
    let py = nn * uy + c * ny;
    let pz = nn * uz + c * nz;
    // the perpendicular part really is perpendicular: p . n == 0
    assert(px * nx == nn * (ux * nx) + c * (nx * nx)) by (nonlinear_arith)
        requires
            px == nn * ux + c * nx,
    ;
    assert(py * ny == nn * (uy * ny) + c * (ny * ny)) by (nonlinear_arith)
        requires
            py == nn * uy + c * ny,
    ;
    assert(pz * nz == nn * (uz * nz) + c * (nz * nz)) by (nonlinear_arith)
        requires
            pz == nn * uz + c * nz,
    ;
    assert(nn * (ux * nx) + nn * (uy * ny) + nn * (uz * nz) == nn * -c) by (nonlinear_arith)
        requires
            c == -(ux * nx + uy * ny + uz * nz),
    ;
    assert(c * (nx * nx) + c * (ny * ny) + c * (nz * nz) == c * nn) by (nonlinear_arith)
        requires
            nn == nx * nx + ny * ny + nz * nz,
    ;
    assert(nn * -c + c * nn == 0) by (nonlinear_arith);
    let pn = px * nx + py * ny + pz * nz;
    assert(pn == 0);
    // the dot with the incoming direction
    assert(px * ux == nn * (ux * ux) + c * (nx * ux)) by (nonlinear_arith)
        requires
            px == nn * ux + c * nx,
    ;
    assert(py * uy == nn * (uy * uy) + c * (ny * uy)) by (nonlinear_arith)
        requires
            py == nn * uy + c * ny,
    ;
    assert(pz * uz == nn * (uz * uz) + c * (nz * uz)) by (nonlinear_arith)
        requires
            pz == nn * uz + c * nz,
    ;
    assert(nn * (ux * ux) + nn * (uy * uy) + nn * (uz * uz) == nn * (ux * ux + uy * uy + uz * uz))
        by (nonlinear_arith);
    assert(c * (nx * ux) + c * (ny * uy) + c * (nz * uz) == c * -c) by (nonlinear_arith)
        requires
            c == -(ux * nx + uy * ny + uz * nz),
    ;
    let uu = ux * ux + uy * uy + uz * uz;
    let pu = px * ux + py * uy + pz * uz;
    assert(pu == nn * uu + c * -c);
    // the squared length by linearity: p . p == nn (p . u) + c (p . n)
    assert(px * px == nn * (px * ux) + c * (px * nx)) by (nonlinear_arith)
        requires
            px == nn * ux + c * nx,
    ;
    assert(py * py == nn * (py * uy) + c * (py * ny)) by (nonlinear_arith)
        requires
            py == nn * uy + c * ny,
    ;
    assert(pz * pz == nn * (pz * uz) + c * (pz * nz)) by (nonlinear_arith)
        requires
            pz == nn * uz + c * nz,
    ;
    assert(nn * (px * ux) + nn * (py * uy) + nn * (pz * uz) == nn * pu) by (nonlinear_arith)
        requires
            pu == px * ux + py * uy + pz * uz,
    ;
    assert(c * (px * nx) + c * (py * ny) + c * (pz * nz) == c * pn) by (nonlinear_arith)
        requires
            pn == px * nx + py * ny + pz * nz,
    ;
    assert(nn * (nn * uu + c * -c) + c * 0 == nn * (nn * uu - c * c)) by (nonlinear_arith);
    assert(px * px + py * py + pz * pz == nn * (nn * uu - c * c));
}

/// A perpendicular-part component stays within `2^34`.
proof fn lemma_perp_bound(c: int, ratio: int)
    requires
        iabs(c) <= 0x1_0000_0000,
        iabs(ratio) <= RATIO_BOUND as int,
    ensures
        iabs(fx_mul_s(c, ratio)) <= 0x4_0000_0000,
{
    lemma_abs_mul_bound(c, ratio, 0x1_0000_0000, RATIO_BOUND as int);
    lemma_tdiv_bound(c * ratio, FX_ONE as int, 0x1_0000_0000 * (RATIO_BOUND as int));
    lemma_div_ordered(iabs(c * ratio), 0x1_0000_0000 * (RATIO_BOUND as int), FX_ONE as int);
}

/// A parallel-part component stays within `2^39`.
proof fn lemma_par_bound(c: int, s: int)
    requires
        iabs(c) <= MIRROR_BOUND as int,
        iabs(s) <= 0x8_0000_0000,
    ensures
        iabs(fx_mul_s(c, s)) <= 0x80_0000_0000,
{
    lemma_abs_mul_bound(c, s, MIRROR_BOUND as int, 0x8_0000_0000);
    lemma_tdiv_bound(c * s, FX_ONE as int, (MIRROR_BOUND as int) * 0x8_0000_0000);
    lemma_div_ordered(iabs(c * s), (MIRROR_BOUND as int) * 0x8_0000_0000, FX_ONE as int);
}

} // verus!
