//! Vectors and rays over the fixed-point scalar.
//!
//! The mathematical model of a vector is its triple of scaled integer
//! components, extracted by [`v3`]; every method's contract states the
//! resulting triple exactly, truncation included.

use crate::fixed::{
    fx_div, fx_div_s, fx_mul, fx_mul_s, fx_sqrt, iabs, lemma_abs_mul, lemma_abs_mul_bound,
    lemma_div_ordered, lemma_sqrt_floor_bounds, lemma_sqrt_floor_is, lemma_sqrt_floor_ordered,
    lemma_tdiv_bound, sqrt_floor, tdiv, tdiv_i128, FX_ONE, FX_OP_BOUND,
};
use vstd::prelude::*;

verus! {

/// Componentwise bound accepted by vector addition and subtraction.
pub const VEC_SUM_BOUND: i64 = 0x2000_0000_0000_0000;

/// Componentwise bound accepted by the dot product, length and
/// normalization; wide intermediates then fit comfortably in `i128`.
pub const VEC_GEO_BOUND: i64 = 0x40_0000_0000;

/// Components strictly below this count (about 1.2e-4 units) make a vector
/// "near zero" for the degenerate-scatter fallback.
pub const NEAR_ZERO_EPS: i64 = 8;

/// A 3-component vector of fixed-point scalars.
#[derive(Debug, Clone, Copy, PartialEq, Eq, Structural)]
pub struct Vector3(pub i64, pub i64, pub i64);

/// A point in space, as a vector from the world origin.
pub type Point3 = Vector3;

/// A color, as a vector of red, green and blue channels with 1.0 (that is,
/// `FX_ONE`) meaning full intensity.
pub type Color = Vector3;

/// The mathematical model of a vector: its components as integers.
pub open spec fn v3(v: Vector3) -> (int, int, int) {
    (v.0 as int, v.1 as int, v.2 as int)
}

/// The exact (scale-squared) dot product of two integer triples.
pub open spec fn sdot(a: (int, int, int), b: (int, int, int)) -> int {
    a.0 * b.0 + a.1 * b.1 + a.2 * b.2
}

/// Every component is at most `b` in magnitude.
pub open spec fn bounded(v: Vector3, b: int) -> bool {
    iabs(v.0 as int) <= b && iabs(v.1 as int) <= b && iabs(v.2 as int) <= b
}

/// A triple rescaled to (truncated) unit length by its own fixed-point
/// length.
pub open spec fn unit_t(v: (int, int, int)) -> (int, int, int) {
    let len = sqrt_floor(sdot(v, v));
    (fx_div_s(v.0, len), fx_div_s(v.1, len), fx_div_s(v.2, len))
}

/// Componentwise bounds give a bound on the scaled dot product.
pub proof fn lemma_sdot_bound(a: (int, int, int), b: (int, int, int), ba: int, bb: int)
    requires
        iabs(a.0) <= ba,
        iabs(a.1) <= ba,
        iabs(a.2) <= ba,
        iabs(b.0) <= bb,
        iabs(b.1) <= bb,
        iabs(b.2) <= bb,
    ensures
        iabs(sdot(a, b)) <= 3 * (ba * bb),
{
    lemma_abs_mul_bound(a.0, b.0, ba, bb);
    lemma_abs_mul_bound(a.1, b.1, ba, bb);
    lemma_abs_mul_bound(a.2, b.2, ba, bb);
}

/// Negating one argument negates the scaled dot product.
pub proof fn lemma_sdot_neg_left(a: (int, int, int), b: (int, int, int))
    by (nonlinear_arith)
    ensures
        sdot((-a.0, -a.1, -a.2), b) == -sdot(a, b),
{
}

/// A self-dot is a sum of squares, hence nonnegative and at least each
/// square alone.
pub proof fn lemma_self_dot(a: (int, int, int))
    by (nonlinear_arith)
    ensures
        sdot(a, a) >= 0,
        sdot(a, a) >= a.0 * a.0,
        sdot(a, a) >= a.1 * a.1,
        sdot(a, a) >= a.2 * a.2,
{
}

/// Each component of a vector is bounded by the floor square root of its
/// self-dot, the vector's fixed-point length.
pub proof fn lemma_component_le_length(a: (int, int, int))
    ensures
        iabs(a.0) <= sqrt_floor(sdot(a, a)),
        iabs(a.1) <= sqrt_floor(sdot(a, a)),
        iabs(a.2) <= sqrt_floor(sdot(a, a)),
{
    lemma_self_dot(a);
    let n = sdot(a, a);
    lemma_sqrt_floor_bounds(n);
    assert forall|c: int| c * c <= n implies iabs(c) <= sqrt_floor(n) by {
        assert(iabs(c) * iabs(c) == c * c && c * c < (iabs(c) + 1) * (iabs(c) + 1))
            by (nonlinear_arith);
        lemma_sqrt_floor_is(c * c, iabs(c));
        lemma_sqrt_floor_ordered(c * c, n);
    }
    assert(a.0 * a.0 <= n);
    assert(a.1 * a.1 <= n);
    assert(a.2 * a.2 <= n);
}

/// The exact dot product of two bounded vectors, computed wide.
pub fn dot_wide(a: &Vector3, b: &Vector3) -> (r: i128)
    requires
        bounded(*a, VEC_GEO_BOUND as int),
        bounded(*b, VEC_GEO_BOUND as int),
    ensures
        r == sdot(v3(*a), v3(*b)),
        iabs(r as int) <= 3 * (VEC_GEO_BOUND as int) * (VEC_GEO_BOUND as int),
{
    proof {
        lemma_abs_mul_bound(a.0 as int, b.0 as int, VEC_GEO_BOUND as int, VEC_GEO_BOUND as int);
        lemma_abs_mul_bound(a.1 as int, b.1 as int, VEC_GEO_BOUND as int, VEC_GEO_BOUND as int);
        lemma_abs_mul_bound(a.2 as int, b.2 as int, VEC_GEO_BOUND as int, VEC_GEO_BOUND as int);
    }
    (a.0 as i128) * (b.0 as i128) + (a.1 as i128) * (b.1 as i128) + (a.2 as i128) * (b.2 as i128)
}

impl Vector3 {
    /// Builds the vector with the given components.
    pub fn new(x: i64, y: i64, z: i64) -> (r: Vector3)
        ensures
            r == (Vector3(x, y, z)),
    {
        Vector3(x, y, z)
    }

    /// The first component.
    pub fn x(&self) -> (r: i64)
        ensures
            r == self.0,
    {
        self.0
    }

    /// The second component.
    pub fn y(&self) -> (r: i64)
        ensures
            r == self.1,
    {
        self.1
    }

    /// The third component.
    pub fn z(&self) -> (r: i64)
        ensures
            r == self.2,
    {
        self.2
    }

    /// Componentwise sum.
    pub fn add(self, rhs: Vector3) -> (r: Vector3)
        requires
            bounded(self, VEC_SUM_BOUND as int),
            bounded(rhs, VEC_SUM_BOUND as int),
        ensures
            r.0 == self.0 + rhs.0,
            r.1 == self.1 + rhs.1,
            r.2 == self.2 + rhs.2,
    {
        Vector3(self.0 + rhs.0, self.1 + rhs.1, self.2 + rhs.2)
    }

    /// Componentwise sum, in place.
    pub fn add_assign(&mut self, rhs: Vector3)
        requires
            bounded(*old(self), VEC_SUM_BOUND as int),
            bounded(rhs, VEC_SUM_BOUND as int),
        ensures
            final(self).0 == old(self).0 + rhs.0,
            final(self).1 == old(self).1 + rhs.1,
            final(self).2 == old(self).2 + rhs.2,
    {
        self.0 = self.0 + rhs.0;
        self.1 = self.1 + rhs.1;
        self.2 = self.2 + rhs.2;
    }

    /// Componentwise difference.
    pub fn sub(self, rhs: Vector3) -> (r: Vector3)
        requires
            bounded(self, VEC_SUM_BOUND as int),
            bounded(rhs, VEC_SUM_BOUND as int),
        ensures
            r.0 == self.0 - rhs.0,
            r.1 == self.1 - rhs.1,
            r.2 == self.2 - rhs.2,
    {
        Vector3(self.0 - rhs.0, self.1 - rhs.1, self.2 - rhs.2)
    }

    /// Componentwise difference, in place.
    pub fn sub_assign(&mut self, rhs: Vector3)
        requires
            bounded(*old(self), VEC_SUM_BOUND as int),
            bounded(rhs, VEC_SUM_BOUND as int),
        ensures
            final(self).0 == old(self).0 - rhs.0,
            final(self).1 == old(self).1 - rhs.1,
            final(self).2 == old(self).2 - rhs.2,
    {
        self.0 = self.0 - rhs.0;
        self.1 = self.1 - rhs.1;
        self.2 = self.2 - rhs.2;
    }

    /// Scaling by a fixed-point factor, truncated componentwise.
    pub fn mul(self, rhs: i64) -> (r: Vector3)
        requires
            bounded(self, FX_OP_BOUND as int),
            -FX_OP_BOUND <= rhs <= FX_OP_BOUND,
        ensures
            r.0 == fx_mul_s(self.0 as int, rhs as int),
            r.1 == fx_mul_s(self.1 as int, rhs as int),
            r.2 == fx_mul_s(self.2 as int, rhs as int),
    {
        Vector3(fx_mul(self.0, rhs), fx_mul(self.1, rhs), fx_mul(self.2, rhs))
    }

    /// Scaling in place.
    pub fn mul_assign(&mut self, rhs: i64)
        requires
            bounded(*old(self), FX_OP_BOUND as int),
            -FX_OP_BOUND <= rhs <= FX_OP_BOUND,
        ensures
            final(self).0 == fx_mul_s(old(self).0 as int, rhs as int),
            final(self).1 == fx_mul_s(old(self).1 as int, rhs as int),
            final(self).2 == fx_mul_s(old(self).2 as int, rhs as int),
    {
        self.0 = fx_mul(self.0, rhs);
        self.1 = fx_mul(self.1, rhs);
        self.2 = fx_mul(self.2, rhs);
    }

    /// Division by a fixed-point factor, truncated componentwise.
    pub fn div(self, rhs: i64) -> (r: Vector3)
        requires
            rhs != 0,
            bounded(self, FX_OP_BOUND as int),
        ensures
            r.0 == fx_div_s(self.0 as int, rhs as int),
            r.1 == fx_div_s(self.1 as int, rhs as int),
            r.2 == fx_div_s(self.2 as int, rhs as int),
    {
        Vector3(fx_div(self.0, rhs), fx_div(self.1, rhs), fx_div(self.2, rhs))
    }

    /// Division in place.
    pub fn div_assign(&mut self, rhs: i64)
        requires
            rhs != 0,
            bounded(*old(self), FX_OP_BOUND as int),
        ensures
            final(self).0 == fx_div_s(old(self).0 as int, rhs as int),
            final(self).1 == fx_div_s(old(self).1 as int, rhs as int),
            final(self).2 == fx_div_s(old(self).2 as int, rhs as int),
    {
        self.0 = fx_div(self.0, rhs);
        self.1 = fx_div(self.1, rhs);
        self.2 = fx_div(self.2, rhs);
    }

    /// Componentwise negation.
    pub fn neg(self) -> (r: Vector3)
        requires
            bounded(self, VEC_SUM_BOUND as int),
        ensures
            r.0 == -self.0,
            r.1 == -self.1,
            r.2 == -self.2,
    {
        Vector3(-self.0, -self.1, -self.2)
    }

    /// The squared length as a fixed-point scalar: the exact self-dot,
    /// rescaled by one truncating division.
    pub fn length_squared(&self) -> (r: i64)
        requires
            bounded(*self, VEC_GEO_BOUND as int),
        ensures
            r == tdiv(sdot(v3(*self), v3(*self)), FX_ONE as int),
            0 <= r,
    {
        let d = dot_wide(self, self);
        proof {
            lemma_self_dot(v3(*self));
            lemma_tdiv_bound(d as int, FX_ONE as int, iabs(d as int));
            lemma_div_ordered(
                iabs(d as int),
                3 * (VEC_GEO_BOUND as int) * (VEC_GEO_BOUND as int),
                FX_ONE as int,
            );
        }
        let q = tdiv_i128(d, 65536);
        q as i64
    }

    /// The length as a fixed-point scalar: because the self-dot carries two
    /// scale factors, its plain integer square root is already in scale.
    pub fn length(&self) -> (r: i64)
        requires
            bounded(*self, VEC_GEO_BOUND as int),
        ensures
            r == sqrt_floor(sdot(v3(*self), v3(*self))),
            0 <= r,
            iabs(self.0 as int) <= r,
            iabs(self.1 as int) <= r,
            iabs(self.2 as int) <= r,
    {
        let d = dot_wide(self, self);
        proof {
            lemma_self_dot(v3(*self));
            lemma_component_le_length(v3(*self));
        }
        let r = crate::fixed::isqrt_u128(d as u128);
        proof {
            let n = sdot(v3(*self), v3(*self));
            assert(r * r <= n);
            assert((r as int) < 0x80_0000_0000) by (nonlinear_arith)
                requires
                    0 <= r as int,
                    (r as int) * (r as int) <= n,
                    n <= 3 * (VEC_GEO_BOUND as int) * (VEC_GEO_BOUND as int),
                    VEC_GEO_BOUND == 0x40_0000_0000i64,
            ;
        }
        r as i64
    }

    /// The fixed-point dot product: the exact scaled dot, rescaled by one
    /// truncating division.
    pub fn dot(&self, other: &Vector3) -> (r: i64)
        requires
            bounded(*self, VEC_GEO_BOUND as int),
            bounded(*other, VEC_GEO_BOUND as int),
        ensures
            r == tdiv(sdot(v3(*self), v3(*other)), FX_ONE as int),
    {
        let d = dot_wide(self, other);
        proof {
            lemma_tdiv_bound(d as int, FX_ONE as int, iabs(d as int));
            lemma_div_ordered(
                iabs(d as int),
                3 * (VEC_GEO_BOUND as int) * (VEC_GEO_BOUND as int),
                FX_ONE as int,
            );
        }
        let q = tdiv_i128(d, 65536);
        q as i64
    }

    /// The cross product; each component is an exact difference of scaled
    /// products, rescaled by one truncating division.
    pub fn cross(&self, other: &Vector3) -> (r: Vector3)
        requires
            bounded(*self, VEC_GEO_BOUND as int),
            bounded(*other, VEC_GEO_BOUND as int),
        ensures
            r.0 == tdiv(self.1 * other.2 - self.2 * other.1, FX_ONE as int),
            r.1 == tdiv(self.2 * other.0 - self.0 * other.2, FX_ONE as int),
            r.2 == tdiv(self.0 * other.1 - self.1 * other.0, FX_ONE as int),
    {
        proof {
            lemma_abs_mul_bound(self.1 as int, other.2 as int, VEC_GEO_BOUND as int, VEC_GEO_BOUND as int);
            lemma_abs_mul_bound(self.2 as int, other.1 as int, VEC_GEO_BOUND as int, VEC_GEO_BOUND as int);
            lemma_abs_mul_bound(self.2 as int, other.0 as int, VEC_GEO_BOUND as int, VEC_GEO_BOUND as int);
            lemma_abs_mul_bound(self.0 as int, other.2 as int, VEC_GEO_BOUND as int, VEC_GEO_BOUND as int);
            lemma_abs_mul_bound(self.0 as int, other.1 as int, VEC_GEO_BOUND as int, VEC_GEO_BOUND as int);
            lemma_abs_mul_bound(self.1 as int, other.0 as int, VEC_GEO_BOUND as int, VEC_GEO_BOUND as int);
        }
        let cx: i128 = (self.1 as i128) * (other.2 as i128) - (self.2 as i128) * (other.1 as i128);
        let cy: i128 = (self.2 as i128) * (other.0 as i128) - (self.0 as i128) * (other.2 as i128);
        let cz: i128 = (self.0 as i128) * (other.1 as i128) - (self.1 as i128) * (other.0 as i128);
        proof {
            let cap = 2 * (VEC_GEO_BOUND as int) * (VEC_GEO_BOUND as int);
            lemma_tdiv_bound(cx as int, FX_ONE as int, iabs(cx as int));
            lemma_tdiv_bound(cy as int, FX_ONE as int, iabs(cy as int));
            lemma_tdiv_bound(cz as int, FX_ONE as int, iabs(cz as int));
            lemma_div_ordered(iabs(cx as int), cap, FX_ONE as int);
            lemma_div_ordered(iabs(cy as int), cap, FX_ONE as int);
            lemma_div_ordered(iabs(cz as int), cap, FX_ONE as int);
        }
        let rx = tdiv_i128(cx, 65536);
        let ry = tdiv_i128(cy, 65536);
        let rz = tdiv_i128(cz, 65536);
        Vector3(rx as i64, ry as i64, rz as i64)
    }

    /// The direction rescaled to (truncated) unit length; every component
    /// of the result is at most `FX_ONE` in magnitude, and the result's
    /// squared length stays within the exact multiplicative bounds of
    /// [`lemma_unit_t_length`].
    pub fn unit_vector(&self) -> (r: Vector3)
        requires
            bounded(*self, VEC_GEO_BOUND as int),
            sdot(v3(*self), v3(*self)) > 0,
        ensures
            v3(r) == unit_t(v3(*self)),
            bounded(r, FX_ONE as int),
            ({
                let ll = sqrt_floor(sdot(v3(*self), v3(*self)));
                &&& sdot(v3(r), v3(r)) * (ll * ll) <= ((FX_ONE as int) * (FX_ONE as int)) * sdot(
                    v3(*self),
                    v3(*self),
                )
                &&& ((FX_ONE as int) * (FX_ONE as int)) * sdot(v3(*self), v3(*self)) < sdot(
                    v3(r),
                    v3(r),
                ) * (ll * ll) + (ll * ll) * (6 * (FX_ONE as int) + 3)
            }),
    {
        proof {
            lemma_unit_t_length(v3(*self));
        }
        let len = self.length();
        proof {
            lemma_sqrt_floor_bounds(sdot(v3(*self), v3(*self)));
            assert(len >= 1) by {
                if len == 0 {
                    assert(sdot(v3(*self), v3(*self)) < 1);
                }
            }
        }
        let r = self.div(len);
        proof {
            lemma_unit_component(self.0 as int, len as int);
            lemma_unit_component(self.1 as int, len as int);
            lemma_unit_component(self.2 as int, len as int);
        }
        r
    }

    /// True exactly when every component is below [`NEAR_ZERO_EPS`] in
    /// magnitude.
    pub fn near_zero(&self) -> (r: bool)
        ensures
            r == (iabs(self.0 as int) < NEAR_ZERO_EPS && iabs(self.1 as int) < NEAR_ZERO_EPS
                && iabs(self.2 as int) < NEAR_ZERO_EPS),
    {
        -NEAR_ZERO_EPS < self.0 && self.0 < NEAR_ZERO_EPS && -NEAR_ZERO_EPS < self.1 && self.1
            < NEAR_ZERO_EPS && -NEAR_ZERO_EPS < self.2 && self.2 < NEAR_ZERO_EPS
    }
}

/// A component no larger than the length divides to at most one unit.
pub proof fn lemma_unit_component(c: int, len: int)
    requires
        1 <= len,
        iabs(c) <= len,
    ensures
        iabs(fx_div_s(c, len)) <= FX_ONE as int,
{
    lemma_abs_mul(c, FX_ONE as int);
    lemma_div_ordered(iabs(c) * (FX_ONE as int), len * (FX_ONE as int), len);
    assert(iabs(c * (FX_ONE as int)) <= len * (FX_ONE as int)) by (nonlinear_arith)
        requires
            iabs(c) <= len,
            iabs(c * (FX_ONE as int)) == iabs(c) * (FX_ONE as int),
    ;
    vstd::arithmetic::div_mod::lemma_div_multiples_vanish(FX_ONE as int, len);
    assert((len * (FX_ONE as int)) / len == FX_ONE as int);
}

/// One truncated-normalized component, squared and rescaled by the
/// squared length: it never exceeds the component's exact rescale and
/// falls short of it by less than `ll^2 (2 FX_ONE + 1)`.
proof fn lemma_unit_t_component(c: int, ll: int)
    requires
        1 <= ll,
        iabs(c) <= ll,
    ensures
        ({
            let q = fx_div_s(c, ll);
            &&& (q * q) * (ll * ll) <= (c * c) * ((FX_ONE as int) * (FX_ONE as int))
            &&& (c * c) * ((FX_ONE as int) * (FX_ONE as int)) < (q * q) * (ll * ll) + (ll * ll) * (
            2 * (FX_ONE as int) + 1)
        }),
{
    let a = c * (FX_ONE as int);
    let am = iabs(a);
    let q = fx_div_s(c, ll);
    lemma_tdiv_bound(a, ll, iabs(a));
    let qm = iabs(q);
    vstd::arithmetic::div_mod::lemma_fundamental_div_mod(am, ll);
    vstd::arithmetic::div_mod::lemma_mod_division_less_than_divisor(am, ll);
    assert(ll * qm <= am < ll * qm + ll);
    lemma_unit_component(c, ll);
    assert(qm <= FX_ONE as int);
    assert(a * a == (c * c) * ((FX_ONE as int) * (FX_ONE as int))) by (nonlinear_arith)
        requires
            a == c * (FX_ONE as int),
    ;
    assert(am == a || am == -a);
    assert(am * am == a * a) by (nonlinear_arith)
        requires
            am == a || am == -a,
    ;
    assert(qm == q || qm == -q);
    assert(qm * qm == q * q) by (nonlinear_arith)
        requires
            qm == q || qm == -q,
    ;
    assert((ll * qm) * (ll * qm) <= am * am) by (nonlinear_arith)
        requires
            0 <= ll * qm,
            ll * qm <= am,
    ;
    assert((ll * qm) * (ll * qm) == (qm * qm) * (ll * ll)) by (nonlinear_arith);
    assert(ll * (qm + 1) == ll * qm + ll) by (nonlinear_arith);
    assert(am * am < (ll * (qm + 1)) * (ll * (qm + 1))) by (nonlinear_arith)
        requires
            0 <= am,
            am < ll * (qm + 1),
    ;
    assert((ll * (qm + 1)) * (ll * (qm + 1)) == (qm * qm) * (ll * ll) + (ll * ll) * (2 * qm + 1))
        by (nonlinear_arith);
    assert((ll * ll) * (2 * qm + 1) <= (ll * ll) * (2 * (FX_ONE as int) + 1)) by (nonlinear_arith)
        requires
            qm <= FX_ONE as int,
            1 <= ll,
    ;
}

/// TRUNCATED NORMALIZATION KEEPS THE LENGTH WITHIN NARROW, EXACT BOUNDS:
/// with `ll` the fixed-point length of `p`, the normalized triple's
/// squared length, rescaled by `ll^2`, never exceeds the exact rescale
/// `FX_ONE^2 * (p . p)`, and falls short of it by less than
/// `ll^2 (6 FX_ONE + 3)` — so for draws of at least half a unit, the
/// normalized direction is one unit long up to a few parts in 65536.
pub proof fn lemma_unit_t_length(p: (int, int, int))
    requires
        sdot(p, p) > 0,
    ensures
        ({
            let ll = sqrt_floor(sdot(p, p));
            let u = unit_t(p);
            &&& sdot(u, u) * (ll * ll) <= ((FX_ONE as int) * (FX_ONE as int)) * sdot(p, p)
            &&& ((FX_ONE as int) * (FX_ONE as int)) * sdot(p, p) < sdot(u, u) * (ll * ll) + (ll
                * ll) * (6 * (FX_ONE as int) + 3)
        }),
{
    let pp = sdot(p, p);
    lemma_self_dot(p);
    lemma_sqrt_floor_bounds(pp);
    let ll = sqrt_floor(pp);
    assert(ll >= 1) by {
        if ll == 0 {
            assert((0int + 1) * (0int + 1) == 1) by (nonlinear_arith);
        }
    }
    lemma_component_le_length(p);
    let u = unit_t(p);
    lemma_unit_t_component(p.0, ll);
    lemma_unit_t_component(p.1, ll);
    lemma_unit_t_component(p.2, ll);
    let u0 = fx_div_s(p.0, ll);
    let u1 = fx_div_s(p.1, ll);
    let u2 = fx_div_s(p.2, ll);
    assert(sdot(u, u) == u0 * u0 + u1 * u1 + u2 * u2);
    assert(sdot(u, u) * (ll * ll) == (u0 * u0) * (ll * ll) + (u1 * u1) * (ll * ll) + (u2 * u2) * (
    ll * ll)) by (nonlinear_arith)
        requires
            sdot(u, u) == u0 * u0 + u1 * u1 + u2 * u2,
    ;
    assert(((FX_ONE as int) * (FX_ONE as int)) * pp == (p.0 * p.0) * ((FX_ONE as int) * (
    FX_ONE as int)) + (p.1 * p.1) * ((FX_ONE as int) * (FX_ONE as int)) + (p.2 * p.2) * ((
    FX_ONE as int) * (FX_ONE as int))) by (nonlinear_arith)
        requires
            pp == p.0 * p.0 + p.1 * p.1 + p.2 * p.2,
    ;
    assert((ll * ll) * (2 * (FX_ONE as int) + 1) + (ll * ll) * (2 * (FX_ONE as int) + 1) + (ll
        * ll) * (2 * (FX_ONE as int) + 1) == (ll * ll) * (6 * (FX_ONE as int) + 3))
        by (nonlinear_arith);
}

/// A ray, evaluated at parameter `t` as `origin + t * direction`.
#[derive(Debug, Clone, Copy, PartialEq, Eq, Structural)]
pub struct Ray {
    pub origin: Point3,
    pub direction: Vector3,
}

impl Ray {
    /// Builds the ray with the given origin and direction.
    pub fn new(origin: Point3, direction: Vector3) -> (r: Ray)
        ensures
            r == (Ray { origin, direction }),
    {
        Ray { origin, direction }
    }

    /// The point `origin + t * direction`, with the scaled products
    /// truncated componentwise.
    pub fn at(&self, t: i64) -> (r: Point3)
        requires
            bounded(self.origin, VEC_SUM_BOUND as int),
            bounded(self.direction, FX_OP_BOUND as int),
            -FX_OP_BOUND <= t <= FX_OP_BOUND,
        ensures
            r.0 == self.origin.0 + fx_mul_s(self.direction.0 as int, t as int),
            r.1 == self.origin.1 + fx_mul_s(self.direction.1 as int, t as int),
            r.2 == self.origin.2 + fx_mul_s(self.direction.2 as int, t as int),
    {
        let d = self.direction.mul(t);
        proof {
            lemma_fx_mul_coarse(self.direction.0 as int, t as int);
            lemma_fx_mul_coarse(self.direction.1 as int, t as int);
            lemma_fx_mul_coarse(self.direction.2 as int, t as int);
        }
        Vector3(self.origin.0 + d.0, self.origin.1 + d.1, self.origin.2 + d.2)
    }
}

/// The fixed-point product of two in-bound factors stays well within `i64`.
proof fn lemma_fx_mul_coarse(a: int, b: int)
    requires
        iabs(a) <= FX_OP_BOUND as int,
        iabs(b) <= FX_OP_BOUND as int,
    ensures
        iabs(fx_mul_s(a, b)) <= 0x4000_0000_0000_0000,
{
    lemma_abs_mul_bound(a, b, FX_OP_BOUND as int, FX_OP_BOUND as int);
    lemma_tdiv_bound(a * b, FX_ONE as int, (FX_OP_BOUND as int) * (FX_OP_BOUND as int));
    lemma_div_ordered(iabs(a * b), (FX_OP_BOUND as int) * (FX_OP_BOUND as int), FX_ONE as int);
}

} // verus!
