//! The fixed-point scalar: an `i64` counting 1/65536ths of a unit.
//!
//! All executable arithmetic in the renderer reduces to exact integer
//! operations on these counts; rounding is division truncated toward zero,
//! exactly as stated by [`tdiv`].

use vstd::prelude::*;

verus! {

/// One unit in the fixed-point scale: every scalar in this crate is an
/// integer count of 1/65536ths.
pub const FX_ONE: i64 = 65536;

/// Largest magnitude accepted by the fixed-point multiply and divide
/// helpers; comfortably above every value the renderer produces.
pub const FX_OP_BOUND: i64 = 0x80_0000_0000;

/// Magnitude of a mathematical integer.
pub open spec fn iabs(x: int) -> int {
    if x >= 0 {
        x
    } else {
        -x
    }
}

/// Division truncated toward zero — the rounding the executable helpers
/// perform. Total for `b != 0`.
pub open spec fn tdiv(a: int, b: int) -> int {
    if (a >= 0) == (b >= 0) {
        iabs(a) / iabs(b)
    } else {
        -(iabs(a) / iabs(b))
    }
}

/// The fixed-point product: `(a * b) / FX_ONE`, truncated toward zero.
pub open spec fn fx_mul_s(a: int, b: int) -> int {
    tdiv(a * b, FX_ONE as int)
}

/// The fixed-point quotient: `(a * FX_ONE) / b`, truncated toward zero.
pub open spec fn fx_div_s(a: int, b: int) -> int {
    tdiv(a * FX_ONE, b)
}

/// The integer square root, rounded down.
pub open spec fn sqrt_floor(n: int) -> int {
    choose|r: int| 0 <= r && #[trigger] (r * r) <= n < (r + 1) * (r + 1)
}

/// A nonnegative `r` with `r * r <= n < (r + 1) * (r + 1)` is unique, so any
/// such `r` is `sqrt_floor(n)`.
pub proof fn lemma_sqrt_floor_is(n: int, r: int)
    requires
        0 <= r,
        r * r <= n,
        n < (r + 1) * (r + 1),
    ensures
        sqrt_floor(n) == r,
{
    assert(exists|q: int| 0 <= q && #[trigger] (q * q) <= n < (q + 1) * (q + 1)) by {
        assert(0 <= r && r * r <= n < (r + 1) * (r + 1));
    }
    let s = sqrt_floor(n);
    assert(0 <= s && s * s <= n < (s + 1) * (s + 1));
    assert(s == r) by (nonlinear_arith)
        requires
            0 <= r,
            r * r <= n,
            n < (r + 1) * (r + 1),
            0 <= s,
            s * s <= n,
            n < (s + 1) * (s + 1),
    ;
}

/// `sqrt_floor` of any nonnegative integer exists; stated by re-deriving the
/// defining inequalities.
pub proof fn lemma_sqrt_floor_bounds(n: int)
    requires
        0 <= n,
    ensures
        0 <= sqrt_floor(n),
        sqrt_floor(n) * sqrt_floor(n) <= n,
        n < (sqrt_floor(n) + 1) * (sqrt_floor(n) + 1),
    decreases n,
{
    if n == 0 {
        lemma_sqrt_floor_is(0, 0);
    } else {
        lemma_sqrt_floor_bounds(n - 1);
        let p = sqrt_floor(n - 1);
        if (p + 1) * (p + 1) <= n {
            // then n == (p + 1) * (p + 1), as n - 1 < (p + 1) * (p + 1)
            assert(n < (p + 2) * (p + 2)) by (nonlinear_arith)
                requires
                    0 <= p,
                    n <= (p + 1) * (p + 1),
            ;
            lemma_sqrt_floor_is(n, p + 1);
        } else {
            lemma_sqrt_floor_is(n, p);
        }
    }
}

/// Monotonicity of the integer square root.
pub proof fn lemma_sqrt_floor_ordered(m: int, n: int)
    requires
        0 <= m <= n,
    ensures
        sqrt_floor(m) <= sqrt_floor(n),
{
    lemma_sqrt_floor_bounds(m);
    lemma_sqrt_floor_bounds(n);
    let a = sqrt_floor(m);
    let b = sqrt_floor(n);
    assert(a <= b) by (nonlinear_arith)
        requires
            0 <= a,
            0 <= b,
            a * a <= m,
            m <= n,
            n < (b + 1) * (b + 1),
    ;
}

/// Magnitudes multiply: `|a * b| == |a| * |b|`.
pub proof fn lemma_abs_mul(a: int, b: int)
    by (nonlinear_arith)
    ensures
        iabs(a * b) == iabs(a) * iabs(b),
{
}

/// A product of bounded factors is bounded.
pub proof fn lemma_abs_mul_bound(a: int, b: int, ba: int, bb: int)
    by (nonlinear_arith)
    requires
        iabs(a) <= ba,
        iabs(b) <= bb,
    ensures
        iabs(a * b) <= ba * bb,
{
}

/// Truncating division never grows the magnitude beyond `|a| / |b|`.
pub proof fn lemma_tdiv_bound(a: int, b: int, ba: int)
    requires
        b != 0,
        iabs(a) <= ba,
    ensures
        iabs(tdiv(a, b)) <= ba,
        iabs(tdiv(a, b)) == iabs(a) / iabs(b),
        0 <= a && 0 < b ==> tdiv(a, b) == a / b,
        a <= 0 && 0 < b ==> tdiv(a, b) <= 0,
        0 <= a && 0 < b ==> 0 <= tdiv(a, b),
{
    vstd::arithmetic::div_mod::lemma_div_nonincreasing(iabs(a), iabs(b));
    vstd::arithmetic::div_mod::lemma_div_pos_is_pos(iabs(a), iabs(b));
    if 0 <= a && 0 < b {
        assert(tdiv(a, b) == a / b);
    }
}

/// The quotient shrinks when the dividend does.
pub proof fn lemma_div_ordered(x: int, y: int, d: int)
    requires
        0 <= x <= y,
        0 < d,
    ensures
        x / d <= y / d,
{
    vstd::arithmetic::div_mod::lemma_div_is_ordered(x, y, d);
}

/// Truncating division is monotone in the dividend.
pub proof fn lemma_tdiv_ordered(x: int, y: int, d: int)
    requires
        x <= y,
        0 < d,
    ensures
        tdiv(x, d) <= tdiv(y, d),
{
    if 0 <= x {
        lemma_div_ordered(x, y, d);
    } else if y <= 0 {
        lemma_div_ordered(-y, -x, d);
    } else {
        vstd::arithmetic::div_mod::lemma_div_pos_is_pos(-x, d);
        vstd::arithmetic::div_mod::lemma_div_pos_is_pos(y, d);
    }
}

/// A magnitude cap on the fixed-point product; the scale appears as a
/// numeral so the obligation at each call site stays linear.
pub proof fn lemma_fx_mul_cap(a: int, b: int, ba: int, bb: int, cap: int)
    requires
        iabs(a) <= ba,
        iabs(b) <= bb,
        0 <= ba,
        0 <= bb,
        ba * bb <= cap * 65536,
    ensures
        iabs(fx_mul_s(a, b)) <= cap,
{
    lemma_abs_mul_bound(a, b, ba, bb);
    lemma_tdiv_bound(a * b, FX_ONE as int, ba * bb);
    vstd::arithmetic::div_mod::lemma_multiply_divide_le(iabs(a * b), 65536, cap);
}

/// A magnitude cap on one truncating rescale by the fixed-point unit.
pub proof fn lemma_fx_rescale_cap(a: int, cap: int)
    requires
        iabs(a) <= cap * 65536,
        0 <= cap,
    ensures
        iabs(tdiv(a, FX_ONE as int)) <= cap,
{
    lemma_tdiv_bound(a, FX_ONE as int, iabs(a));
    vstd::arithmetic::div_mod::lemma_multiply_divide_le(iabs(a), 65536, cap);
}

/// A generic magnitude bound on the fixed-point product.
pub proof fn lemma_fx_mul_bound(a: int, b: int, ba: int, bb: int)
    requires
        iabs(a) <= ba,
        iabs(b) <= bb,
    ensures
        iabs(fx_mul_s(a, b)) <= (ba * bb) / (FX_ONE as int),
{
    lemma_abs_mul_bound(a, b, ba, bb);
    lemma_tdiv_bound(a * b, FX_ONE as int, ba * bb);
    lemma_div_ordered(iabs(a * b), ba * bb, FX_ONE as int);
}

/// Binary search for the integer square root of a `u128`.
pub fn isqrt_u128(n: u128) -> (r: u128)
    ensures
        r * r <= n < (r + 1) * (r + 1),
        r == sqrt_floor(n as int),
        r < 0x1_0000_0000_0000_0000,
{
    let mut lo: u128 = 0;
    let mut hi: u128 = 0x1_0000_0000_0000_0000;
    assert(n < hi * hi) by (nonlinear_arith)
        requires
            hi == 0x1_0000_0000_0000_0000u128,
            n <= u128::MAX,
    ;
    while lo + 1 < hi
        invariant
            lo < hi,
            hi <= 0x1_0000_0000_0000_0000,
            lo * lo <= n,
            n < hi * hi,
        decreases hi - lo,
    {
        let mid = lo + (hi - lo) / 2;
        assert(lo < mid < hi);
        assert(mid * mid <= u128::MAX) by (nonlinear_arith)
            requires
                mid < 0x1_0000_0000_0000_0000u128,
        ;
        if mid * mid <= n {
            lo = mid;
        } else {
            hi = mid;
        }
    }
    proof {
        lemma_sqrt_floor_is(n as int, lo as int);
    }
    lo
}

/// Truncating division on wide integers, computed on magnitudes so the
/// quotient is exactly [`tdiv`].
pub fn tdiv_i128(a: i128, b: i128) -> (r: i128)
    requires
        b != 0,
        iabs(a as int) <= 0x4000_0000_0000_0000_0000_0000_0000_0000,
        iabs(b as int) <= 0x4000_0000_0000_0000_0000_0000_0000_0000,
    ensures
        r == tdiv(a as int, b as int),
        iabs(r as int) <= iabs(a as int),
{
    let ma: u128 = if a < 0 {
        (-a) as u128
    } else {
        a as u128
    };
    let mb: u128 = if b < 0 {
        (-b) as u128
    } else {
        b as u128
    };
    let q = ma / mb;
    proof {
        vstd::arithmetic::div_mod::lemma_div_nonincreasing(ma as int, mb as int);
        vstd::arithmetic::div_mod::lemma_div_pos_is_pos(ma as int, mb as int);
    }
    if (a < 0) != (b < 0) {
        -(q as i128)
    } else {
        q as i128
    }
}

/// The fixed-point product, truncated toward zero.
pub fn fx_mul(a: i64, b: i64) -> (r: i64)
    requires
        -FX_OP_BOUND <= a <= FX_OP_BOUND,
        -FX_OP_BOUND <= b <= FX_OP_BOUND,
    ensures
        r == fx_mul_s(a as int, b as int),
        iabs(r as int) * (FX_ONE as int) <= iabs((a as int) * (b as int)),
{
    proof {
        lemma_abs_mul_bound(a as int, b as int, FX_OP_BOUND as int, FX_OP_BOUND as int);
    }
    let p: i128 = (a as i128) * (b as i128);
    let q = tdiv_i128(p, 65536);
    proof {
        lemma_tdiv_bound(p as int, 65536, iabs(p as int));
        assert(iabs(tdiv(p as int, 65536)) * 65536 <= iabs(p as int)) by {
            let m = iabs(p as int);
            vstd::arithmetic::div_mod::lemma_fundamental_div_mod(m, 65536);
            assert(iabs(tdiv(p as int, 65536)) == m / 65536);
            assert((m / 65536) * 65536 <= m) by (nonlinear_arith)
                requires
                    0 <= m,
                    m == 65536 * (m / 65536) + m % 65536,
                    0 <= m % 65536,
            ;
        }
    }
    q as i64
}

/// The fixed-point quotient, truncated toward zero.
pub fn fx_div(a: i64, b: i64) -> (r: i64)
    requires
        b != 0,
        -FX_OP_BOUND <= a <= FX_OP_BOUND,
    ensures
        r == fx_div_s(a as int, b as int),
        iabs(r as int) <= iabs((a as int) * (FX_ONE as int)),
{
    proof {
        lemma_abs_mul_bound(a as int, FX_ONE as int, FX_OP_BOUND as int, FX_ONE as int);
    }
    let p: i128 = (a as i128) * 65536;
    let q = tdiv_i128(p, b as i128);
    proof {
        lemma_abs_mul(a as int, FX_ONE as int);
    }
    q as i64
}

/// The fixed-point square root of a nonnegative scalar:
/// `sqrt_floor(x * FX_ONE)`, so that squaring the result recovers `x` up to
/// truncation.
pub fn fx_sqrt(x: i64) -> (r: i64)
    requires
        0 <= x,
    ensures
        r == sqrt_floor((x as int) * (FX_ONE as int)),
        0 <= r,
        (r as int) * (r as int) <= (x as int) * (FX_ONE as int),
{
    let n: u128 = (x as u128) * 65536;
    let r = isqrt_u128(n);
    proof {
        lemma_sqrt_floor_bounds(n as int);
        assert((r as int) < 0x100_0000_0000) by (nonlinear_arith)
            requires
                0 <= r as int,
                (r as int) * (r as int) <= n as int,
                n as int <= 0x7fff_ffff_ffff_ffffint * 65536,
        ;
    }
    r as i64
}

} // verus!
