//! Fixed-point scalar kernel.
//!
//! Every scalar in the renderer is an `i64` holding a signed fixed-point
//! value with [`SCALE`] quanta per world unit (six decimal places).
//! Multiplication and division round toward zero, as [`tdiv`] states, so
//! every arithmetic result has an exact integer description.

use vstd::prelude::*;

verus! {

/// Number of fixed-point quanta in one world unit (six decimal places).
pub const SCALE: i64 = 1_000_000;

/// Largest coordinate magnitude the geometry admits (one thousand world units).
pub const MAX_COORD: i64 = 1_000_000_000;

/// Largest ray parameter the renderer ever queries (one million world units).
pub const T_MAX: i64 = 1_000_000_000_000;

/// Near-clip offset that avoids self-intersection acne (0.001 world units).
pub const EPS: i64 = 1_000;

/// Largest coordinate magnitude a point along a queried ray can reach:
/// a `MAX_COORD` origin moved by up to `T_MAX` times a `MAX_COORD` direction.
pub const P_MAX: i64 = 4_000_000_000_000_000;

/// Quotient of `a` by `b > 0`, rounded toward zero.
pub open spec fn tdiv(a: int, b: int) -> int {
    if a >= 0 {
        a / b
    } else {
        -((-a) / b)
    }
}

/// Product of two fixed-point scalars, rescaled to fixed point.
pub open spec fn fmul_spec(a: int, b: int) -> int {
    tdiv(a * b, SCALE as int)
}

/// Clamping of `v` into `[lo, hi]`, biased exactly as the executable code is:
/// the lower bound wins first, then the upper.
pub open spec fn clamp_spec(v: int, lo: int, hi: int) -> int {
    if lo > v {
        lo
    } else if v > hi {
        hi
    } else {
        v
    }
}

/// The floor of the square root of `n` (0 for negative `n`).
pub open spec fn sqrt_floor(n: int) -> int
    decreases n,
{
    if n <= 0 {
        0
    } else {
        let s = sqrt_floor(n - 1);
        if (s + 1) * (s + 1) <= n {
            s + 1
        } else {
            s
        }
    }
}

/// `tdiv` sits between the two neighbouring multiples of the divisor.
pub proof fn lemma_tdiv_shape(a: int, b: int)
    requires
        b > 0,
    ensures
        a >= 0 ==> b * tdiv(a, b) <= a < b * (tdiv(a, b) + 1),
        a < 0 ==> b * (tdiv(a, b) - 1) < a <= b * tdiv(a, b),
        a >= 0 ==> tdiv(a, b) >= 0,
        a < 0 ==> tdiv(a, b) <= 0,
{
    if a >= 0 {
        vstd::arithmetic::div_mod::lemma_fundamental_div_mod(a, b);
        vstd::arithmetic::div_mod::lemma_div_pos_is_pos(a, b);
        let q = a / b;
        assert(b * (q + 1) == b * q + b) by (nonlinear_arith);
    } else {
        vstd::arithmetic::div_mod::lemma_fundamental_div_mod(-a, b);
        vstd::arithmetic::div_mod::lemma_div_pos_is_pos(-a, b);
        let q = (-a) / b;
        assert(b * (q + 1) == b * q + b) by (nonlinear_arith);
        assert(b * (-q - 1) == -(b * q + b)) by (nonlinear_arith);
        assert(b * (-q) == -(b * q)) by (nonlinear_arith);
    }
}

/// A bound on the dividend gives the same bound, divided, on the quotient.
pub proof fn lemma_tdiv_bound(a: int, b: int, m: int)
    requires
        b > 0,
        m >= 0,
        -(m * b) <= a <= m * b,
    ensures
        -m <= tdiv(a, b) <= m,
{
    lemma_tdiv_shape(a, b);
    let q = tdiv(a, b);
    if q > m {
        assert(b * q >= b * (m + 1)) by (nonlinear_arith)
            requires b > 0 && q >= m + 1;
        assert(b * (m + 1) > m * b) by (nonlinear_arith)
            requires b > 0;
        assert(false);
    }
    if q < -m {
        assert(b * q <= b * (-m - 1)) by (nonlinear_arith)
            requires b > 0 && q <= -m - 1;
        assert(b * (-m - 1) < -(m * b)) by (nonlinear_arith)
            requires b > 0;
        assert(false);
    }
}

/// Bounds on two factors bound their product.
pub proof fn lemma_mul_bounds(a: int, b: int, ma: int, mb: int)
    by (nonlinear_arith)
    requires
        0 <= ma,
        0 <= mb,
        -ma <= a <= ma,
        -mb <= b <= mb,
    ensures
        -(ma * mb) <= a * b <= ma * mb,
{
}

/// Dividing an exact multiple of the divisor is exact.
pub proof fn lemma_tdiv_exact(k: int, b: int)
    requires
        b > 0,
    ensures
        tdiv(k * b, b) == k,
{
    if k >= 0 {
        assert(k * b >= 0) by (nonlinear_arith)
            requires k >= 0 && b > 0;
        assert(k * b == b * k) by (nonlinear_arith);
        vstd::arithmetic::div_mod::lemma_div_multiples_vanish(k, b);
    } else {
        assert(k * b < 0) by (nonlinear_arith)
            requires k < 0 && b > 0;
        assert(-(k * b) == b * (-k)) by (nonlinear_arith);
        vstd::arithmetic::div_mod::lemma_div_multiples_vanish(-k, b);
    }
}

/// The square-root floor is characterised by the two neighbouring squares.
pub proof fn lemma_sqrt_floor(n: int)
    requires
        n >= 0,
    ensures
        sqrt_floor(n) >= 0,
        sqrt_floor(n) * sqrt_floor(n) <= n,
        n < (sqrt_floor(n) + 1) * (sqrt_floor(n) + 1),
    decreases n,
{
    if n == 0 {
    } else {
        lemma_sqrt_floor(n - 1);
        let s = sqrt_floor(n - 1);
        if (s + 1) * (s + 1) <= n {
            assert(n == (s + 1) * (s + 1));
            assert((s + 1) * (s + 1) < (s + 2) * (s + 2)) by (nonlinear_arith)
                requires s >= 0;
        }
    }
}

/// Any integer bracketed by the same neighbouring squares is the square-root floor.
pub proof fn lemma_sqrt_floor_unique(n: int, r: int)
    requires
        n >= 0,
        r >= 0,
        r * r <= n,
        n < (r + 1) * (r + 1),
    ensures
        r == sqrt_floor(n),
{
    lemma_sqrt_floor(n);
    let s = sqrt_floor(n);
    if r < s {
        assert((r + 1) * (r + 1) <= s * s) by (nonlinear_arith)
            requires 0 <= r + 1 <= s;
        assert(false);
    }
    if s < r {
        assert((s + 1) * (s + 1) <= r * r) by (nonlinear_arith)
            requires 0 <= s + 1 <= r;
        assert(false);
    }
}

/// Truncating division of a narrow scalar by a positive divisor.
pub fn div_t(a: i64, b: i64) -> (r: i64)
    requires
        b > 0,
        a > i64::MIN,
    ensures
        r as int == tdiv(a as int, b as int),
{
    proof {
        lemma_tdiv_shape(a as int, b as int);
        let m = if a >= 0 { a as int } else { -(a as int) };
        assert(-(m * b) <= (a as int) <= m * b) by (nonlinear_arith)
            requires b >= 1 && m == (if a >= 0 { a as int } else { -(a as int) });
        lemma_tdiv_bound(a as int, b as int, m);
    }
    if a >= 0 {
        let q: u64 = (a as u64) / (b as u64);
        q as i64
    } else {
        let n: u64 = (-a) as u64;
        let q: u64 = n / (b as u64);
        -(q as i64)
    }
}

/// Truncating division of a wide scalar by a positive divisor.
pub fn div_t_wide(a: i128, b: i128) -> (r: i128)
    requires
        b > 0,
        a > i128::MIN,
    ensures
        r as int == tdiv(a as int, b as int),
{
    proof {
        lemma_tdiv_shape(a as int, b as int);
        let m = if a >= 0 { a as int } else { -(a as int) };
        assert(-(m * b) <= (a as int) <= m * b) by (nonlinear_arith)
            requires b >= 1 && m == (if a >= 0 { a as int } else { -(a as int) });
        lemma_tdiv_bound(a as int, b as int, m);
    }
    if a >= 0 {
        let q: u128 = (a as u128) / (b as u128);
        q as i128
    } else {
        let n: u128 = (-a) as u128;
        let q: u128 = n / (b as u128);
        -(q as i128)
    }
}

/// Fixed-point multiplication: the exact product, rescaled with truncation.
pub fn fmul(a: i64, b: i64) -> (r: i64)
    requires
        -(i64::MAX as int) * (SCALE as int) <= (a as int) * (b as int) <= (i64::MAX as int)
            * (SCALE as int),
    ensures
        r as int == fmul_spec(a as int, b as int),
{
    let w: i128 = (a as i128) * (b as i128);
    proof {
        lemma_tdiv_bound(w as int, SCALE as int, i64::MAX as int);
    }
    let q: i128 = div_t_wide(w, SCALE as i128);
    q as i64
}

/// The floor of the square root, as executable binary search.
pub fn isqrt(n: u128) -> (r: u64)
    ensures
        r as int == sqrt_floor(n as int),
{
    let mut lo: u128 = 0;
    let mut hi: u128 = 0x1_0000_0000_0000_0000;
    assert((n as int) < (hi as int) * (hi as int)) by (nonlinear_arith)
        requires (hi as int) == 0x1_0000_0000_0000_0000 && (n as int) <= 0xffff_ffff_ffff_ffff_ffff_ffff_ffff_ffff;
    while lo + 1 < hi
        invariant
            lo < hi,
            hi <= 0x1_0000_0000_0000_0000,
            (lo as int) * (lo as int) <= (n as int),
            (n as int) < (hi as int) * (hi as int),
        decreases hi - lo,
    {
        let mid: u128 = lo + (hi - lo) / 2;
        assert((mid as int) * (mid as int) < 0xffff_ffff_ffff_ffff_ffff_ffff_ffff_ffff) by (nonlinear_arith)
            requires (mid as int) <= 0xffff_ffff_ffff_ffff;
        if mid * mid <= n {
            lo = mid;
        } else {
            hi = mid;
        }
    }
    proof {
        lemma_sqrt_floor_unique(n as int, lo as int);
    }
    lo as u64
}

/// Clamping into `[lo, hi]`, keeping values already inside untouched.
pub fn clamp(val: i64, lo: i64, hi: i64) -> (r: i64)
    requires
        lo <= hi,
    ensures
        r as int == clamp_spec(val as int, lo as int, hi as int),
{
    if lo > val {
        lo
    } else if val > hi {
        hi
    } else {
        val
    }
}

} // verus!
