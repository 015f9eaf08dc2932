//! Fixed-point scalar arithmetic for the solver.
//!
//! Every scalar in the solver is an `i64` holding a real quantity scaled by
//! `ONE` (so `ONE` itself stands for 1.0). All intermediate products are
//! computed in `i128`, where they provably cannot overflow as long as the
//! operands stay inside the representable region `[-LIMIT, LIMIT]`.

use vstd::prelude::*;

verus! {

/// The fixed-point scale: an `i64` value `x` stands for the real number `x / ONE`.
pub const ONE: i64 = 65536;

/// Coordinates and lengths are kept inside `[-LIMIT, LIMIT]`; this leaves
/// enough headroom that every intermediate `i128` product in the solver
/// provably fits.
pub const LIMIT: i64 = 0x20_0000_0000_0000;

/// Whether a mathematical value lies in the representable coordinate region.
pub open spec fn in_range(x: int) -> bool {
    -LIMIT <= x <= LIMIT
}

/// Truncating division (rounding toward zero), the meaning of the solver's
/// scalar division for a positive divisor.
pub open spec fn tdiv(a: int, b: int) -> int {
    if a >= 0 {
        a / b
    } else {
        -((-a) / b)
    }
}

/// Linear interpolation from `a` toward `b` by `rate` (a fixed-point fraction;
/// `ONE` reaches `b` exactly, `0` stays at `a`).
pub open spec fn lerp(a: int, b: int, rate: int) -> int {
    a + tdiv((b - a) * rate, ONE as int)
}

/// The integer square root: the greatest `r` with `r * r <= n` (0 for `n <= 0`).
pub open spec fn sqrt_floor(n: int) -> int
    decreases n,
{
    if n <= 0 {
        0
    } else {
        let r = sqrt_floor(n - 1);
        if (r + 1) * (r + 1) <= n {
            r + 1
        } else {
            r
        }
    }
}

pub proof fn lemma_sqrt_floor_bounds(n: int)
    requires
        n >= 0,
    ensures
        0 <= sqrt_floor(n),
        sqrt_floor(n) * sqrt_floor(n) <= n,
        n < (sqrt_floor(n) + 1) * (sqrt_floor(n) + 1),
    decreases n,
{
    if n == 0 {
    } else {
        lemma_sqrt_floor_bounds(n - 1);
        let rp = sqrt_floor(n - 1);
        if (rp + 1) * (rp + 1) <= n {
            assert(n - 1 < (rp + 1) * (rp + 1));
            assert(n == (rp + 1) * (rp + 1));
            assert((rp + 1) * (rp + 1) < (rp + 2) * (rp + 2)) by (nonlinear_arith)
                requires rp >= 0;
        }
    }
}

/// Any `r` that brackets `n` between `r * r` and `(r + 1) * (r + 1)` is the
/// integer square root of `n`.
pub proof fn lemma_sqrt_floor_unique(n: int, r: int)
    requires
        0 <= r,
        r * r <= n,
        n < (r + 1) * (r + 1),
    ensures
        sqrt_floor(n) == r,
{
    lemma_sqrt_floor_bounds(n);
    let s = sqrt_floor(n);
    if s < r {
        assert((s + 1) * (s + 1) <= r * r) by (nonlinear_arith)
            requires 0 <= s, s < r;
    }
    if r < s {
        assert((r + 1) * (r + 1) <= s * s) by (nonlinear_arith)
            requires 0 <= r, r < s;
    }
}

pub proof fn lemma_sqrt_floor_monotone(a: int, b: int)
    requires
        0 <= a <= b,
    ensures
        sqrt_floor(a) <= sqrt_floor(b),
{
    lemma_sqrt_floor_bounds(a);
    lemma_sqrt_floor_bounds(b);
    let ra = sqrt_floor(a);
    let rb = sqrt_floor(b);
    if rb < ra {
        assert((rb + 1) * (rb + 1) <= ra * ra) by (nonlinear_arith)
            requires 0 <= rb, rb < ra;
    }
}

/// The square root of a perfect square is its (nonnegative) root.
pub proof fn lemma_sqrt_floor_square(x: int)
    requires
        0 <= x,
    ensures
        sqrt_floor(x * x) == x,
{
    assert(x * x < (x + 1) * (x + 1)) by (nonlinear_arith)
        requires 0 <= x;
    lemma_sqrt_floor_unique(x * x, x);
}

/// The magnitude of a truncating quotient is bounded by the magnitude that the
/// numerator's factor `d` contributes when `|x| <= q`.
pub proof fn lemma_tdiv_scale_bound(x: int, d: int, q: int)
    requires
        q > 0,
        -q <= x <= q,
    ensures
        -(if d >= 0 { d } else { -d }) <= tdiv(d * x, q) <= (if d >= 0 { d } else { -d }),
{
    let p = d * x;
    let m = if d >= 0 { d } else { -d };
    assert(-(m * q) <= p <= m * q) by (nonlinear_arith)
        requires q > 0, -q <= x <= q, p == d * x, m == (if d >= 0 { d } else { -d });
    if p >= 0 {
        assert(p / q <= m) by (nonlinear_arith)
            requires q > 0, 0 <= p, p <= m * q;
        assert(p / q >= 0) by (nonlinear_arith)
            requires q > 0, 0 <= p;
    } else {
        assert((-p) / q <= m) by (nonlinear_arith)
            requires q > 0, 0 <= -p, -p <= m * q;
        assert((-p) / q >= 0) by (nonlinear_arith)
            requires q > 0, 0 <= -p;
    }
}

/// Dividing a product bound by the divisor bounds the truncating quotient.
pub proof fn lemma_tdiv_quotient_bound(p: int, q: int, m: int)
    requires
        q > 0,
        0 <= m,
        -(m * q) <= p <= m * q,
    ensures
        -m <= tdiv(p, q) <= m,
{
    if p >= 0 {
        assert(p / q <= m) by (nonlinear_arith)
            requires q > 0, 0 <= p, p <= m * q;
        assert(p / q >= 0) by (nonlinear_arith)
            requires q > 0, 0 <= p;
    } else {
        assert((-p) / q <= m) by (nonlinear_arith)
            requires q > 0, 0 <= -p, -p <= m * q;
        assert((-p) / q >= 0) by (nonlinear_arith)
            requires q > 0, 0 <= -p;
    }
}

/// A product of two bounded factors is bounded by the product of the bounds.
pub proof fn lemma_mul_abs_bound(a: int, b: int, ma: int, mb: int)
    requires
        -ma <= a <= ma,
        -mb <= b <= mb,
    ensures
        -(ma * mb) <= a * b <= ma * mb,
{
    assert(-(ma * mb) <= a * b <= ma * mb) by (nonlinear_arith)
        requires -ma <= a <= ma, -mb <= b <= mb;
}

/// Truncating division of an `i128` by a positive divisor.
pub fn div_trunc(a: i128, b: i128) -> (q: i128)
    requires
        b > 0,
        i128::MIN < a,
    ensures
        q == tdiv(a as int, b as int),
{
    if a >= 0 {
        a / b
    } else {
        let m = -a;
        -(m / b)
    }
}

/// The integer square root of a `u128`.
pub fn isqrt(n: u128) -> (r: u64)
    ensures
        r == sqrt_floor(n as int),
{
    let mut lo: u128 = 0;
    let mut hi: u128 = 0x1_0000_0000_0000_0000;
    proof {
        assert((0x1_0000_0000_0000_0000 as int) * (0x1_0000_0000_0000_0000 as int)
            == 0x1_0000_0000_0000_0000_0000_0000_0000_0000) by (nonlinear_arith);
    }
    while hi - lo > 1
        invariant
            lo < hi <= 0x1_0000_0000_0000_0000,
            lo * lo <= n,
            (n as int) < (hi as int) * (hi as int),
        decreases hi - lo,
    {
        let mid = lo + (hi - lo) / 2;
        assert(lo < mid < hi);
        proof {
            assert(mid * mid < 0x1_0000_0000_0000_0000_0000_0000_0000_0000) by (nonlinear_arith)
                requires mid <= 0xffff_ffff_ffff_ffffu128;
        }
        let sq = mid * mid;
        if sq <= n {
            lo = mid;
        } else {
            hi = mid;
        }
    }
    proof {
        assert(hi == lo + 1);
        lemma_sqrt_floor_unique(n as int, lo as int);
    }
    lo as u64
}

} // verus!
