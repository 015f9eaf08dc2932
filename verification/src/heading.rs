//! Orientations as fixed-point direction pairs.
//!
//! The solver never works with an angle except through its direction vector,
//! so an orientation is stored directly as the pair `(cos, sin)` scaled by
//! [`ONE`](crate::fixed::ONE). Adding two angles is then composing their
//! headings (a complex multiplication followed by renormalisation), and
//! negating an angle is mirroring the sine.

use vstd::prelude::*;

use crate::fixed::{
    div_trunc, isqrt, lemma_mul_abs_bound, lemma_sqrt_floor_bounds,
    lemma_sqrt_floor_monotone, lemma_tdiv_scale_bound, sqrt_floor, tdiv, LIMIT, ONE,
};
use crate::vec2::{lemma_coord_le_len, lemma_sq_len_bound, sq_len, Vec2};

verus! {

/// A direction: the cosine and sine of an orientation angle, scaled by `ONE`.
#[derive(Clone, Copy, Debug, PartialEq, Eq, Structural)]
pub struct Heading {
    pub c: i64,
    pub s: i64,
}

impl Heading {
    /// Whether the pair is a normalised direction (both components within one
    /// fixed-point unit).
    pub open spec fn wf(self) -> bool {
        -ONE <= self.c <= ONE && -ONE <= self.s <= ONE
    }

    /// The positive-x direction, the solver's fallback for degenerate
    /// (zero-length) displacements.
    pub fn x_axis() -> (r: Heading)
        ensures
            r == (Heading { c: ONE, s: 0 }),
            r.wf(),
    {
        Heading { c: ONE, s: 0 }
    }

    /// Whether the pair is a normalised direction, decided at run time.
    pub fn is_wf(&self) -> (r: bool)
        ensures
            r == self.wf(),
    {
        -ONE <= self.c && self.c <= ONE && -ONE <= self.s && self.s <= ONE
    }

    /// The direction of the opposite angle (the mirrored sine).
    pub fn reversed(&self) -> (r: Heading)
        requires
            self.wf(),
        ensures
            r == rev(*self),
            r.wf(),
    {
        Heading { c: self.c, s: -self.s }
    }
}

/// The heading of the opposite angle.
pub open spec fn rev(h: Heading) -> Heading {
    Heading { c: h.c, s: (-h.s) as i64 }
}

/// The normalised direction of the displacement `(x, y)`, falling back to the
/// positive-x axis when the displacement is zero.
pub open spec fn unit_dir(x: int, y: int) -> Heading {
    if x == 0 && y == 0 {
        Heading { c: ONE, s: 0 }
    } else {
        let d = sqrt_floor(sq_len(x, y));
        Heading { c: tdiv(x * ONE, d) as i64, s: tdiv(y * ONE, d) as i64 }
    }
}

/// The heading of the sum of the two angles: the complex product of the two
/// pairs, renormalised.
pub open spec fn compose(a: Heading, b: Heading) -> Heading {
    unit_dir(a.c * b.c - a.s * b.s, a.c * b.s + a.s * b.c)
}

/// The normalised direction is well-formed and is what `unit_dir` says.
pub proof fn lemma_unit_dir_wf(x: int, y: int)
    ensures
        unit_dir(x, y).wf(),
{
    if x == 0 && y == 0 {
    } else {
        let d = sqrt_floor(sq_len(x, y));
        assert(0 <= sq_len(x, y)) by (nonlinear_arith);
        lemma_sqrt_floor_bounds(sq_len(x, y));
        lemma_coord_le_len(x, y);
        assert(sq_len(x, y) >= 1) by (nonlinear_arith)
            requires !(x == 0 && y == 0), sq_len(x, y) == x * x + y * y;
        lemma_sqrt_floor_monotone(1, sq_len(x, y));
        assert(d >= 1);
        lemma_tdiv_scale_bound(x, ONE as int, d);
        lemma_tdiv_scale_bound(y, ONE as int, d);
        assert(x * ONE == ONE * x) by (nonlinear_arith);
        assert(y * ONE == ONE * y) by (nonlinear_arith);
    }
}

/// The normalised direction of any displacement.
pub fn unit_from(dx: i64, dy: i64) -> (h: Heading)
    ensures
        h == unit_dir(dx as int, dy as int),
        h.wf(),
{
    proof {
        lemma_unit_dir_wf(dx as int, dy as int);
    }
    if dx == 0 && dy == 0 {
        Heading { c: ONE, s: 0 }
    } else {
        let ax: u128 = if dx >= 0 {
            dx as u128
        } else {
            (-(dx as i128)) as u128
        };
        let ay: u128 = if dy >= 0 {
            dy as u128
        } else {
            (-(dy as i128)) as u128
        };
        proof {
            assert(0 <= ax * ax <= 0x4000_0000_0000_0000_0000_0000_0000_0000) by (nonlinear_arith)
                requires 0 <= ax <= 0x8000_0000_0000_0000u128;
            assert(0 <= ay * ay <= 0x4000_0000_0000_0000_0000_0000_0000_0000) by (nonlinear_arith)
                requires 0 <= ay <= 0x8000_0000_0000_0000u128;
            assert(ax * ax == (dx as int) * (dx as int) && ay * ay == (dy as int) * (dy as int))
                by (nonlinear_arith)
                requires
                    ax == (if dx >= 0 { dx as int } else { -(dx as int) }),
                    ay == (if dy >= 0 { dy as int } else { -(dy as int) });
        }
        let sq: u128 = ax * ax + ay * ay;
        proof {
            lemma_sqrt_floor_bounds(sq as int);
            let s = sqrt_floor(sq as int);
            assert(s < 0x2_0000_0000_0000_0000) by (nonlinear_arith)
                requires
                    0 <= s,
                    s * s <= 0x8000_0000_0000_0000_0000_0000_0000_0000;
            lemma_coord_le_len(dx as int, dy as int);
        }
        let d: i128 = isqrt(sq) as i128;
        let c = div_trunc((dx as i128) * (ONE as i128), d);
        let s = div_trunc((dy as i128) * (ONE as i128), d);
        proof {
            lemma_tdiv_scale_bound(dx as int, ONE as int, d as int);
            lemma_tdiv_scale_bound(dy as int, ONE as int, d as int);
            assert((dx as int) * ONE == ONE * (dx as int)) by (nonlinear_arith);
            assert((dy as int) * ONE == ONE * (dy as int)) by (nonlinear_arith);
        }
        Heading { c: c as i64, s: s as i64 }
    }
}

/// The normalised direction from point `a` to point `b`.
pub fn unit_between(a: &Vec2, b: &Vec2) -> (h: Heading)
    requires
        crate::vec2::bounded(*a),
        crate::vec2::bounded(*b),
    ensures
        h == unit_dir(b.x - a.x, b.y - a.y),
        h.wf(),
{
    let dx = b.x - a.x;
    let dy = b.y - a.y;
    unit_from(dx, dy)
}

/// The heading of the sum of the two angles.
pub fn compose_exec(a: &Heading, b: &Heading) -> (r: Heading)
    requires
        a.wf(),
        b.wf(),
    ensures
        r == compose(*a, *b),
        r.wf(),
{
    proof {
        lemma_mul_abs_bound(a.c as int, b.c as int, ONE as int, ONE as int);
        lemma_mul_abs_bound(a.s as int, b.s as int, ONE as int, ONE as int);
        lemma_mul_abs_bound(a.c as int, b.s as int, ONE as int, ONE as int);
        lemma_mul_abs_bound(a.s as int, b.c as int, ONE as int, ONE as int);
    }
    let x: i64 = a.c * b.c - a.s * b.s;
    let y: i64 = a.c * b.s + a.s * b.c;
    unit_from(x, y)
}

} // verus!
