//! Fixed-point 2-D points and the distance measures the constraints use.

use vstd::prelude::*;

use crate::fixed::{
    in_range, isqrt, lemma_mul_abs_bound, lemma_sqrt_floor_bounds, sqrt_floor, LIMIT,
};

verus! {

/// A world-space point or displacement, both coordinates in fixed-point units.
#[derive(Clone, Copy, Debug, PartialEq, Eq, Structural)]
pub struct Vec2 {
    pub x: i64,
    pub y: i64,
}

/// The squared length of the displacement `(x, y)`.
pub open spec fn sq_len(x: int, y: int) -> int {
    x * x + y * y
}

/// The squared distance between two points.
pub open spec fn dist_sq(a: Vec2, b: Vec2) -> int {
    sq_len(b.x - a.x, b.y - a.y)
}

/// The distance between two points, rounded down to a whole fixed-point unit.
pub open spec fn dist(a: Vec2, b: Vec2) -> int {
    sqrt_floor(dist_sq(a, b))
}

/// Whether both coordinates lie in the representable region.
pub open spec fn bounded(v: Vec2) -> bool {
    in_range(v.x as int) && in_range(v.y as int)
}

/// Whether every point of a chain lies in the representable region.
pub open spec fn all_bounded(ps: Seq<Vec2>) -> bool {
    forall|i: int| 0 <= i < ps.len() ==> bounded(#[trigger] ps[i])
}

/// The point with the given mathematical coordinates; meaningful only when
/// both fit the representable region.
pub open spec fn pt(x: int, y: int) -> Vec2 {
    Vec2 { x: x as i64, y: y as i64 }
}

pub proof fn lemma_sq_len_bound(x: int, y: int, m: int)
    requires
        0 <= m,
        -m <= x <= m,
        -m <= y <= m,
    ensures
        0 <= sq_len(x, y) <= 2 * m * m,
{
    assert(0 <= x * x <= m * m) by (nonlinear_arith)
        requires -m <= x <= m;
    assert(0 <= y * y <= m * m) by (nonlinear_arith)
        requires -m <= y <= m;
    assert(2 * m * m == m * m + m * m) by (nonlinear_arith);
}

/// Neither coordinate of a displacement exceeds the displacement's length.
pub proof fn lemma_coord_le_len(x: int, y: int)
    ensures
        sqrt_floor(sq_len(x, y)) >= (if x >= 0 { x } else { -x }),
        sqrt_floor(sq_len(x, y)) >= (if y >= 0 { y } else { -y }),
{
    let ax = if x >= 0 { x } else { -x };
    let ay = if y >= 0 { y } else { -y };
    assert(sq_len(x, y) >= ax * ax && sq_len(x, y) >= ay * ay) by (nonlinear_arith)
        requires ax == (if x >= 0 { x } else { -x }), ay == (if y >= 0 { y } else { -y });
    crate::fixed::lemma_sqrt_floor_square(ax);
    crate::fixed::lemma_sqrt_floor_square(ay);
    crate::fixed::lemma_sqrt_floor_monotone(ax * ax, sq_len(x, y));
    crate::fixed::lemma_sqrt_floor_monotone(ay * ay, sq_len(x, y));
}

impl Vec2 {
    /// The origin.
    pub fn zero() -> (r: Vec2)
        ensures
            r == (Vec2 { x: 0, y: 0 }),
    {
        Vec2 { x: 0, y: 0 }
    }

    /// Whether both coordinates lie in the representable region, decided at
    /// run time.
    pub fn is_bounded(&self) -> (r: bool)
        ensures
            r == bounded(*self),
    {
        -LIMIT <= self.x && self.x <= LIMIT && -LIMIT <= self.y && self.y <= LIMIT
    }

    /// The squared distance from `self` to `other`.
    pub fn distance_squared(&self, other: &Vec2) -> (r: i128)
        requires
            bounded(*self),
            bounded(*other),
        ensures
            r == dist_sq(*self, *other),
            0 <= r <= 0x2000_0000_0000_0000_0000_0000_0000,
    {
        let dx: i128 = other.x as i128 - self.x as i128;
        let dy: i128 = other.y as i128 - self.y as i128;
        proof {
            lemma_mul_abs_bound(dx as int, dx as int, 2 * LIMIT as int, 2 * LIMIT as int);
            lemma_mul_abs_bound(dy as int, dy as int, 2 * LIMIT as int, 2 * LIMIT as int);
            lemma_sq_len_bound(dx as int, dy as int, 2 * LIMIT as int);
        }
        dx * dx + dy * dy
    }

    /// The distance from `self` to `other`, rounded down.
    pub fn distance(&self, other: &Vec2) -> (r: i64)
        requires
            bounded(*self),
            bounded(*other),
        ensures
            r == dist(*self, *other),
            0 <= r,
    {
        let sq = self.distance_squared(other);
        proof {
            lemma_sqrt_floor_bounds(sq as int);
            let s = sqrt_floor(sq as int);
            assert(s < 0x100_0000_0000_0000) by (nonlinear_arith)
                requires
                    0 <= s,
                    s * s <= 0x2000_0000_0000_0000_0000_0000_0000;
        }
        isqrt(sq as u128) as i64
    }
}

} // verus!
