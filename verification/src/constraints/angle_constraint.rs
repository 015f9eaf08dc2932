//! The angle constraint: enforces a minimum bend angle at every interior
//! joint of a chain, so the chain curves smoothly instead of kinking.
//!
//! The minimum angle is carried as a [`Heading`] (its cosine and sine): a
//! bend of at least the minimum is exactly a cosine at most the minimum's
//! cosine, which the solver tests without ever producing an angle value.

use vstd::prelude::*;

use crate::fixed::{
    div_trunc, in_range, isqrt, lemma_sqrt_floor_bounds, lemma_tdiv_scale_bound, lerp, sqrt_floor,
    tdiv, LIMIT, ONE,
};
use crate::heading::{compose, compose_exec, rev, unit_dir, unit_from, Heading};

use crate::vec2::{all_bounded, bounded, pt, sq_len, Vec2};
use crate::{first_err, SolverError};

verus! {

/// Enforces a minimum bend angle between every three consecutive joints.
#[derive(Clone, Copy, Debug, PartialEq, Eq, Structural)]
pub struct AngleConstraint {
    /// The direction of the minimum bend angle; its cosine is the threshold.
    pub angle: Heading,
    /// The fixed-point fraction of the correction applied per step.
    pub rate: i64,
}

/// Plain data from which an [`AngleConstraint`] is built.
#[derive(Clone, Copy, Debug, PartialEq, Eq, Structural)]
pub struct AngleConstraintDescriptor {
    /// The direction of the minimum bend angle; its cosine is the threshold.
    pub angle: Heading,
    /// The fixed-point fraction of the correction applied per step.
    pub rate: i64,
}

impl AngleConstraint {
    /// Builds the constraint from its descriptor; the minimum-angle
    /// direction is normalised on construction.
    pub fn new(descriptor: AngleConstraintDescriptor) -> (r: Self)
        ensures
            r.angle == unit_dir(descriptor.angle.c as int, descriptor.angle.s as int),
            r.angle.wf(),
            r.rate == descriptor.rate,
    {
        let AngleConstraintDescriptor { angle, rate } = descriptor;
        Self { angle: unit_from(angle.c, angle.s), rate }
    }
}

/// Whether the bend at `b` between `a` and `c` already reaches the minimum:
/// the cosine of the bend (compared through the integer lengths) is at most
/// the minimum's cosine. Degenerate windows (a zero-length arm) count as
/// satisfied.
pub open spec fn bend_satisfied(a: Vec2, b: Vec2, c: Vec2, min: Heading) -> bool {
    let dot = (a.x - b.x) * (c.x - b.x) + (a.y - b.y) * (c.y - b.y);
    let la = sqrt_floor(sq_len(a.x - b.x, a.y - b.y));
    let lb = sqrt_floor(sq_len(c.x - b.x, c.y - b.y));
    dot * ONE <= min.c * la * lb
}

/// One window of the constraint: where the window's third joint ends up, and
/// the anomaly if its computed position left the representable region.
pub open spec fn window_step(a: Vec2, b: Vec2, c: Vec2, min: Heading, rate: int) -> (Vec2, Option<
    SolverError,
>) {
    if bend_satisfied(a, b, c, min) {
        (c, None)
    } else {
        let cross = (a.x - b.x) * (c.y - b.y) - (a.y - b.y) * (c.x - b.x);
        let lb = sqrt_floor(sq_len(c.x - b.x, c.y - b.y));
        let turn = if cross < 0 {
            rev(min)
        } else {
            min
        };
        let dir = compose(unit_dir(a.x - b.x, a.y - b.y), turn);
        let tx = b.x + tdiv(lb * dir.c, ONE as int);
        let ty = b.y + tdiv(lb * dir.s, ONE as int);
        if !(in_range(tx) && in_range(ty)) {
            (c, Some(SolverError::RangeExceeded))
        } else {
            let cx = lerp(c.x as int, tx, rate);
            let cy = lerp(c.y as int, ty, rate);
            if in_range(cx) && in_range(cy) {
                (pt(cx, cy), None)
            } else {
                (c, Some(SolverError::RangeExceeded))
            }
        }
    }
}

/// The positions after the first `k` windows of the pass (window `i` reads
/// joints `i`, `i + 1`, `i + 2` and may move joint `i + 2`), with the first
/// anomaly met.
pub open spec fn fold_angle(ps: Seq<Vec2>, min: Heading, rate: int, k: nat) -> (Seq<Vec2>, Option<
    SolverError,
>)
    decreases k,
{
    if k == 0 {
        (ps, None)
    } else {
        let (prev, e) = fold_angle(ps, min, rate, (k - 1) as nat);
        let i = k - 1;
        let (nc, e2) = window_step(prev[i], prev[i + 1], prev[i + 2], min, rate);
        (prev.update(i + 2, nc), first_err(e, e2))
    }
}

/// The number of three-joint windows a chain of `n` joints has.
pub open spec fn window_count(n: nat) -> nat {
    if n < 3 {
        0
    } else {
        (n - 2) as nat
    }
}

/// What applying the whole constraint to a chain of positions yields.
pub open spec fn spec_apply_angle(c: AngleConstraint, ps: Seq<Vec2>) -> (Seq<Vec2>, Option<
    SolverError,
>) {
    fold_angle(ps, c.angle, c.rate as int, window_count(ps.len()))
}

impl AngleConstraint {
    /// Corrects one window: if the bend at `b` is sharper than the minimum,
    /// moves `c` toward the point at `c`'s distance from `b` in the direction
    /// of `a`'s arm rotated by the minimum angle (turning whichever way the
    /// window already bends).
    fn apply_to_window(&self, a: Vec2, b: Vec2, c: Vec2) -> (r: (Vec2, Option<SolverError>))
        requires
            bounded(a),
            bounded(b),
            bounded(c),
            self.angle.wf(),
        ensures
            r == window_step(a, b, c, self.angle, self.rate as int),
            bounded(r.0),
    {
        let bax: i128 = a.x as i128 - b.x as i128;
        let bay: i128 = a.y as i128 - b.y as i128;
        let bcx: i128 = c.x as i128 - b.x as i128;
        let bcy: i128 = c.y as i128 - b.y as i128;
        proof {
            assert(0 <= bax * bax <= 0x1000_0000_0000_0000_0000_0000_0000 && 0 <= bay * bay
                <= 0x1000_0000_0000_0000_0000_0000_0000 && 0 <= bcx * bcx
                <= 0x1000_0000_0000_0000_0000_0000_0000 && 0 <= bcy * bcy
                <= 0x1000_0000_0000_0000_0000_0000_0000 && -0x1000_0000_0000_0000_0000_0000_0000
                <= bax * bcx <= 0x1000_0000_0000_0000_0000_0000_0000
                && -0x1000_0000_0000_0000_0000_0000_0000 <= bay * bcy
                <= 0x1000_0000_0000_0000_0000_0000_0000 && -0x1000_0000_0000_0000_0000_0000_0000
                <= bax * bcy <= 0x1000_0000_0000_0000_0000_0000_0000
                && -0x1000_0000_0000_0000_0000_0000_0000 <= bay * bcx
                <= 0x1000_0000_0000_0000_0000_0000_0000) by (nonlinear_arith)
                requires
                    -0x40_0000_0000_0000 <= bax <= 0x40_0000_0000_0000,
                    -0x40_0000_0000_0000 <= bay <= 0x40_0000_0000_0000,
                    -0x40_0000_0000_0000 <= bcx <= 0x40_0000_0000_0000,
                    -0x40_0000_0000_0000 <= bcy <= 0x40_0000_0000_0000;
        }
        let dot: i128 = bax * bcx + bay * bcy;
        let la_sq: i128 = bax * bax + bay * bay;
        let lb_sq: i128 = bcx * bcx + bcy * bcy;
        proof {
            lemma_sqrt_floor_bounds(la_sq as int);
            lemma_sqrt_floor_bounds(lb_sq as int);
            let la = sqrt_floor(la_sq as int);
            let lb = sqrt_floor(lb_sq as int);
            assert(la < 0x80_0000_0000_0000) by (nonlinear_arith)
                requires
                    0 <= la,
                    la * la <= 0x2000_0000_0000_0000_0000_0000_0000;
            assert(lb < 0x80_0000_0000_0000) by (nonlinear_arith)
                requires
                    0 <= lb,
                    lb * lb <= 0x2000_0000_0000_0000_0000_0000_0000;
        }
        let la: i128 = isqrt(la_sq as u128) as i128;
        let lb: i128 = isqrt(lb_sq as u128) as i128;
        proof {
            assert(0 <= la * lb <= 0x4000_0000_0000_0000_0000_0000_0000) by (nonlinear_arith)
                requires
                    0 <= la <= 0x80_0000_0000_0000,
                    0 <= lb <= 0x80_0000_0000_0000;
            assert(-0x4000_0000_0000_0000_0000_0000_0000_0000 <= self.angle.c * (la * lb)
                <= 0x4000_0000_0000_0000_0000_0000_0000_0000) by (nonlinear_arith)
                requires
                    -0x1_0000 <= self.angle.c <= 0x1_0000,
                    0 <= la * lb <= 0x4000_0000_0000_0000_0000_0000_0000;
            assert(self.angle.c * (la * lb) == self.angle.c * la * lb) by (nonlinear_arith);
            assert(-0x2000_0000_0000_0000_0000_0000_0000_0000 <= dot * (ONE as int)
                <= 0x2000_0000_0000_0000_0000_0000_0000_0000) by (nonlinear_arith)
                requires
                    -0x2000_0000_0000_0000_0000_0000_0000 <= dot <= 0x2000_0000_0000_0000_0000_0000_0000,
                    ONE == 65536;
        }
        if dot * (ONE as i128) <= (self.angle.c as i128) * (la * lb) {
            return (c, None);
        }
        let cross: i128 = bax * bcy - bay * bcx;
        let turn = if cross < 0 {
            self.angle.reversed()
        } else {
            self.angle
        };
        let base = unit_from((a.x - b.x) as i64, (a.y - b.y) as i64);
        let dir = compose_exec(&base, &turn);
        proof {
            lemma_tdiv_scale_bound(dir.c as int, lb as int, ONE as int);
            lemma_tdiv_scale_bound(dir.s as int, lb as int, ONE as int);
            assert(lb * dir.c == lb * dir.c && -0x100_0000_0000_0000_0000 <= lb * dir.c
                <= 0x100_0000_0000_0000_0000 && -0x100_0000_0000_0000_0000 <= lb * dir.s
                <= 0x100_0000_0000_0000_0000) by (nonlinear_arith)
                requires
                    0 <= lb <= 0x100_0000_0000_0000,
                    -0x1_0000 <= dir.c <= 0x1_0000,
                    -0x1_0000 <= dir.s <= 0x1_0000;
        }
        let tx: i128 = b.x as i128 + div_trunc(lb * (dir.c as i128), ONE as i128);
        let ty: i128 = b.y as i128 + div_trunc(lb * (dir.s as i128), ONE as i128);
        if !(-LIMIT as i128 <= tx && tx <= LIMIT as i128 && -LIMIT as i128 <= ty && ty
            <= LIMIT as i128) {
            return (c, Some(SolverError::RangeExceeded));
        }
        let rate: i128 = self.rate as i128;
        proof {
            assert(-0x8000_0000_0000_0000_0000_0000_0000_0000 < (tx - c.x) * rate
                < 0x8000_0000_0000_0000_0000_0000_0000_0000 && -0x8000_0000_0000_0000_0000_0000_0000_0000
                < (ty - c.y) * rate < 0x8000_0000_0000_0000_0000_0000_0000_0000) by (nonlinear_arith)
                requires
                    -0x80_0000_0000_0000 <= tx - c.x <= 0x80_0000_0000_0000,
                    -0x80_0000_0000_0000 <= ty - c.y <= 0x80_0000_0000_0000,
                    -0x8000_0000_0000_0000 <= rate <= 0x8000_0000_0000_0000;
        }
        let cx: i128 = c.x as i128 + div_trunc((tx - c.x as i128) * rate, ONE as i128);
        let cy: i128 = c.y as i128 + div_trunc((ty - c.y as i128) * rate, ONE as i128);
        if -LIMIT as i128 <= cx && cx <= LIMIT as i128 && -LIMIT as i128 <= cy && cy <= LIMIT
            as i128 {
            (Vec2 { x: cx as i64, y: cy as i64 }, None)
        } else {
            (c, Some(SolverError::RangeExceeded))
        }
    }

    /// Applies the constraint to a whole chain of positions, window by
    /// window from the chain's start. Chains of fewer than three joints are
    /// left untouched.
    pub fn apply(&self, positions: &mut Vec<Vec2>) -> (e: Option<SolverError>)
        requires
            all_bounded(old(positions)@),
            self.angle.wf(),
        ensures
            (final(positions)@, e) == spec_apply_angle(*self, old(positions)@),
            all_bounded(final(positions)@),
    {
        let n = positions.len();
        if n < 3 {
            return None;
        }
        let ghost orig = positions@;
        let mut err: Option<SolverError> = None;
        let mut i: usize = 0;
        while i < n - 2
            invariant
                3 <= n == orig.len(),
                positions@.len() == n,
                i <= n - 2,
                all_bounded(positions@),
                self.angle.wf(),
                (positions@, err) == fold_angle(orig, self.angle, self.rate as int, i as nat),
            decreases n - 2 - i,
        {
            let a = positions[i];
            let b = positions[i + 1];
            let c = positions[i + 2];
            let (nc, e2) = self.apply_to_window(a, b, c);
            positions.set(i + 2, nc);
            if err.is_none() {
                err = e2;
            }
            i = i + 1;
        }
        err
    }
}

/// A window pass keeps the length of the chain and never moves the first two
/// joints.
pub proof fn lemma_fold_angle_shape(ps: Seq<Vec2>, min: Heading, rate: int, k: nat)
    requires
        k + 2 <= ps.len() || k == 0,
    ensures
        fold_angle(ps, min, rate, k).0.len() == ps.len(),
        k + 2 <= ps.len() ==> fold_angle(ps, min, rate, k).0[0] == ps[0],
        k + 2 <= ps.len() && ps.len() >= 2 ==> fold_angle(ps, min, rate, k).0[1] == ps[1],
    decreases k,
{
    if k > 0 {
        lemma_fold_angle_shape(ps, min, rate, (k - 1) as nat);
    }
}

/// Applying an angle constraint keeps the length of the chain.
pub proof fn lemma_apply_angle_len(c: AngleConstraint, ps: Seq<Vec2>)
    ensures
        spec_apply_angle(c, ps).0.len() == ps.len(),
{
    lemma_fold_angle_shape(ps, c.angle, c.rate as int, window_count(ps.len()));
}

/// A bend of exactly a straight line (the two arms pointing in opposite
/// directions) satisfies any well-formed minimum, so the window is untouched.
pub proof fn lemma_straight_window_satisfied(a: Vec2, b: Vec2, c: Vec2, min: Heading)
    requires
        min.wf(),
        (a.x - b.x) * (c.y - b.y) - (a.y - b.y) * (c.x - b.x) == 0,
        (a.x - b.x) * (c.x - b.x) + (a.y - b.y) * (c.y - b.y) <= 0,
    ensures
        bend_satisfied(a, b, c, min),
{
    let ax = a.x - b.x;
    let ay = a.y - b.y;
    let cx = c.x - b.x;
    let cy = c.y - b.y;
    let dot = ax * cx + ay * cy;
    let cross = ax * cy - ay * cx;
    let lsa = sq_len(ax, ay);
    let lsb = sq_len(cx, cy);
    let p = ax * cx;
    let q = ay * cy;
    let r = ax * cy;
    let t = ay * cx;
    assert((p + q) * (p + q) == p * p + 2 * (p * q) + q * q) by (nonlinear_arith);
    assert((r - t) * (r - t) == r * r - 2 * (r * t) + t * t) by (nonlinear_arith);
    assert(p * q == r * t) by (nonlinear_arith)
        requires p == ax * cx, q == ay * cy, r == ax * cy, t == ay * cx;
    assert(p * p == (ax * ax) * (cx * cx)) by (nonlinear_arith)
        requires p == ax * cx;
    assert(q * q == (ay * ay) * (cy * cy)) by (nonlinear_arith)
        requires q == ay * cy;
    assert(r * r == (ax * ax) * (cy * cy)) by (nonlinear_arith)
        requires r == ax * cy;
    assert(t * t == (ay * ay) * (cx * cx)) by (nonlinear_arith)
        requires t == ay * cx;
    assert((ax * ax + ay * ay) * (cx * cx + cy * cy) == (ax * ax) * (cx * cx) + (ax * ax) * (cy
        * cy) + (ay * ay) * (cx * cx) + (ay * ay) * (cy * cy)) by (nonlinear_arith);
    assert(0 <= ax * ax + ay * ay && 0 <= cx * cx + cy * cy) by (nonlinear_arith);
    assert(dot * dot + cross * cross == lsa * lsb);
    let la = sqrt_floor(lsa);
    let lb = sqrt_floor(lsb);
    lemma_sqrt_floor_bounds(lsa);
    lemma_sqrt_floor_bounds(lsb);
    assert(la * lb <= -dot) by (nonlinear_arith)
        requires
            0 <= la,
            0 <= lb,
            la * la <= lsa,
            lb * lb <= lsb,
            dot <= 0,
            cross == 0,
            dot * dot + cross * cross == lsa * lsb;
    assert(dot * ONE <= min.c * la * lb) by (nonlinear_arith)
        requires
            -ONE <= min.c,
            0 <= la * lb,
            la * lb <= -dot,
            dot <= 0;
}

} // verus!
