//! The distance constraint: keeps consecutive joints from drifting further
//! apart than a target distance, pulling the moving joint of each pair toward
//! its anchor by linear interpolation.

use vstd::prelude::*;

use crate::fixed::{
    div_trunc, in_range, isqrt, lemma_sqrt_floor_bounds, lemma_tdiv_scale_bound, lerp, tdiv, LIMIT,
    ONE,
};
use crate::vec2::{all_bounded, bounded, dist_sq, lemma_coord_le_len, pt, sq_len, Vec2};
use crate::{first_err, SolverError};

verus! {

/// Which end of the chain anchors the relaxation pass.
#[derive(Clone, Copy, Debug, PartialEq, Eq, Structural)]
pub enum Direction {
    /// Walk pairs from the first joint to the last; each pair's earlier joint
    /// is the anchor and the later one moves.
    Forward,
    /// Walk pairs from the last joint to the first; each pair's later joint
    /// is the anchor and the earlier one moves.
    Backwards,
}

/// Pulls consecutive joints to at most `distance` apart, one pair at a time,
/// moving at `rate` (a fixed-point fraction of the full correction).
#[derive(Clone, Copy, Debug, PartialEq, Eq, Structural)]
pub struct DistanceConstraint {
    /// The largest allowed distance between consecutive joints.
    pub distance: i64,
    /// The direction in which the pairs are walked.
    pub direction: Direction,
    /// The fixed-point fraction of the correction applied per step.
    pub rate: i64,
}

/// Plain data from which a [`DistanceConstraint`] is built.
#[derive(Clone, Copy, Debug, PartialEq, Eq, Structural)]
pub struct DistanceConstraintDescriptor {
    /// The largest allowed distance between consecutive joints.
    pub distance: i64,
    /// The direction in which the pairs are walked.
    pub direction: Direction,
    /// The fixed-point fraction of the correction applied per step.
    pub rate: i64,
}

impl Default for DistanceConstraintDescriptor {
    /// One hundred units apart at most, corrected fully, walking forward.
    fn default() -> (r: Self)
        ensures
            r.distance == 100 * ONE,
            r.direction == Direction::Forward,
            r.rate == ONE,
    {
        DistanceConstraintDescriptor { distance: 100 * ONE, direction: Direction::Forward, rate: ONE }
    }
}

/// One pair of the relaxation: where the moving joint of a pair ends up, and
/// the anomaly if its computed position left the representable region.
///
/// A pair already within `d` of its anchor is left exactly as it is.
pub open spec fn pair_step(moving: Vec2, source: Vec2, d: int, rate: int) -> (Vec2, Option<
    SolverError,
>) {
    let dx = moving.x - source.x;
    let dy = moving.y - source.y;
    let dsq = sq_len(dx, dy);
    if dsq <= d * d {
        (moving, None)
    } else {
        let n = crate::fixed::sqrt_floor(dsq);
        let tx = source.x + tdiv(d * dx, n);
        let ty = source.y + tdiv(d * dy, n);
        if !(in_range(tx) && in_range(ty)) {
            (moving, Some(SolverError::RangeExceeded))
        } else {
            let cx = lerp(moving.x as int, tx, rate);
            let cy = lerp(moving.y as int, ty, rate);
            if in_range(cx) && in_range(cy) {
                (pt(cx, cy), None)
            } else {
                (moving, Some(SolverError::RangeExceeded))
            }
        }
    }
}

/// The positions after the first `k` pairs of a forward pass (pair `i` moves
/// joint `i + 1` toward joint `i`), with the first anomaly met.
pub open spec fn fold_forward(ps: Seq<Vec2>, d: int, rate: int, k: nat) -> (Seq<Vec2>, Option<
    SolverError,
>)
    decreases k,
{
    if k == 0 {
        (ps, None)
    } else {
        let (prev, e) = fold_forward(ps, d, rate, (k - 1) as nat);
        let i = k - 1;
        let (np, e2) = pair_step(prev[i + 1], prev[i], d, rate);
        (prev.update(i + 1, np), first_err(e, e2))
    }
}

/// The positions after the first `k` pairs of a backward pass (walking from
/// the chain's far end, pair `k` moves joint `len - 1 - k` toward joint
/// `len - k`), with the first anomaly met.
pub open spec fn fold_backward(ps: Seq<Vec2>, d: int, rate: int, k: nat) -> (Seq<Vec2>, Option<
    SolverError,
>)
    decreases k,
{
    if k == 0 {
        (ps, None)
    } else {
        let (prev, e) = fold_backward(ps, d, rate, (k - 1) as nat);
        let i = ps.len() - 1 - k;
        let (np, e2) = pair_step(prev[i], prev[i + 1], d, rate);
        (prev.update(i, np), first_err(e, e2))
    }
}

/// The number of pairs a chain of `n` joints has.
pub open spec fn pair_count(n: nat) -> nat {
    if n == 0 {
        0
    } else {
        (n - 1) as nat
    }
}

/// What applying the whole constraint to a chain of positions yields.
pub open spec fn spec_apply_distance(c: DistanceConstraint, ps: Seq<Vec2>) -> (Seq<Vec2>, Option<
    SolverError,
>) {
    match c.direction {
        Direction::Forward => fold_forward(ps, c.distance as int, c.rate as int, pair_count(ps.len())),
        Direction::Backwards => fold_backward(
            ps,
            c.distance as int,
            c.rate as int,
            pair_count(ps.len()),
        ),
    }
}

impl DistanceConstraint {
    /// Builds the constraint from its descriptor, field for field.
    pub fn new(descriptor: DistanceConstraintDescriptor) -> (r: Self)
        ensures
            r.distance == descriptor.distance,
            r.direction == descriptor.direction,
            r.rate == descriptor.rate,
    {
        let DistanceConstraintDescriptor { distance, direction, rate } = descriptor;
        Self { distance, direction, rate }
    }

    /// The square of the target distance, the threshold of the relaxation.
    pub fn distance_squared(&self) -> (r: i128)
        ensures
            r == self.distance * self.distance,
    {
        proof {
            crate::fixed::lemma_mul_abs_bound(
                self.distance as int,
                self.distance as int,
                0x8000_0000_0000_0000,
                0x8000_0000_0000_0000,
            );
        }
        (self.distance as i128) * (self.distance as i128)
    }

    /// Relaxes one pair: moves `moving` toward `source` if the two are
    /// further than the target distance apart.
    fn apply_to_pair(&self, moving: Vec2, source: Vec2) -> (r: (Vec2, Option<SolverError>))
        requires
            bounded(moving),
            bounded(source),
        ensures
            r == pair_step(moving, source, self.distance as int, self.rate as int),
            bounded(r.0),
    {
        let dx: i128 = moving.x as i128 - source.x as i128;
        let dy: i128 = moving.y as i128 - source.y as i128;
        proof {
            assert(0 <= dx * dx <= 0x1000_0000_0000_0000_0000_0000_0000) by (nonlinear_arith)
                requires -0x40_0000_0000_0000 <= dx <= 0x40_0000_0000_0000;
            assert(0 <= dy * dy <= 0x1000_0000_0000_0000_0000_0000_0000) by (nonlinear_arith)
                requires -0x40_0000_0000_0000 <= dy <= 0x40_0000_0000_0000;
        }
        let dsq: i128 = dx * dx + dy * dy;
        let tsq: i128 = self.distance_squared();
        if dsq <= tsq {
            return (moving, None);
        }
        proof {
            assert(0 <= tsq) by (nonlinear_arith)
                requires tsq == self.distance * self.distance;
            lemma_sqrt_floor_bounds(dsq as int);
            let n = crate::fixed::sqrt_floor(dsq as int);
            assert(n < 0x100_0000_0000_0000) by (nonlinear_arith)
                requires
                    0 <= n,
                    n * n <= 0x2000_0000_0000_0000_0000_0000_0000;
            if n == 0 {
                assert((n + 1) * (n + 1) == 1) by (nonlinear_arith)
                    requires n == 0;
            }
            lemma_coord_le_len(dx as int, dy as int);
        }
        let n: i128 = isqrt(dsq as u128) as i128;
        let d: i128 = self.distance as i128;
        proof {
            assert(-0x8000_0000_0000_0000_0000_0000_0000_0000 < d * dx
                < 0x8000_0000_0000_0000_0000_0000_0000_0000) by (nonlinear_arith)
                requires
                    -0x8000_0000_0000_0000 <= d <= 0x8000_0000_0000_0000,
                    -0x40_0000_0000_0000 <= dx <= 0x40_0000_0000_0000;
            assert(-0x8000_0000_0000_0000_0000_0000_0000_0000 < d * dy
                < 0x8000_0000_0000_0000_0000_0000_0000_0000) by (nonlinear_arith)
                requires
                    -0x8000_0000_0000_0000 <= d <= 0x8000_0000_0000_0000,
                    -0x40_0000_0000_0000 <= dy <= 0x40_0000_0000_0000;
            lemma_tdiv_scale_bound(dx as int, d as int, n as int);
            lemma_tdiv_scale_bound(dy as int, d as int, n as int);
        }
        let tx: i128 = source.x as i128 + div_trunc(d * dx, n);
        let ty: i128 = source.y as i128 + div_trunc(d * dy, n);
        if !(-LIMIT as i128 <= tx && tx <= LIMIT as i128 && -LIMIT as i128 <= ty && ty
            <= LIMIT as i128) {
            return (moving, Some(SolverError::RangeExceeded));
        }
        let rate: i128 = self.rate as i128;
        proof {
            assert(-0x8000_0000_0000_0000_0000_0000_0000_0000 < (tx - moving.x) * rate
                < 0x8000_0000_0000_0000_0000_0000_0000_0000) by (nonlinear_arith)
                requires
                    -0x80_0000_0000_0000 <= tx - moving.x <= 0x80_0000_0000_0000,
                    -0x8000_0000_0000_0000 <= rate <= 0x8000_0000_0000_0000;
            assert(-0x8000_0000_0000_0000_0000_0000_0000_0000 < (ty - moving.y) * rate
                < 0x8000_0000_0000_0000_0000_0000_0000_0000) by (nonlinear_arith)
                requires
                    -0x80_0000_0000_0000 <= ty - moving.y <= 0x80_0000_0000_0000,
                    -0x8000_0000_0000_0000 <= rate <= 0x8000_0000_0000_0000;
        }
        let cx: i128 = moving.x as i128 + div_trunc((tx - moving.x as i128) * rate, ONE as i128);
        let cy: i128 = moving.y as i128 + div_trunc((ty - moving.y as i128) * rate, ONE as i128);
        if -LIMIT as i128 <= cx && cx <= LIMIT as i128 && -LIMIT as i128 <= cy && cy <= LIMIT
            as i128 {
            (Vec2 { x: cx as i64, y: cy as i64 }, None)
        } else {
            (moving, Some(SolverError::RangeExceeded))
        }
    }

    /// Applies the constraint to a whole chain of positions, pair by pair in
    /// the constraint's direction. Chains of fewer than two joints are left
    /// untouched.
    pub fn apply(&self, positions: &mut Vec<Vec2>) -> (e: Option<SolverError>)
        requires
            all_bounded(old(positions)@),
        ensures
            (final(positions)@, e) == spec_apply_distance(*self, old(positions)@),
            all_bounded(final(positions)@),
    {
        let n = positions.len();
        if n < 2 {
            return None;
        }
        let ghost orig = positions@;
        let mut err: Option<SolverError> = None;
        match self.direction {
            Direction::Forward => {
                let mut i: usize = 0;
                while i < n - 1
                    invariant
                        2 <= n == orig.len(),
                        positions@.len() == n,
                        i <= n - 1,
                        all_bounded(positions@),
                        (positions@, err) == fold_forward(
                            orig,
                            self.distance as int,
                            self.rate as int,
                            i as nat,
                        ),
                    decreases n - 1 - i,
                {
                    let source = positions[i];
                    let moving = positions[i + 1];
                    let (np, e2) = self.apply_to_pair(moving, source);
                    positions.set(i + 1, np);
                    if err.is_none() {
                        err = e2;
                    }
                    i = i + 1;
                }
                err
            },
            Direction::Backwards => {
                let mut k: usize = 0;
                while k < n - 1
                    invariant
                        2 <= n == orig.len(),
                        positions@.len() == n,
                        k <= n - 1,
                        all_bounded(positions@),
                        (positions@, err) == fold_backward(
                            orig,
                            self.distance as int,
                            self.rate as int,
                            k as nat,
                        ),
                    decreases n - 1 - k,
                {
                    let i = n - 2 - k;
                    let source = positions[i + 1];
                    let moving = positions[i];
                    let (np, e2) = self.apply_to_pair(moving, source);
                    positions.set(i, np);
                    if err.is_none() {
                        err = e2;
                    }
                    k = k + 1;
                }
                err
            },
        }
    }
}

/// A fold pass keeps the length of the chain.
pub proof fn lemma_fold_len(ps: Seq<Vec2>, d: int, rate: int, k: nat, forward: bool)
    requires
        k < ps.len() || k == 0,
    ensures
        forward ==> fold_forward(ps, d, rate, k).0.len() == ps.len(),
        !forward ==> fold_backward(ps, d, rate, k).0.len() == ps.len(),
    decreases k,
{
    if k > 0 {
        lemma_fold_len(ps, d, rate, (k - 1) as nat, forward);
    }
}

/// Applying a distance constraint keeps the length of the chain.
pub proof fn lemma_apply_distance_len(c: DistanceConstraint, ps: Seq<Vec2>)
    ensures
        spec_apply_distance(c, ps).0.len() == ps.len(),
{
    match c.direction {
        Direction::Forward => lemma_fold_len(
            ps,
            c.distance as int,
            c.rate as int,
            pair_count(ps.len()),
            true,
        ),
        Direction::Backwards => lemma_fold_len(
            ps,
            c.distance as int,
            c.rate as int,
            pair_count(ps.len()),
            false,
        ),
    }
}

/// A forward pass never moves the first joint; a backward pass never moves
/// the last.
pub proof fn lemma_fold_anchor(ps: Seq<Vec2>, d: int, rate: int, k: nat, forward: bool)
    requires
        k < ps.len(),
    ensures
        forward ==> fold_forward(ps, d, rate, k).0[0] == ps[0],
        !forward ==> fold_backward(ps, d, rate, k).0[ps.len() - 1] == ps[ps.len() - 1],
    decreases k,
{
    if k > 0 {
        lemma_fold_anchor(ps, d, rate, (k - 1) as nat, forward);
        lemma_fold_len(ps, d, rate, (k - 1) as nat, forward);
    }
}

/// If every consecutive pair of the chain already satisfies the bound, a pass
/// in either direction changes nothing and reports nothing.
pub proof fn lemma_fold_idempotent(ps: Seq<Vec2>, d: int, rate: int, k: nat, forward: bool)
    requires
        k < ps.len() || k == 0,
        forall|i: int|
            0 <= i < ps.len() - 1 ==> dist_sq(#[trigger] ps[i], ps[i + 1]) <= d * d,
    ensures
        forward ==> fold_forward(ps, d, rate, k) == (ps, Option::<SolverError>::None),
        !forward ==> fold_backward(ps, d, rate, k) == (ps, Option::<SolverError>::None),
    decreases k,
{
    if k > 0 {
        lemma_fold_idempotent(ps, d, rate, (k - 1) as nat, forward);
        if forward {
            let i = k - 1;
            assert(dist_sq(ps[i], ps[i + 1]) <= d * d);
            assert(ps.update(i + 1, ps[i + 1]) =~= ps);
        } else {
            let i = ps.len() - 1 - k;
            assert(dist_sq(ps[i], ps[i + 1]) <= d * d);
            let ax = ps[i].x - ps[i + 1].x;
            let bx = ps[i + 1].x - ps[i].x;
            let ay = ps[i].y - ps[i + 1].y;
            let by = ps[i + 1].y - ps[i].y;
            assert(ax * ax == bx * bx && ay * ay == by * by) by (nonlinear_arith)
                requires ax == -bx, ay == -by;
            assert(sq_len(ax, ay) == dist_sq(ps[i], ps[i + 1]));
            assert(ps.update(i, ps[i]) =~= ps);
        }
    }
}

} // verus!
