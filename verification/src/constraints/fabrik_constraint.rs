//! The Fabrik constraint: drives a limb chain toward a target derived from
//! the parent's attachment point, with a hysteresis band that keeps the
//! target still under small parent motions, then pulls the chain taut with a
//! backward and a forward distance pass.

use vstd::prelude::*;

use crate::body::AttachmentPoint;
use crate::constraints::distance_constraint::{
    lemma_apply_distance_len, spec_apply_distance, Direction, DistanceConstraint,
};
use crate::fixed::{div_trunc, in_range, lemma_mul_abs_bound, tdiv, LIMIT, ONE};
use crate::heading::{compose, compose_exec, unit_from, Heading};
use crate::vec2::{all_bounded, bounded, dist_sq, pt, Vec2};
use crate::{first_err, SolverError};

verus! {

/// Drives a whole chain toward a moving target at a fixed distance and
/// relative angle from the parent's attachment point.
///
/// This is the only constraint carrying state across frames: the target the
/// chain currently reaches for, and the target it would prefer.
#[derive(Clone, Copy, Debug, PartialEq, Eq, Structural)]
pub struct FabrikConstraint {
    /// The inner forward distance pass (anchored at the pinned first joint).
    pub forward_distance_constraint: DistanceConstraint,
    /// The inner backward distance pass (anchored at the targeted last joint).
    pub backward_distance_constraint: DistanceConstraint,
    /// The angle of the target relative to the attachment point's angle.
    pub target_angle: Heading,
    /// The distance from the attachment point at which the target is placed,
    /// and the chain span beyond which the target must follow.
    pub target_distance: i64,
    /// How far the current target may drift from the preferred one before it
    /// is moved (the hysteresis band).
    pub max_distance: i64,
    /// The target the chain reaches for this frame.
    pub current_target_position: Vec2,
    /// The target the parent's current pose asks for.
    pub preferred_target_position: Vec2,
}

/// Plain data from which a [`FabrikConstraint`] is built.
#[derive(Clone, Copy, Debug, PartialEq, Eq, Structural)]
pub struct FabrikConstraintDescriptor {
    /// The distance between consecutive joints of the limb.
    pub joint_distance: i64,
    /// The fixed-point fraction applied by the backward distance pass.
    pub rate: i64,
    /// The angle of the target relative to the attachment point's angle.
    pub target_angle: Heading,
    /// The distance from the attachment point at which the target is placed.
    pub target_distance: i64,
    /// The hysteresis band around the preferred target.
    pub max_distance: i64,
}

impl Default for FabrikConstraintDescriptor {
    /// Joints ten units apart, a quarter-rate backward pass, the target
    /// straight ahead at twenty units, and a twenty-unit hysteresis band.
    fn default() -> (r: Self)
        ensures
            r.joint_distance == 10 * ONE,
            r.rate == ONE / 4,
            r.target_angle == (Heading { c: ONE, s: 0 }),
            r.target_distance == 20 * ONE,
            r.max_distance == 20 * ONE,
    {
        FabrikConstraintDescriptor {
            joint_distance: 10 * ONE,
            rate: ONE / 4,
            target_angle: Heading { c: ONE, s: 0 },
            target_distance: 20 * ONE,
            max_distance: 20 * ONE,
        }
    }
}

/// What building a [`FabrikConstraint`] from a descriptor yields: the target
/// angle is normalised, both targets start at the origin, and the two inner
/// distance passes share the joint distance (the forward one at full rate).
pub open spec fn fabrik_from_descriptor(d: FabrikConstraintDescriptor) -> FabrikConstraint {
    FabrikConstraint {
        forward_distance_constraint: DistanceConstraint {
            distance: d.joint_distance,
            direction: Direction::Forward,
            rate: ONE,
        },
        backward_distance_constraint: DistanceConstraint {
            distance: d.joint_distance,
            direction: Direction::Backwards,
            rate: d.rate,
        },
        target_angle: crate::heading::unit_dir(d.target_angle.c as int, d.target_angle.s as int),
        target_distance: d.target_distance,
        max_distance: d.max_distance,
        current_target_position: Vec2 { x: 0, y: 0 },
        preferred_target_position: Vec2 { x: 0, y: 0 },
    }
}

impl FabrikConstraint {
    /// Whether the constraint's state can take part in a solver step.
    pub open spec fn wf(self) -> bool {
        &&& self.target_angle.wf()
        &&& bounded(self.current_target_position)
        &&& bounded(self.preferred_target_position)
    }

    /// Builds the constraint from its descriptor; the target angle is
    /// normalised on construction, and both target positions start at the
    /// origin until the first step places them.
    pub fn new(descriptor: FabrikConstraintDescriptor) -> (r: Self)
        ensures
            r == fabrik_from_descriptor(descriptor),
            r.wf(),
    {
        let FabrikConstraintDescriptor {
            joint_distance,
            rate,
            target_angle,
            target_distance,
            max_distance,
        } = descriptor;
        FabrikConstraint {
            target_angle: unit_from(target_angle.c, target_angle.s),
            target_distance,
            max_distance,
            current_target_position: Vec2 { x: 0, y: 0 },
            preferred_target_position: Vec2 { x: 0, y: 0 },
            forward_distance_constraint: DistanceConstraint {
                distance: joint_distance,
                rate: ONE,
                direction: Direction::Forward,
            },
            backward_distance_constraint: DistanceConstraint {
                distance: joint_distance,
                rate,
                direction: Direction::Backwards,
            },
        }
    }
}

/// The preferred target the attachment point asks for: the point at
/// `target_distance` from the attachment position, in the direction of the
/// attachment angle turned by `target_angle`. Falls back to the previous
/// preferred target if the computed point leaves the representable region.
pub open spec fn fabrik_preferred(c: FabrikConstraint, ap: AttachmentPoint) -> (Vec2, Option<
    SolverError,
>) {
    let dir = compose(ap.angle, c.target_angle);
    let px = ap.position.x + tdiv(c.target_distance * dir.c, ONE as int);
    let py = ap.position.y + tdiv(c.target_distance * dir.s, ONE as int);
    if in_range(px) && in_range(py) {
        (pt(px, py), None)
    } else {
        (c.preferred_target_position, Some(SolverError::RangeExceeded))
    }
}

/// Whether the current target must move to the preferred one: it has drifted
/// out of the hysteresis band, or the chain's span (first to last joint)
/// exceeds the target distance.
pub open spec fn fabrik_must_retarget(
    c: FabrikConstraint,
    preferred: Vec2,
    first: Vec2,
    last: Vec2,
) -> bool {
    ||| c.max_distance < 0
    ||| dist_sq(c.current_target_position, preferred) > c.max_distance * c.max_distance
    ||| c.target_distance < 0
    ||| dist_sq(first, last) > c.target_distance * c.target_distance
}

/// What one application of the constraint yields: the updated constraint
/// state, the chain's new positions, and the first anomaly met.
///
/// Without an attachment point the constraint reports the missing parent and
/// leaves everything untouched; an empty chain is left untouched silently.
pub open spec fn spec_apply_fabrik(
    c: FabrikConstraint,
    ps: Seq<Vec2>,
    ap: Option<AttachmentPoint>,
) -> (FabrikConstraint, Seq<Vec2>, Option<SolverError>) {
    if ap is None {
        (c, ps, Some(SolverError::MissingAttachment))
    } else if ps.len() == 0 {
        (c, ps, None)
    } else {
        let ap = ap->0;
        let (preferred, e1) = fabrik_preferred(c, ap);
        let cur = if fabrik_must_retarget(c, preferred, ps[0], ps[ps.len() - 1]) {
            preferred
        } else {
            c.current_target_position
        };
        let ps1 = ps.update(ps.len() - 1, cur);
        let (ps2, e2) = spec_apply_distance(c.backward_distance_constraint, ps1);
        let ps3 = ps2.update(0, ap.position);
        let (ps4, e3) = spec_apply_distance(c.forward_distance_constraint, ps3);
        let c2 = FabrikConstraint {
            current_target_position: cur,
            preferred_target_position: preferred,
            ..c
        };
        (c2, ps4, first_err(e1, first_err(e2, e3)))
    }
}

impl FabrikConstraint {
    /// Applies the constraint: recomputes the preferred target, moves the
    /// current target only when the hysteresis or the chain's span demands
    /// it, pins the last joint to the current target, relaxes backward,
    /// re-pins the first joint to the attachment position, and relaxes
    /// forward.
    ///
    /// Called without an attachment point, the update is aborted and the
    /// missing parent is reported.
    pub fn apply(&mut self, positions: &mut Vec<Vec2>, attachment_point: Option<AttachmentPoint>) -> (e:
        Option<SolverError>)
        requires
            all_bounded(old(positions)@),
            old(self).wf(),
            attachment_point is Some ==> attachment_point->0.wf(),
        ensures
            (*final(self), final(positions)@, e) == spec_apply_fabrik(
                *old(self),
                old(positions)@,
                attachment_point,
            ),
            all_bounded(final(positions)@),
            final(self).wf(),
    {
        let ap = match attachment_point {
            None => {
                return Some(SolverError::MissingAttachment);
            },
            Some(ap) => ap,
        };
        let n = positions.len();
        if n == 0 {
            return None;
        }

        let dir = compose_exec(&ap.angle, &self.target_angle);
        let td: i128 = self.target_distance as i128;
        proof {
            lemma_mul_abs_bound(td as int, dir.c as int, 0x8000_0000_0000_0000, ONE as int);
            lemma_mul_abs_bound(td as int, dir.s as int, 0x8000_0000_0000_0000, ONE as int);
            crate::fixed::lemma_tdiv_scale_bound(dir.c as int, td as int, ONE as int);
            crate::fixed::lemma_tdiv_scale_bound(dir.s as int, td as int, ONE as int);
        }
        let px: i128 = ap.position.x as i128 + div_trunc(td * (dir.c as i128), ONE as i128);
        let py: i128 = ap.position.y as i128 + div_trunc(td * (dir.s as i128), ONE as i128);
        let mut err: Option<SolverError> = None;
        let preferred: Vec2 = if -LIMIT as i128 <= px && px <= LIMIT as i128 && -LIMIT as i128
            <= py && py <= LIMIT as i128 {
            Vec2 { x: px as i64, y: py as i64 }
        } else {
            err = Some(SolverError::RangeExceeded);
            self.preferred_target_position
        };

        let first = positions[0];
        let last = positions[n - 1];
        let drift_sq: i128 = self.current_target_position.distance_squared(&preferred);
        let span_sq: i128 = first.distance_squared(&last);
        proof {
            lemma_mul_abs_bound(
                self.max_distance as int,
                self.max_distance as int,
                0x8000_0000_0000_0000,
                0x8000_0000_0000_0000,
            );
            lemma_mul_abs_bound(
                self.target_distance as int,
                self.target_distance as int,
                0x8000_0000_0000_0000,
                0x8000_0000_0000_0000,
            );
        }
        let retarget = self.max_distance < 0 || drift_sq > (self.max_distance as i128) * (self.max_distance as i128)
            || self.target_distance < 0 || span_sq > (self.target_distance as i128) * (self.target_distance as i128);
        let cur = if retarget {
            preferred
        } else {
            self.current_target_position
        };

        positions.set(n - 1, cur);
        let ghost ps1 = positions@;
        let e2 = self.backward_distance_constraint.apply(positions);
        if err.is_none() {
            err = e2;
        }
        proof {
            lemma_apply_distance_len(self.backward_distance_constraint, ps1);
        }
        positions.set(0, ap.position);
        let ghost ps3 = positions@;
        let e3 = self.forward_distance_constraint.apply(positions);
        proof {
            lemma_apply_distance_len(self.forward_distance_constraint, ps3);
        }
        if err.is_none() {
            err = e3;
        }
        self.preferred_target_position = preferred;
        self.current_target_position = cur;
        err
    }
}

/// Applying a Fabrik constraint keeps the length of the chain.
pub proof fn lemma_apply_fabrik_len(c: FabrikConstraint, ps: Seq<Vec2>, ap: Option<AttachmentPoint>)
    ensures
        spec_apply_fabrik(c, ps, ap).1.len() == ps.len(),
{
    if ap is Some && ps.len() > 0 {
        let apv = ap->0;
        let (preferred, e1) = fabrik_preferred(c, apv);
        let cur = if fabrik_must_retarget(c, preferred, ps[0], ps[ps.len() - 1]) {
            preferred
        } else {
            c.current_target_position
        };
        let ps1 = ps.update(ps.len() - 1, cur);
        lemma_apply_distance_len(c.backward_distance_constraint, ps1);
        let ps2 = spec_apply_distance(c.backward_distance_constraint, ps1).0;
        let ps3 = ps2.update(0, ap->0.position);
        lemma_apply_distance_len(c.forward_distance_constraint, ps3);
    }
}

} // verus!
