//! The closed set of constraint variants and their shared dispatch.
//!
//! Constraints form a tagged union rather than a trait object: the apply
//! contract is one exhaustive match, and every variant's behaviour is pinned
//! by its own specification function.

use vstd::prelude::*;

use crate::body::AttachmentPoint;
use crate::constraints::angle_constraint::{
    spec_apply_angle, AngleConstraint, AngleConstraintDescriptor,
};
use crate::constraints::distance_constraint::{
    spec_apply_distance, DistanceConstraint, DistanceConstraintDescriptor,
};
use crate::constraints::fabrik_constraint::{
    fabrik_from_descriptor, spec_apply_fabrik, FabrikConstraint, FabrikConstraintDescriptor,
};
use crate::heading::unit_dir;
use crate::vec2::{all_bounded, Vec2};
use crate::SolverError;

verus! {

/// A rule that repositions the joints of one body, applied once per step.
#[derive(Clone, Copy, Debug, PartialEq, Eq, Structural)]
pub enum Constraint {
    Distance(DistanceConstraint),
    Angle(AngleConstraint),
    Fabrik(FabrikConstraint),
}

/// Plain data from which one [`Constraint`] is built.
#[derive(Clone, Copy, Debug, PartialEq, Eq, Structural)]
pub enum ConstraintDescriptor {
    Distance(DistanceConstraintDescriptor),
    Angle(AngleConstraintDescriptor),
    Fabrik(FabrikConstraintDescriptor),
}

/// What building a [`Constraint`] from a descriptor yields; angle-valued
/// fields are normalised on the way in.
pub open spec fn constraint_from_descriptor(d: ConstraintDescriptor) -> Constraint {
    match d {
        ConstraintDescriptor::Distance(d) => Constraint::Distance(
            DistanceConstraint { distance: d.distance, direction: d.direction, rate: d.rate },
        ),
        ConstraintDescriptor::Angle(d) => Constraint::Angle(
            AngleConstraint { angle: unit_dir(d.angle.c as int, d.angle.s as int), rate: d.rate },
        ),
        ConstraintDescriptor::Fabrik(d) => Constraint::Fabrik(fabrik_from_descriptor(d)),
    }
}

/// What one application of a constraint yields: the constraint's new state
/// (only the Fabrik variant has any), the chain's new positions, and the
/// first anomaly met. Distance and angle constraints ignore the attachment
/// point.
pub open spec fn spec_apply_constraint(
    c: Constraint,
    ps: Seq<Vec2>,
    ap: Option<AttachmentPoint>,
) -> (Constraint, Seq<Vec2>, Option<SolverError>) {
    match c {
        Constraint::Distance(d) => {
            let (ps2, e) = spec_apply_distance(d, ps);
            (c, ps2, e)
        },
        Constraint::Angle(a) => {
            let (ps2, e) = spec_apply_angle(a, ps);
            (c, ps2, e)
        },
        Constraint::Fabrik(f) => {
            let (f2, ps2, e) = spec_apply_fabrik(f, ps, ap);
            (Constraint::Fabrik(f2), ps2, e)
        },
    }
}

/// Applying any constraint keeps the length of the chain.
pub proof fn lemma_apply_constraint_len(c: Constraint, ps: Seq<Vec2>, ap: Option<AttachmentPoint>)
    ensures
        spec_apply_constraint(c, ps, ap).1.len() == ps.len(),
{
    match c {
        Constraint::Distance(d) => crate::constraints::distance_constraint::lemma_apply_distance_len(
            d,
            ps,
        ),
        Constraint::Angle(a) => crate::constraints::angle_constraint::lemma_apply_angle_len(a, ps),
        Constraint::Fabrik(f) => crate::constraints::fabrik_constraint::lemma_apply_fabrik_len(
            f,
            ps,
            ap,
        ),
    }
}

impl Constraint {
    /// Whether the constraint's state can take part in a solver step.
    pub open spec fn wf(self) -> bool {
        match self {
            Constraint::Distance(_) => true,
            Constraint::Angle(a) => a.angle.wf(),
            Constraint::Fabrik(f) => f.wf(),
        }
    }

    /// Whether the constraint's state can take part in a solver step,
    /// decided at run time.
    pub fn is_wf(&self) -> (r: bool)
        ensures
            r == self.wf(),
    {
        match self {
            Constraint::Distance(_) => true,
            Constraint::Angle(a) => a.angle.is_wf(),
            Constraint::Fabrik(f) => f.target_angle.is_wf()
                && f.current_target_position.is_bounded()
                && f.preferred_target_position.is_bounded(),
        }
    }

    /// Builds the constraint its descriptor asks for.
    pub fn new(descriptor: ConstraintDescriptor) -> (r: Self)
        ensures
            r == constraint_from_descriptor(descriptor),
            r.wf(),
    {
        match descriptor {
            ConstraintDescriptor::Distance(d) => Constraint::Distance(DistanceConstraint::new(d)),
            ConstraintDescriptor::Angle(d) => Constraint::Angle(AngleConstraint::new(d)),
            ConstraintDescriptor::Fabrik(d) => Constraint::Fabrik(FabrikConstraint::new(d)),
        }
    }

    /// Applies the constraint to a chain of positions, dispatching on the
    /// variant.
    pub fn apply(&mut self, positions: &mut Vec<Vec2>, attachment_point: Option<AttachmentPoint>) -> (e:
        Option<SolverError>)
        requires
            all_bounded(old(positions)@),
            old(self).wf(),
            attachment_point is Some ==> attachment_point->0.wf(),
        ensures
            (*final(self), final(positions)@, e) == spec_apply_constraint(
                *old(self),
                old(positions)@,
                attachment_point,
            ),
            all_bounded(final(positions)@),
            final(self).wf(),
    {
        match self {
            Constraint::Distance(d) => d.apply(positions),
            Constraint::Angle(a) => a.apply(positions),
            Constraint::Fabrik(f) => f.apply(positions, attachment_point),
        }
    }
}

} // verus!
