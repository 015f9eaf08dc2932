//! A constraint-based 2-D kinematic solver for articulated, tree-shaped
//! skeletons.
//!
//! A skeleton is a tree of [`body::Body`] values, each an ordered chain of
//! [`joint::Joint`]s with a list of [`constraints::Constraint`]s. Once per
//! frame, [`body::Body::apply_constraints`] relaxes every constraint, derives
//! each joint's orientation from the chain's new positions, pins every child
//! body to the attachment point computed from its parent joint, and recurses.
//!
//! All geometry is fixed-point integer arithmetic (see [`fixed`]), and every
//! step of the solver is mirrored exactly by a specification function, so the
//! whole per-frame update is a proved, deterministic function of its inputs.

use vstd::prelude::*;

pub mod body;
pub mod constraints;
pub mod fixed;
pub mod heading;
pub mod joint;
pub mod laws;
pub mod vec2;

verus! {

/// An anomaly reported by a solver step.
///
/// A step never panics: when the tree itself is malformed it is left
/// untouched, and when a single computed point would leave the representable
/// region that one update is skipped while the rest of the frame completes.
#[derive(Clone, Copy, Debug, PartialEq, Eq, Structural)]
pub enum SolverError {
    /// The tree (or the given attachment point) holds a scalar outside the
    /// representable region; the step did not run.
    InvalidState,
    /// A constraint that needs a parent attachment point ran without one;
    /// that constraint's update was aborted.
    MissingAttachment,
    /// A computed point left the representable region; the joints of that
    /// update were left unmoved.
    RangeExceeded,
}

/// Keeps the first of two optional anomalies, the one the solver met first.
pub open spec fn first_err(a: Option<SolverError>, b: Option<SolverError>) -> Option<SolverError> {
    if a is Some {
        a
    } else {
        b
    }
}

} // verus!
