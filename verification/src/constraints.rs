//! The constraint variants the solver applies to a chain of joints.

pub mod angle_constraint;
pub mod constraint;
pub mod distance_constraint;
pub mod fabrik_constraint;

pub use angle_constraint::{AngleConstraint, AngleConstraintDescriptor};
pub use constraint::{Constraint, ConstraintDescriptor};
pub use fabrik_constraint::{FabrikConstraint, FabrikConstraintDescriptor};
pub use distance_constraint::{Direction, DistanceConstraint, DistanceConstraintDescriptor};
