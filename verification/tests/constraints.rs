use skeleton_solver::body::AttachmentPoint;
use skeleton_solver::constraints::{
    AngleConstraint, AngleConstraintDescriptor, Constraint, ConstraintDescriptor,
    DistanceConstraint, DistanceConstraintDescriptor, Direction, FabrikConstraint,
    FabrikConstraintDescriptor,
};
use skeleton_solver::fixed::{LIMIT, ONE};
use skeleton_solver::heading::Heading;
use skeleton_solver::vec2::Vec2;
use skeleton_solver::SolverError;

fn p(x: i64, y: i64) -> Vec2 {
    Vec2 { x, y }
}

fn east() -> Heading {
    Heading { c: ONE, s: 0 }
}

fn north() -> Heading {
    Heading { c: 0, s: ONE }
}

#[test]
fn distance_full_rate_snaps_to_the_bound() {
    // Two joints twenty units apart, bound ten, full rate: exactly ten after.
    let c = DistanceConstraint::new(DistanceConstraintDescriptor {
        distance: 10 * ONE,
        direction: Direction::Forward,
        rate: ONE,
    });
    let mut ps = vec![p(0, 0), p(20 * ONE, 0)];
    let e = c.apply(&mut ps);
    assert_eq!(e, None);
    assert_eq!(ps[0], p(0, 0));
    assert_eq!(ps[1], p(10 * ONE, 0));
}

#[test]
fn distance_half_rate_goes_halfway() {
    let c = DistanceConstraint::new(DistanceConstraintDescriptor {
        distance: 10 * ONE,
        direction: Direction::Forward,
        rate: ONE / 2,
    });
    let mut ps = vec![p(0, 0), p(20 * ONE, 0)];
    let e = c.apply(&mut ps);
    assert_eq!(e, None);
    assert_eq!(ps[1], p(15 * ONE, 0));
}

#[test]
fn distance_satisfied_chain_is_untouched() {
    let c = DistanceConstraint::new(DistanceConstraintDescriptor {
        distance: 10 * ONE,
        direction: Direction::Forward,
        rate: ONE,
    });
    let orig = vec![p(0, 0), p(7 * ONE, 0), p(7 * ONE, 3 * ONE), p(2 * ONE, 3 * ONE)];
    let mut ps = orig.clone();
    let e = c.apply(&mut ps);
    assert_eq!(e, None);
    assert_eq!(ps, orig);
}

#[test]
fn distance_never_pushes_apart() {
    // A compressed pair stays compressed: the constraint is one-sided.
    let c = DistanceConstraint::new(DistanceConstraintDescriptor {
        distance: 10 * ONE,
        direction: Direction::Backwards,
        rate: ONE,
    });
    let mut ps = vec![p(0, 0), p(ONE, 0)];
    let e = c.apply(&mut ps);
    assert_eq!(e, None);
    assert_eq!(ps, vec![p(0, 0), p(ONE, 0)]);
}

#[test]
fn distance_backwards_moves_the_earlier_joint() {
    let c = DistanceConstraint::new(DistanceConstraintDescriptor {
        distance: 10 * ONE,
        direction: Direction::Backwards,
        rate: ONE,
    });
    let mut ps = vec![p(0, 0), p(20 * ONE, 0)];
    let e = c.apply(&mut ps);
    assert_eq!(e, None);
    assert_eq!(ps[0], p(10 * ONE, 0));
    assert_eq!(ps[1], p(20 * ONE, 0));
}

#[test]
fn distance_short_chains_are_no_ops() {
    let c = DistanceConstraint::new(DistanceConstraintDescriptor::default());
    let mut empty: Vec<Vec2> = vec![];
    assert_eq!(c.apply(&mut empty), None);
    assert_eq!(empty.len(), 0);
    let mut single = vec![p(3, 4)];
    assert_eq!(c.apply(&mut single), None);
    assert_eq!(single, vec![p(3, 4)]);
}

#[test]
fn distance_overshoot_out_of_range_is_skipped() {
    // A rate far above one overshoots past the representable region; the
    // pair is left unmoved and the anomaly is reported.
    let c = DistanceConstraint::new(DistanceConstraintDescriptor {
        distance: ONE,
        direction: Direction::Forward,
        rate: 8 * ONE,
    });
    let mut ps = vec![p(LIMIT, 0), p(LIMIT - 4 * ONE, 0)];
    let e = c.apply(&mut ps);
    assert_eq!(e, Some(SolverError::RangeExceeded));
    assert_eq!(ps[1], p(LIMIT - 4 * ONE, 0));
}

#[test]
fn angle_straight_line_is_untouched() {
    // Three colinear joints bend by half a turn, which satisfies any
    // well-formed minimum.
    let c = AngleConstraint::new(AngleConstraintDescriptor { angle: north(), rate: ONE });
    let orig = vec![p(0, 0), p(10 * ONE, 0), p(20 * ONE, 0)];
    let mut ps = orig.clone();
    assert_eq!(c.apply(&mut ps), None);
    assert_eq!(ps, orig);
}

#[test]
fn angle_exactly_at_the_minimum_is_untouched() {
    // A right angle measured against a quarter-turn minimum: not corrected.
    let c = AngleConstraint::new(AngleConstraintDescriptor { angle: north(), rate: ONE });
    let orig = vec![p(0, 0), p(10 * ONE, 0), p(10 * ONE, 10 * ONE)];
    let mut ps = orig.clone();
    assert_eq!(c.apply(&mut ps), None);
    assert_eq!(ps, orig);
}

#[test]
fn angle_sharp_bend_is_opened_to_the_minimum() {
    // The chain doubles back on itself (bend of zero); at full rate the
    // third joint lands at a right angle from the first arm, at its old
    // distance from the middle joint.
    let c = AngleConstraint::new(AngleConstraintDescriptor { angle: north(), rate: ONE });
    let mut ps = vec![p(0, 0), p(10 * ONE, 0), p(5 * ONE, 0)];
    assert_eq!(c.apply(&mut ps), None);
    assert_eq!(ps[0], p(0, 0));
    assert_eq!(ps[1], p(10 * ONE, 0));
    assert_eq!(ps[2], p(10 * ONE, -5 * ONE));
    // Re-measuring the corrected bend finds it exactly at the minimum.
    let orig = ps.clone();
    assert_eq!(c.apply(&mut ps), None);
    assert_eq!(ps, orig);
}

#[test]
fn angle_correction_follows_the_bend_side() {
    // The same sharpness bent upward is opened upward: the turn follows the
    // sign of the window's cross product.
    let c = AngleConstraint::new(AngleConstraintDescriptor { angle: north(), rate: ONE });
    let mut ps = vec![p(0, 0), p(10 * ONE, 0), p(5 * ONE, 5 * ONE)];
    assert_eq!(c.apply(&mut ps), None);
    // The third joint lands a quarter turn from the first arm, upward, at
    // its old (rounded-down) distance from the middle joint.
    let old_arm = skeleton_solver::fixed::isqrt((50 * (ONE as u128) * (ONE as u128)) as u128);
    assert_eq!(ps[2], p(10 * ONE, old_arm as i64));
}

#[test]
fn angle_short_chains_are_no_ops() {
    let c = AngleConstraint::new(AngleConstraintDescriptor { angle: north(), rate: ONE });
    let mut two = vec![p(0, 0), p(ONE, ONE)];
    assert_eq!(c.apply(&mut two), None);
    assert_eq!(two, vec![p(0, 0), p(ONE, ONE)]);
}

#[test]
fn fabrik_without_attachment_fails_loudly() {
    let mut c = Constraint::new(ConstraintDescriptor::Fabrik(FabrikConstraintDescriptor::default()));
    let mut ps = vec![p(0, 0), p(10 * ONE, 0)];
    let e = c.apply(&mut ps, None);
    assert_eq!(e, Some(SolverError::MissingAttachment));
    // The aborted update left the chain exactly as it was.
    assert_eq!(ps, vec![p(0, 0), p(10 * ONE, 0)]);
}

#[test]
fn fabrik_empty_chain_is_a_no_op() {
    let mut c = FabrikConstraint::new(FabrikConstraintDescriptor::default());
    let mut ps: Vec<Vec2> = vec![];
    let ap = AttachmentPoint { position: p(0, 0), angle: east() };
    assert_eq!(c.apply(&mut ps, Some(ap)), None);
    assert_eq!(ps.len(), 0);
}

#[test]
fn fabrik_hysteresis_keeps_the_current_target() {
    // The preferred target equals the current one and the chain's span is
    // within the target distance: nothing retargets.
    let mut c = FabrikConstraint::new(FabrikConstraintDescriptor {
        joint_distance: 10 * ONE,
        rate: ONE,
        target_angle: east(),
        target_distance: 20 * ONE,
        max_distance: 20 * ONE,
    });
    c.current_target_position = p(25 * ONE, 0);
    let ap = AttachmentPoint { position: p(0, 0), angle: east() };
    // Preferred becomes (20, 0): five units from the current target, inside
    // the twenty-unit band; the span (zero) is inside the target distance.
    let mut ps = vec![p(0, 0)];
    assert_eq!(c.apply(&mut ps, Some(ap)), None);
    assert_eq!(c.preferred_target_position, p(20 * ONE, 0));
    assert_eq!(c.current_target_position, p(25 * ONE, 0));
}

#[test]
fn fabrik_retargets_when_drift_exceeds_the_band() {
    let mut c = FabrikConstraint::new(FabrikConstraintDescriptor {
        joint_distance: 10 * ONE,
        rate: ONE,
        target_angle: east(),
        target_distance: 20 * ONE,
        max_distance: 2 * ONE,
    });
    c.current_target_position = p(25 * ONE, 0);
    let ap = AttachmentPoint { position: p(0, 0), angle: east() };
    let mut ps = vec![p(0, 0)];
    assert_eq!(c.apply(&mut ps, Some(ap)), None);
    assert_eq!(c.current_target_position, p(20 * ONE, 0));
}

#[test]
fn fabrik_single_joint_ends_at_the_attachment_position() {
    let mut c = FabrikConstraint::new(FabrikConstraintDescriptor::default());
    let ap = AttachmentPoint { position: p(7 * ONE, 3 * ONE), angle: east() };
    let mut ps = vec![p(0, 0)];
    assert_eq!(c.apply(&mut ps, Some(ap)), None);
    assert_eq!(ps[0], p(7 * ONE, 3 * ONE));
}

#[test]
fn fabrik_pulls_the_chain_toward_the_target() {
    // A two-joint limb hanging at the origin, target twenty units east:
    // the last joint is pinned to the target, pulled back by the backward
    // pass at full rate, the first joint re-pinned, and spacing restored.
    let mut c = FabrikConstraint::new(FabrikConstraintDescriptor {
        joint_distance: 10 * ONE,
        rate: ONE,
        target_angle: east(),
        target_distance: 20 * ONE,
        max_distance: ONE,
    });
    let ap = AttachmentPoint { position: p(0, 0), angle: east() };
    let mut ps = vec![p(0, 0), p(0, 0)];
    assert_eq!(c.apply(&mut ps, Some(ap)), None);
    assert_eq!(c.current_target_position, p(20 * ONE, 0));
    // First joint back at the attachment, second at most ten units along.
    assert_eq!(ps[0], p(0, 0));
    assert_eq!(ps[1], p(10 * ONE, 0));
}

#[test]
fn constraint_descriptor_conversion_builds_the_sub_passes() {
    let c = Constraint::new(ConstraintDescriptor::Fabrik(FabrikConstraintDescriptor {
        joint_distance: 9 * ONE,
        rate: ONE / 4,
        target_angle: north(),
        target_distance: 18 * ONE,
        max_distance: 5 * ONE,
    }));
    match c {
        Constraint::Fabrik(f) => {
            assert_eq!(f.forward_distance_constraint.distance, 9 * ONE);
            assert_eq!(f.forward_distance_constraint.rate, ONE);
            assert_eq!(f.forward_distance_constraint.direction, Direction::Forward);
            assert_eq!(f.backward_distance_constraint.distance, 9 * ONE);
            assert_eq!(f.backward_distance_constraint.rate, ONE / 4);
            assert_eq!(f.backward_distance_constraint.direction, Direction::Backwards);
            assert_eq!(f.target_angle, north());
            assert_eq!(f.current_target_position, p(0, 0));
            assert_eq!(f.preferred_target_position, p(0, 0));
        },
        _ => panic!("expected the Fabrik variant"),
    }
}

#[test]
fn distance_squared_squares_the_bound() {
    let c = DistanceConstraint::new(DistanceConstraintDescriptor {
        distance: 10 * ONE,
        direction: Direction::Forward,
        rate: ONE,
    });
    assert_eq!(c.distance_squared(), (10 * ONE as i128) * (10 * ONE as i128));
}
