use skeleton_solver::body::{AttachmentPoint, Body, BodyDescriptor, Rgba, Side};
use skeleton_solver::constraints::{
    ConstraintDescriptor, Direction, DistanceConstraintDescriptor, FabrikConstraintDescriptor,
};
use skeleton_solver::fixed::{LIMIT, ONE};
use skeleton_solver::heading::Heading;
use skeleton_solver::joint::{Joint, JointDescriptor};
use skeleton_solver::vec2::Vec2;
use skeleton_solver::SolverError;

fn p(x: i64, y: i64) -> Vec2 {
    Vec2 { x, y }
}

fn east() -> Heading {
    Heading { c: ONE, s: 0 }
}

/// A plain chain of `n` joints with one forward distance constraint.
fn chain(n: usize, distance: i64) -> Body {
    let mut d = BodyDescriptor::default();
    for _ in 0..n {
        d.joints.push(JointDescriptor::default());
    }
    let d = d.with_constraint(ConstraintDescriptor::Distance(DistanceConstraintDescriptor {
        distance,
        direction: Direction::Forward,
        rate: ONE,
    }));
    Body::new(d)
}

#[test]
fn conversion_starts_every_joint_at_the_origin() {
    let mut jd = JointDescriptor::default();
    jd.radius = 7 * ONE;
    let mut d = BodyDescriptor::default();
    d.joints.push(jd);
    let b = Body::new(d);
    assert_eq!(b.joints.len(), 1);
    assert_eq!(b.joints[0].pos, p(0, 0));
    assert_eq!(b.joints[0].radius, 7 * ONE);
    assert_eq!(b.joints[0].angle, east());
    assert!(b.is_well_formed());
}

#[test]
fn conversion_copies_presentation_fields() {
    let mut d = BodyDescriptor::default();
    d.line_color = Rgba { r: 1, g: 2, b: 3, a: 4 };
    d.fill_color = Rgba { r: 9, g: 8, b: 7, a: 6 };
    d.line_thickness = 3 * ONE;
    d.side = Side::Back;
    d.attachment_offset = ONE / 2;
    let b = Body::new(d);
    assert_eq!(b.line_color, Rgba { r: 1, g: 2, b: 3, a: 4 });
    assert_eq!(b.fill_color, Rgba { r: 9, g: 8, b: 7, a: 6 });
    assert_eq!(b.line_thickness, 3 * ONE);
    assert_eq!(b.side, Side::Back);
    assert_eq!(b.attachment_offset, ONE / 2);
}

#[test]
fn conversion_normalises_the_attachment_angle() {
    let mut d = BodyDescriptor::default();
    // An unnormalised north-ish direction comes out as a unit north.
    d.attachment_angle = Heading { c: 0, s: 12345678 };
    let b = Body::new(d);
    assert_eq!(b.attachment_angle, Heading { c: 0, s: ONE });
}

#[test]
fn step_applies_the_distance_constraint() {
    let mut b = chain(2, 10 * ONE);
    b.joints[0].pos = p(0, 0);
    b.joints[1].pos = p(20 * ONE, 0);
    assert_eq!(b.apply_constraints(None), Ok(()));
    assert_eq!(b.joints[0].pos, p(0, 0));
    assert_eq!(b.joints[1].pos, p(10 * ONE, 0));
}

#[test]
fn step_derives_the_joint_angles() {
    let mut b = chain(3, 100 * ONE);
    b.joints[0].pos = p(0, 0);
    b.joints[1].pos = p(10 * ONE, 0);
    b.joints[2].pos = p(10 * ONE, 10 * ONE);
    assert_eq!(b.apply_constraints(None), Ok(()));
    // Joint 1 points from joint 0 to joint 1 (east), joint 2 north.
    assert_eq!(b.joints[1].angle, Heading { c: ONE, s: 0 });
    assert_eq!(b.joints[2].angle, Heading { c: 0, s: ONE });
}

#[test]
fn step_copies_the_second_angle_to_the_first() {
    let mut b = chain(2, 100 * ONE);
    b.joints[0].pos = p(0, 0);
    b.joints[1].pos = p(0, 5 * ONE);
    assert_eq!(b.apply_constraints(None), Ok(()));
    assert_eq!(b.joints[0].angle, b.joints[1].angle);
    assert_eq!(b.joints[0].angle, Heading { c: 0, s: ONE });
}

#[test]
fn step_pins_children_to_their_attachment_points() {
    // A child with a full-radius offset straight ahead of a joint of radius
    // two units, on a chain pointing east: pinned exactly two units east of
    // the joint's centre.
    let mut child = BodyDescriptor::default();
    child.joints.push(JointDescriptor::default());
    child.attachment_offset = ONE;
    let mut jd = JointDescriptor::default();
    jd.radius = 2 * ONE;
    jd.bodies.push(child);
    let mut d = BodyDescriptor::default();
    d.joints.push(jd);
    d.joints.push(JointDescriptor::default());
    let mut b = Body::new(d);
    b.joints[0].pos = p(10 * ONE, 0);
    b.joints[1].pos = p(20 * ONE, 0);
    assert_eq!(b.apply_constraints(None), Ok(()));
    // The parent joint points east, so the child hangs at x + 2.
    assert_eq!(b.joints[0].angle, east());
    assert_eq!(b.joints[0].bodies[0].joints[0].pos, p(12 * ONE, 0));
}

#[test]
fn step_pins_a_zero_offset_child_to_the_joint_centre() {
    let mut child = BodyDescriptor::default();
    child.joints.push(JointDescriptor::default());
    let mut jd = JointDescriptor::default();
    jd.bodies.push(child);
    let mut d = BodyDescriptor::default();
    d.joints.push(jd);
    d.joints.push(JointDescriptor::default());
    let mut b = Body::new(d);
    b.joints[0].pos = p(3 * ONE, 4 * ONE);
    b.joints[1].pos = p(13 * ONE, 4 * ONE);
    assert_eq!(b.apply_constraints(None), Ok(()));
    assert_eq!(b.joints[0].bodies[0].joints[0].pos, p(3 * ONE, 4 * ONE));
}

#[test]
fn step_pins_grandchildren_through_inherited_angles() {
    // A child pinned at its parent joint's centre, and a grandchild pinned
    // at the child's first joint: pinning propagates down the whole tree in
    // one step.
    let mut grandchild = BodyDescriptor::default();
    grandchild.joints.push(JointDescriptor::default());
    let mut child_joint = JointDescriptor::default();
    child_joint.bodies.push(grandchild);
    let mut child = BodyDescriptor::default();
    child.joints.push(child_joint);
    child.joints.push(JointDescriptor::default());
    let mut jd = JointDescriptor::default();
    jd.bodies.push(child);
    let mut d = BodyDescriptor::default();
    d.joints.push(jd);
    d.joints.push(JointDescriptor::default());
    let mut b = Body::new(d);
    b.joints[0].pos = p(4 * ONE, 2 * ONE);
    b.joints[1].pos = p(14 * ONE, 2 * ONE);
    assert_eq!(b.apply_constraints(None), Ok(()));
    let child = &b.joints[0].bodies[0];
    assert_eq!(child.joints[0].pos, p(4 * ONE, 2 * ONE));
    let grandchild = &child.joints[0].bodies[0];
    assert_eq!(grandchild.joints[0].pos, p(4 * ONE, 2 * ONE));
}

#[test]
fn step_reports_a_missing_attachment_at_the_root() {
    // A Fabrik constraint on the root body has no parent to follow: the
    // step completes but reports the contract violation.
    let mut d = BodyDescriptor::default();
    d.joints.push(JointDescriptor::default());
    let d = d.with_constraint(ConstraintDescriptor::Fabrik(FabrikConstraintDescriptor::default()));
    let mut b = Body::new(d);
    assert_eq!(b.apply_constraints(None), Err(SolverError::MissingAttachment));
}

#[test]
fn step_rejects_an_out_of_range_tree_untouched() {
    let mut b = chain(2, 10 * ONE);
    b.joints[1].pos = p(LIMIT + 1, 0);
    assert_eq!(b.apply_constraints(None), Err(SolverError::InvalidState));
    // Nothing moved.
    assert_eq!(b.joints[0].pos, p(0, 0));
    assert_eq!(b.joints[1].pos, p(LIMIT + 1, 0));
}

#[test]
fn step_rejects_a_malformed_attachment_point() {
    let mut b = chain(2, 10 * ONE);
    let ap = AttachmentPoint { position: p(0, 0), angle: Heading { c: 5 * ONE, s: 0 } };
    assert_eq!(b.apply_constraints(Some(ap)), Err(SolverError::InvalidState));
}

#[test]
fn step_pins_the_first_joint_to_a_given_attachment() {
    let mut b = chain(2, 100 * ONE);
    b.joints[1].pos = p(10 * ONE, 0);
    let ap = AttachmentPoint { position: p(5 * ONE, 5 * ONE), angle: east() };
    assert_eq!(b.apply_constraints(Some(ap)), Ok(()));
    assert_eq!(b.joints[0].pos, p(5 * ONE, 5 * ONE));
}

#[test]
fn repeated_runs_are_bit_for_bit_identical() {
    let build = || {
        let mut child = BodyDescriptor::default();
        child.joints.push(JointDescriptor::default());
        child.joints.push(JointDescriptor::default());
        child.attachment_offset = ONE / 3;
        let child = child.with_constraint(ConstraintDescriptor::Fabrik(
            FabrikConstraintDescriptor::default(),
        ));
        let mut jd = JointDescriptor::default();
        jd.bodies.push(child);
        let mut d = BodyDescriptor::default();
        d.joints.push(JointDescriptor::default());
        d.joints.push(jd);
        d.joints.push(JointDescriptor::default());
        Body::new(d.with_constraint(ConstraintDescriptor::Distance(
            DistanceConstraintDescriptor::default(),
        )))
    };
    let drive = |b: &mut Body, frame: i64| {
        b.joints[0].pos = p(frame * 3 * ONE, frame * ONE);
        let _ = b.apply_constraints(None);
    };
    let mut b1 = build();
    let mut b2 = build();
    for frame in 0..10 {
        drive(&mut b1, frame);
        drive(&mut b2, frame);
        assert!(same_tree(&b1, &b2));
    }
}

/// Compares every joint's pose and every child, field for field.
fn same_tree(a: &Body, b: &Body) -> bool {
    if a.joints.len() != b.joints.len() {
        return false;
    }
    for (ja, jb) in a.joints.iter().zip(b.joints.iter()) {
        if ja.pos != jb.pos || ja.angle != jb.angle || ja.radius != jb.radius {
            return false;
        }
        if ja.bodies.len() != jb.bodies.len() {
            return false;
        }
        for (ca, cb) in ja.bodies.iter().zip(jb.bodies.iter()) {
            if !same_tree(ca, cb) {
                return false;
            }
        }
    }
    true
}

#[test]
fn builders_append_in_order() {
    let b = chain(1, 10 * ONE);
    let before = b.constraints.len();
    let b = b.with_constraint(skeleton_solver::constraints::Constraint::new(
        ConstraintDescriptor::Distance(DistanceConstraintDescriptor::default()),
    ));
    assert_eq!(b.constraints.len(), before + 1);

    let mut j = Joint::new(JointDescriptor::default());
    assert_eq!(j.bodies.len(), 0);
    j.add_body(chain(1, ONE));
    assert_eq!(j.bodies.len(), 1);
    let j = j.with_body(chain(1, ONE));
    assert_eq!(j.bodies.len(), 2);

    let mut jd = JointDescriptor::default();
    jd.add_body(BodyDescriptor::default());
    assert_eq!(jd.bodies.len(), 1);

    let mut bd = BodyDescriptor::default();
    bd.add_constraint(ConstraintDescriptor::Angle(
        skeleton_solver::constraints::AngleConstraintDescriptor {
            angle: east(),
            rate: ONE / 2,
        },
    ));
    assert_eq!(bd.constraints.len(), 1);
}

#[test]
fn well_formedness_is_decidable_at_run_time() {
    let mut b = chain(2, 10 * ONE);
    assert!(b.is_well_formed());
    // A denormalised direction written straight into a constraint breaks it.
    if let skeleton_solver::constraints::Constraint::Distance(_) = b.constraints[0] {
        b.constraints[0] = skeleton_solver::constraints::Constraint::Angle(
            skeleton_solver::constraints::AngleConstraint::new(
                skeleton_solver::constraints::AngleConstraintDescriptor {
                    angle: east(),
                    rate: ONE,
                },
            ),
        );
        assert!(b.is_well_formed());
        if let skeleton_solver::constraints::Constraint::Angle(ref mut a) = b.constraints[0] {
            a.angle = Heading { c: 3 * ONE, s: 0 };
        }
        assert!(!b.is_well_formed());
    }
    let zero = skeleton_solver::vec2::Vec2::zero();
    assert_eq!(zero, p(0, 0));
    assert!(zero.is_bounded());
    assert!(skeleton_solver::heading::Heading::x_axis().is_wf());
}

#[test]
fn defaults_match_their_documentation() {
    let d = DistanceConstraintDescriptor::default();
    assert_eq!(d.distance, 100 * ONE);
    assert_eq!(d.rate, ONE);
    assert_eq!(d.direction, Direction::Forward);

    let f = FabrikConstraintDescriptor::default();
    assert_eq!(f.joint_distance, 10 * ONE);
    assert_eq!(f.rate, ONE / 4);
    assert_eq!(f.target_distance, 20 * ONE);
    assert_eq!(f.max_distance, 20 * ONE);

    let j = JointDescriptor::default();
    assert_eq!(j.radius, 5 * ONE);
    assert!(j.bodies.is_empty());

    let b = BodyDescriptor::default();
    assert_eq!(b.line_thickness, 6 * ONE);
    assert_eq!(b.side, Side::Front);
    assert!(b.joints.is_empty());
    assert!(b.constraints.is_empty());
}
