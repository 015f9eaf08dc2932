//! The solver's laws: properties of whole passes and steps, stated over the
//! specification functions that the executable code is proved to match.

use vstd::prelude::*;

use crate::body::{
    chain_angle, fold_constraints, positions_of, spec_attachment, spec_step, step_children,
    step_joints, AttachmentPoint, BodyView,
};
use crate::constraints::angle_constraint::{
    bend_satisfied, fold_angle, lemma_straight_window_satisfied, spec_apply_angle, window_count,
    AngleConstraint,
};
use crate::constraints::constraint::{spec_apply_constraint, Constraint};
use crate::constraints::distance_constraint::{
    lemma_apply_distance_len, lemma_fold_anchor, lemma_fold_idempotent, pair_count,
    spec_apply_distance, Direction, DistanceConstraint,
};
use crate::constraints::fabrik_constraint::{
    fabrik_must_retarget, fabrik_preferred, spec_apply_fabrik, FabrikConstraint,
};
use crate::heading::Heading;
use crate::vec2::{dist_sq, Vec2};
use crate::SolverError;

verus! {

/// A distance constraint whose bound every consecutive pair already
/// satisfies moves nothing and reports nothing, whichever direction it
/// walks.
pub proof fn law_distance_idempotent(c: DistanceConstraint, ps: Seq<Vec2>)
    requires
        forall|i: int|
            0 <= i < ps.len() - 1 ==> dist_sq(#[trigger] ps[i], ps[i + 1]) <= c.distance
                * c.distance,
    ensures
        spec_apply_distance(c, ps) == (ps, Option::<SolverError>::None),
{
    match c.direction {
        Direction::Forward => lemma_fold_idempotent(
            ps,
            c.distance as int,
            c.rate as int,
            pair_count(ps.len()),
            true,
        ),
        Direction::Backwards => lemma_fold_idempotent(
            ps,
            c.distance as int,
            c.rate as int,
            pair_count(ps.len()),
            false,
        ),
    }
}

/// An angle constraint whose minimum every window of the chain already
/// reaches moves nothing and reports nothing.
pub proof fn law_angle_idempotent(c: AngleConstraint, ps: Seq<Vec2>)
    requires
        forall|i: int|
            0 <= i < ps.len() - 2 ==> bend_satisfied(
                #[trigger] ps[i],
                ps[i + 1],
                ps[i + 2],
                c.angle,
            ),
    ensures
        spec_apply_angle(c, ps) == (ps, Option::<SolverError>::None),
{
    lemma_angle_fold_idempotent(ps, c.angle, c.rate as int, window_count(ps.len()));
}

proof fn lemma_angle_fold_idempotent(ps: Seq<Vec2>, min: Heading, rate: int, k: nat)
    requires
        k + 2 <= ps.len() || k == 0,
        forall|i: int|
            0 <= i < ps.len() - 2 ==> bend_satisfied(#[trigger] ps[i], ps[i + 1], ps[i + 2], min),
    ensures
        fold_angle(ps, min, rate, k) == (ps, Option::<SolverError>::None),
    decreases k,
{
    if k > 0 {
        lemma_angle_fold_idempotent(ps, min, rate, (k - 1) as nat);
        let i = k - 1;
        assert(bend_satisfied(ps[i], ps[i + 1], ps[i + 2], min));
        assert(ps.update(i + 2, ps[i + 2]) =~= ps);
    }
}

/// Three joints in a straight line with the middle one between the other
/// two — a bend of half a turn — are never corrected by a well-formed
/// minimum: the minimum cannot exceed half a turn.
pub proof fn law_angle_straight_untouched(c: AngleConstraint, ps: Seq<Vec2>)
    requires
        c.angle.wf(),
        forall|i: int|
            0 <= i < ps.len() - 2 ==> {
                let a = #[trigger] ps[i];
                let b = ps[i + 1];
                let cc = ps[i + 2];
                (a.x - b.x) * (cc.y - b.y) - (a.y - b.y) * (cc.x - b.x) == 0 && (a.x - b.x) * (cc.x
                    - b.x) + (a.y - b.y) * (cc.y - b.y) <= 0
            },
    ensures
        spec_apply_angle(c, ps) == (ps, Option::<SolverError>::None),
{
    assert forall|i: int| 0 <= i < ps.len() - 2 implies bend_satisfied(
        #[trigger] ps[i],
        ps[i + 1],
        ps[i + 2],
        c.angle,
    ) by {
        lemma_straight_window_satisfied(ps[i], ps[i + 1], ps[i + 2], c.angle);
    }
    law_angle_idempotent(c, ps);
}

/// What each of the first `k` stepped joints carries: its post-constraint
/// position, the orientation derived from the chain, and its old radius.
pub proof fn lemma_step_joints_index(
    joints: Seq<crate::joint::JointView>,
    ps: Seq<Vec2>,
    body_angle: Heading,
    inh: Option<Heading>,
    k: nat,
)
    requires
        k <= joints.len(),
    ensures
        step_joints(joints, ps, body_angle, inh, k).0.len() == k,
        forall|i: int|
            0 <= i < k ==> {
                let jv = #[trigger] step_joints(joints, ps, body_angle, inh, k).0[i];
                &&& jv.pos == ps[i]
                &&& jv.radius == joints[i].radius
                &&& jv.angle == chain_angle(ps, joints[i].angle, i)
                &&& jv.bodies == step_children(
                    joints[i].bodies,
                    ps[i],
                    joints[i].radius,
                    chain_angle(ps, joints[i].angle, i),
                    body_angle,
                    inh,
                    joints[i].bodies.len() as nat,
                ).0
            },
    decreases k,
{
    if k > 0 {
        lemma_step_joints_index(joints, ps, body_angle, inh, (k - 1) as nat);
    }
}

/// What each of the first `k` stepped children is: the child stepped with
/// the attachment point freshly computed from its parent joint's pose.
pub proof fn lemma_step_children_index(
    children: Seq<BodyView>,
    jpos: Vec2,
    jradius: i64,
    jangle: Heading,
    body_angle: Heading,
    inh: Option<Heading>,
    k: nat,
)
    requires
        k <= children.len(),
    ensures
        step_children(children, jpos, jradius, jangle, body_angle, inh, k).0.len() == k,
        forall|j: int|
            0 <= j < k ==> #[trigger] step_children(children, jpos, jradius, jangle, body_angle, inh, k).0[j]
                == spec_step(
                children[j],
                Some(
                    spec_attachment(
                        jpos,
                        jradius,
                        jangle,
                        children[j].attachment_angle,
                        children[j].attachment_offset,
                        body_angle,
                        inh,
                    ).0,
                ),
            ).0,
    decreases k,
{
    if k > 0 {
        lemma_step_children_index(children, jpos, jradius, jangle, body_angle, inh, (k - 1) as nat);
    }
}

/// After a step of a chain of at least two joints, the first joint carries
/// the same orientation as the second: the first has no predecessor, so it
/// copies the second's derived direction.
pub proof fn law_first_angle_propagation(b: BodyView, ap: Option<AttachmentPoint>)
    requires
        b.joints.len() >= 2,
    ensures
        spec_step(b, ap).0.joints[0].angle == spec_step(b, ap).0.joints[1].angle,
{
    let ps0 = positions_of(b.joints);
    let ps1 = if ap is Some && b.joints.len() > 0 {
        ps0.update(0, ap->0.position)
    } else {
        ps0
    };
    crate::body::lemma_fold_constraints_len(b.constraints, ps1, ap, b.constraints.len() as nat);
    let ps2 = fold_constraints(b.constraints, ps1, ap, b.constraints.len() as nat).1;
    let inh = match ap {
        None => None,
        Some(a) => Some(a.angle),
    };
    lemma_step_joints_index(b.joints, ps2, b.attachment_angle, inh, b.joints.len() as nat);
    assert(chain_angle(ps2, b.joints[0].angle, 0) == chain_angle(ps2, b.joints[1].angle, 1));
}

/// A step rearranges only what it is meant to: the number of joints, each
/// joint's radius, the number of children at each joint, and the number of
/// constraints all stay exactly as they were.
pub proof fn law_step_preserves_shape(b: BodyView, ap: Option<AttachmentPoint>)
    ensures
        spec_step(b, ap).0.joints.len() == b.joints.len(),
        spec_step(b, ap).0.constraints.len() == b.constraints.len(),
        forall|i: int|
            0 <= i < b.joints.len() ==> (#[trigger] spec_step(b, ap).0.joints[i]).radius
                == b.joints[i].radius,
        forall|i: int|
            0 <= i < b.joints.len() ==> (#[trigger] spec_step(b, ap).0.joints[i]).bodies.len()
                == b.joints[i].bodies.len(),
{
    let ps0 = positions_of(b.joints);
    let ps1 = if ap is Some && b.joints.len() > 0 {
        ps0.update(0, ap->0.position)
    } else {
        ps0
    };
    crate::body::lemma_fold_constraints_len(b.constraints, ps1, ap, b.constraints.len() as nat);
    let ps2 = fold_constraints(b.constraints, ps1, ap, b.constraints.len() as nat).1;
    let inh = match ap {
        None => None,
        Some(a) => Some(a.angle),
    };
    lemma_step_joints_index(b.joints, ps2, b.attachment_angle, inh, b.joints.len() as nat);
    assert forall|i: int| 0 <= i < b.joints.len() implies (#[trigger] spec_step(
        b,
        ap,
    ).0.joints[i]).bodies.len() == b.joints[i].bodies.len() by {
        lemma_step_children_index(
            b.joints[i].bodies,
            ps2[i],
            b.joints[i].radius,
            chain_angle(ps2, b.joints[i].angle, i),
            b.attachment_angle,
            inh,
            b.joints[i].bodies.len() as nat,
        );
    }
}

/// When the preferred target stays within the hysteresis band and the
/// chain's span stays within the target distance, the current target does
/// not move: the chain does not jitter after small parent motions.
pub proof fn law_fabrik_hysteresis(c: FabrikConstraint, ps: Seq<Vec2>, ap: AttachmentPoint)
    requires
        ps.len() >= 1,
        c.max_distance >= 0,
        c.target_distance >= 0,
        dist_sq(c.current_target_position, fabrik_preferred(c, ap).0) <= c.max_distance
            * c.max_distance,
        dist_sq(ps[0], ps[ps.len() - 1]) <= c.target_distance * c.target_distance,
    ensures
        spec_apply_fabrik(c, ps, Some(ap)).0.current_target_position
            == c.current_target_position,
{
}

/// Once the preferred target drifts out of the band, or the chain is
/// stretched past its target distance, the current target snaps to the
/// preferred one: the stepping motion of a limb.
pub proof fn law_fabrik_retargets(c: FabrikConstraint, ps: Seq<Vec2>, ap: AttachmentPoint)
    requires
        ps.len() >= 1,
        fabrik_must_retarget(c, fabrik_preferred(c, ap).0, ps[0], ps[ps.len() - 1]),
    ensures
        spec_apply_fabrik(c, ps, Some(ap)).0.current_target_position == fabrik_preferred(
            c,
            ap,
        ).0,
        spec_apply_fabrik(c, ps, Some(ap)).0.preferred_target_position == fabrik_preferred(
            c,
            ap,
        ).0,
{
}

/// Identical bodies stepped with identical attachment points end identically:
/// the step is a function of its inputs, with no hidden state or randomness.
pub proof fn law_step_deterministic(
    b1: BodyView,
    b2: BodyView,
    ap1: Option<AttachmentPoint>,
    ap2: Option<AttachmentPoint>,
)
    requires
        b1 == b2,
        ap1 == ap2,
    ensures
        spec_step(b1, ap1) == spec_step(b2, ap2),
{
}

/// Whether a constraint can never move the first joint of a pinned chain
/// away from its attachment position: a forward distance pass moves only
/// later joints, an angle pass moves only third joints of windows, and a
/// Fabrik pass re-pins the first joint itself (provided its inner forward
/// pass walks forward, as built).
pub open spec fn keeps_first_joint(c: Constraint) -> bool {
    match c {
        Constraint::Distance(d) => d.direction is Forward,
        Constraint::Angle(_) => true,
        Constraint::Fabrik(f) => f.forward_distance_constraint.direction is Forward,
    }
}

/// A forward distance pass never moves the first joint.
proof fn lemma_distance_apply_keeps_first(c: DistanceConstraint, ps: Seq<Vec2>)
    requires
        c.direction is Forward,
        ps.len() >= 1,
    ensures
        spec_apply_distance(c, ps).0[0] == ps[0],
{
    lemma_fold_anchor(ps, c.distance as int, c.rate as int, pair_count(ps.len()), true);
}

/// An angle pass never moves the first joint.
proof fn lemma_angle_apply_keeps_first(c: AngleConstraint, ps: Seq<Vec2>)
    requires
        ps.len() >= 1,
    ensures
        spec_apply_angle(c, ps).0[0] == ps[0],
{
    crate::constraints::angle_constraint::lemma_fold_angle_shape(
        ps,
        c.angle,
        c.rate as int,
        window_count(ps.len()),
    );
}

/// Any keeps-first constraint, run on a chain whose first joint sits at the
/// attachment position, leaves the first joint at the attachment position.
proof fn lemma_constraint_keeps_pin(c: Constraint, ps: Seq<Vec2>, ap: AttachmentPoint)
    requires
        keeps_first_joint(c),
        ps.len() >= 1,
        ps[0] == ap.position,
    ensures
        spec_apply_constraint(c, ps, Some(ap)).1[0] == ap.position,
{
    match c {
        Constraint::Distance(d) => lemma_distance_apply_keeps_first(d, ps),
        Constraint::Angle(a) => lemma_angle_apply_keeps_first(a, ps),
        Constraint::Fabrik(f) => {
            let (preferred, e1) = fabrik_preferred(f, ap);
            let cur = if crate::constraints::fabrik_constraint::fabrik_must_retarget(
                f,
                preferred,
                ps[0],
                ps[ps.len() - 1],
            ) {
                preferred
            } else {
                f.current_target_position
            };
            let ps1 = ps.update(ps.len() - 1, cur);
            lemma_apply_distance_len(f.backward_distance_constraint, ps1);
            let ps2 = spec_apply_distance(f.backward_distance_constraint, ps1).0;
            let ps3 = ps2.update(0, ap.position);
            lemma_apply_distance_len(f.forward_distance_constraint, ps3);
            lemma_distance_apply_keeps_first(f.forward_distance_constraint, ps3);
        },
    }
}

/// A whole pass of keeps-first constraints leaves the first joint at the
/// attachment position.
proof fn lemma_fold_keeps_pin(
    cs: Seq<Constraint>,
    ps: Seq<Vec2>,
    ap: AttachmentPoint,
    k: nat,
)
    requires
        k <= cs.len(),
        ps.len() >= 1,
        ps[0] == ap.position,
        forall|i: int| 0 <= i < cs.len() ==> keeps_first_joint(#[trigger] cs[i]),
    ensures
        fold_constraints(cs, ps, Some(ap), k).1.len() == ps.len(),
        fold_constraints(cs, ps, Some(ap), k).1[0] == ap.position,
    decreases k,
{
    crate::body::lemma_fold_constraints_len(cs, ps, Some(ap), k);
    if k > 0 {
        lemma_fold_keeps_pin(cs, ps, ap, (k - 1) as nat);
        let (pcs, pps, e) = fold_constraints(cs, ps, Some(ap), (k - 1) as nat);
        lemma_fold_constraints_prefix_untouched(cs, ps, Some(ap), (k - 1) as nat);
        assert(pcs[k - 1] == cs[k - 1]);
        assert(keeps_first_joint(cs[k - 1]));
        lemma_constraint_keeps_pin(pcs[k - 1], pps, ap);
    }
}

/// A constraint pass only rewrites the entries it has already walked past;
/// the constraints at and after `k` are still the originals.
proof fn lemma_fold_constraints_prefix_untouched(
    cs: Seq<Constraint>,
    ps: Seq<Vec2>,
    ap: Option<AttachmentPoint>,
    k: nat,
)
    requires
        k <= cs.len(),
    ensures
        fold_constraints(cs, ps, ap, k).0.len() == cs.len(),
        forall|i: int| k <= i < cs.len() ==> fold_constraints(cs, ps, ap, k).0[i] == #[trigger] cs[i],
    decreases k,
{
    crate::body::lemma_fold_constraints_len(cs, ps, ap, k);
    if k > 0 {
        lemma_fold_constraints_prefix_untouched(cs, ps, ap, (k - 1) as nat);
    }
}

/// After a step with an attachment point, a body whose constraints all keep
/// the first joint has its first joint exactly at the attachment position —
/// the invariant that glues sub-structures to the moving parent.
pub proof fn law_attachment_pinning(b: BodyView, ap: AttachmentPoint)
    requires
        b.joints.len() >= 1,
        forall|i: int| 0 <= i < b.constraints.len() ==> keeps_first_joint(#[trigger] b.constraints[i]),
    ensures
        spec_step(b, Some(ap)).0.joints[0].pos == ap.position,
{
    let ps0 = positions_of(b.joints);
    let ps1 = ps0.update(0, ap.position);
    lemma_fold_keeps_pin(b.constraints, ps1, ap, b.constraints.len() as nat);
    let ps2 = fold_constraints(b.constraints, ps1, Some(ap), b.constraints.len() as nat).1;
    lemma_step_joints_index(b.joints, ps2, b.attachment_angle, Some(ap.angle), b.joints.len() as nat);
}

/// The whole tree-level pinning guarantee for the children one level down:
/// every child of every joint of a stepped body is the child stepped with
/// the attachment point computed from that joint's final pose, so a child
/// with keeps-first constraints and at least one joint ends with its first
/// joint exactly on that freshly computed attachment position.
pub proof fn law_children_pinned(b: BodyView, ap: Option<AttachmentPoint>)
    ensures
        ({
            let stepped = spec_step(b, ap).0;
            let inh = match ap {
                None => None,
                Some(a) => Some(a.angle),
            };
            forall|i: int, j: int|
                #![trigger stepped.joints[i].bodies[j]]
                0 <= i < stepped.joints.len() && 0 <= j < stepped.joints[i].bodies.len() && 0 <= i
                    < b.joints.len() && 0 <= j < b.joints[i].bodies.len() ==> {
                    let jv = stepped.joints[i];
                    let child = b.joints[i].bodies[j];
                    let cap = spec_attachment(
                        jv.pos,
                        jv.radius,
                        jv.angle,
                        child.attachment_angle,
                        child.attachment_offset,
                        b.attachment_angle,
                        inh,
                    ).0;
                    jv.bodies[j] == spec_step(child, Some(cap)).0 && ((child.joints.len() >= 1 && (
                    forall|q: int|
                        0 <= q < child.constraints.len() ==> keeps_first_joint(
                            #[trigger] child.constraints[q],
                        ))) ==> jv.bodies[j].joints[0].pos == cap.position)
                }
        }),
{
    let stepped = spec_step(b, ap).0;
    let inh = match ap {
        None => None,
        Some(a) => Some(a.angle),
    };
    let ps0 = positions_of(b.joints);
    let ps1 = if ap is Some && b.joints.len() > 0 {
        ps0.update(0, ap->0.position)
    } else {
        ps0
    };
    crate::body::lemma_fold_constraints_len(b.constraints, ps1, ap, b.constraints.len() as nat);
    let ps2 = fold_constraints(b.constraints, ps1, ap, b.constraints.len() as nat).1;
    lemma_step_joints_index(b.joints, ps2, b.attachment_angle, inh, b.joints.len() as nat);
    assert forall|i: int, j: int|
        #![trigger stepped.joints[i].bodies[j]]
        0 <= i < stepped.joints.len() && 0 <= j < stepped.joints[i].bodies.len() && 0 <= i
            < b.joints.len() && 0 <= j < b.joints[i].bodies.len() implies {
        let jv = stepped.joints[i];
        let child = b.joints[i].bodies[j];
        let cap = spec_attachment(
            jv.pos,
            jv.radius,
            jv.angle,
            child.attachment_angle,
            child.attachment_offset,
            b.attachment_angle,
            inh,
        ).0;
        jv.bodies[j] == spec_step(child, Some(cap)).0 && ((child.joints.len() >= 1 && (
        forall|q: int|
            0 <= q < child.constraints.len() ==> keeps_first_joint(#[trigger] child.constraints[q])))
            ==> jv.bodies[j].joints[0].pos == cap.position)
    } by {
        let jv = stepped.joints[i];
        let child = b.joints[i].bodies[j];
        lemma_step_children_index(
            b.joints[i].bodies,
            ps2[i],
            b.joints[i].radius,
            chain_angle(ps2, b.joints[i].angle, i),
            b.attachment_angle,
            inh,
            b.joints[i].bodies.len() as nat,
        );
        let cap = spec_attachment(
            jv.pos,
            jv.radius,
            jv.angle,
            child.attachment_angle,
            child.attachment_offset,
            b.attachment_angle,
            inh,
        ).0;
        if child.joints.len() >= 1 && (forall|q: int|
            0 <= q < child.constraints.len() ==> keeps_first_joint(#[trigger] child.constraints[q])) {
            law_attachment_pinning(child, cap);
        }
    }
}

} // verus!
