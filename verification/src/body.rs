//! Bodies: ordered joint chains with their constraints, the attachment
//! points that glue a child body to its parent joint, and the per-frame
//! solver step.

use vstd::prelude::*;

use crate::constraints::constraint::{
    constraint_from_descriptor, lemma_apply_constraint_len, spec_apply_constraint, Constraint,
    ConstraintDescriptor,
};
use crate::fixed::{in_range, lemma_tdiv_quotient_bound, tdiv, LIMIT, ONE};
use crate::fixed::div_trunc;
use crate::heading::{compose, compose_exec, unit_between, unit_dir, unit_from, Heading};
use crate::joint::{is_joint_from, spec_joint_view, Joint, JointDescriptor, JointView};
use crate::vec2::{all_bounded, bounded, pt, Vec2};
use crate::{first_err, SolverError};

verus! {

/// An RGBA colour, a presentation attribute the solver copies through
/// untouched; only a renderer reads it.
#[derive(Clone, Copy, Debug, PartialEq, Eq, Structural)]
pub struct Rgba {
    pub r: u8,
    pub g: u8,
    pub b: u8,
    pub a: u8,
}

/// Which layer a body is drawn on, relative to its parent. The solver copies
/// it through untouched; only a renderer reads it.
#[derive(Clone, Copy, Debug, PartialEq, Eq, Structural)]
pub enum Side {
    Front,
    Back,
}

/// Where and at what angle a child body hangs from its parent joint this
/// frame; recomputed during every step and passed down one level, never
/// stored.
#[derive(Clone, Copy, Debug, PartialEq, Eq, Structural)]
pub struct AttachmentPoint {
    /// The world-space point the child's first joint is pinned to.
    pub position: Vec2,
    /// The inherited orientation the child's own angles are measured from.
    pub angle: Heading,
}

impl AttachmentPoint {
    /// Whether the point can take part in a solver step.
    pub open spec fn wf(self) -> bool {
        bounded(self.position) && self.angle.wf()
    }

    /// Whether the point can take part in a solver step, decided at run
    /// time.
    pub fn is_wf(&self) -> (r: bool)
        ensures
            r == self.wf(),
    {
        self.position.is_bounded() && self.angle.is_wf()
    }
}

/// An ordered chain of joints plus the constraints applied to it each frame;
/// possibly attached to a parent joint at a fixed offset and angle bias.
#[derive(Debug)]
pub struct Body {
    pub line_color: Rgba,
    pub line_thickness: i64,
    pub fill_color: Rgba,
    pub joints: Vec<Joint>,
    pub constraints: Vec<Constraint>,
    pub attachment_angle: Heading,
    pub attachment_offset: i64,
    pub side: Side,
}

/// Plain data from which a whole [`Body`] tree is built.
#[derive(Debug)]
pub struct BodyDescriptor {
    pub line_color: Rgba,
    pub line_thickness: i64,
    pub fill_color: Rgba,
    pub joints: Vec<JointDescriptor>,
    pub constraints: Vec<ConstraintDescriptor>,
    pub attachment_angle: Heading,
    pub attachment_offset: i64,
    pub side: Side,
}

/// The mathematical value of a [`Body`].
#[verifier::ext_equal]
pub ghost struct BodyView {
    pub line_color: Rgba,
    pub line_thickness: i64,
    pub fill_color: Rgba,
    pub joints: Seq<JointView>,
    pub constraints: Seq<Constraint>,
    pub attachment_angle: Heading,
    pub attachment_offset: i64,
    pub side: Side,
}

/// The mathematical values of a chain of [`Joint`]s.
pub open spec fn joints_view(s: Seq<Joint>) -> Seq<JointView>
    decreases s,
{
    if s.len() == 0 {
        Seq::empty()
    } else {
        joints_view(s.subrange(0, s.len() - 1)).push(spec_joint_view(s[s.len() - 1]))
    }
}

/// Appending a joint appends its view.
pub proof fn lemma_joints_view_push(s: Seq<Joint>, j: Joint)
    ensures
        joints_view(s.push(j)) == joints_view(s).push(spec_joint_view(j)),
{
    assert(s.push(j).subrange(0, s.len() as int) =~= s);
    assert(joints_view(s.push(j)) =~= joints_view(s).push(spec_joint_view(j)));
}

/// The mathematical value of a [`Body`].
pub open spec fn spec_body_view(b: Body) -> BodyView
    decreases b,
{
    BodyView {
        line_color: b.line_color,
        line_thickness: b.line_thickness,
        fill_color: b.fill_color,
        joints: joints_view(b.joints@),
        constraints: b.constraints@,
        attachment_angle: b.attachment_angle,
        attachment_offset: b.attachment_offset,
        side: b.side,
    }
}

/// A chain's view has one joint view per joint, in order.
pub proof fn lemma_joints_view(s: Seq<Joint>)
    ensures
        joints_view(s).len() == s.len(),
        forall|i: int| 0 <= i < s.len() ==> joints_view(s)[i] == spec_joint_view(#[trigger] s[i]),
    decreases s,
{
    if s.len() > 0 {
        lemma_joints_view(s.subrange(0, s.len() - 1));
        assert forall|i: int| 0 <= i < s.len() implies joints_view(s)[i] == spec_joint_view(
            #[trigger] s[i],
        ) by {
            if i < s.len() - 1 {
                assert(s.subrange(0, s.len() - 1)[i] == s[i]);
            }
        }
    }
}

impl View for Body {
    type V = BodyView;

    open spec fn view(&self) -> BodyView {
        spec_body_view(*self)
    }
}

impl BodyView {
    /// Whether the body can take part in a solver step: every joint position
    /// is representable, every orientation is a normalised direction, and
    /// the same holds down the whole tree.
    pub open spec fn wf(self) -> bool
        decreases self,
    {
        &&& self.attachment_angle.wf()
        &&& forall|i: int| 0 <= i < self.constraints.len() ==> (#[trigger] self.constraints[i]).wf()
        &&& forall|i: int| 0 <= i < self.joints.len() ==> (#[trigger] self.joints[i]).wf()
    }
}

/// Whether each joint of `js` was built from the corresponding descriptor of
/// `ds`.
pub open spec fn is_joints_from(js: Seq<Joint>, ds: Seq<JointDescriptor>) -> bool
    decreases ds,
{
    if ds.len() == 0 {
        js.len() == 0
    } else {
        &&& js.len() == ds.len()
        &&& is_joint_from(js[ds.len() - 1], ds[ds.len() - 1])
        &&& is_joints_from(js.subrange(0, js.len() - 1), ds.subrange(0, ds.len() - 1))
    }
}

/// Extending both lists by one converted joint keeps the relation.
pub proof fn lemma_is_joints_from_push(
    js: Seq<Joint>,
    ds: Seq<JointDescriptor>,
    j: Joint,
    d: JointDescriptor,
)
    requires
        is_joints_from(js, ds),
        is_joint_from(j, d),
    ensures
        is_joints_from(js.push(j), ds.push(d)),
{
    assert(js.push(j).subrange(0, js.len() as int) =~= js);
    assert(ds.push(d).subrange(0, ds.len() as int) =~= ds);
}

/// Whether each constraint of `cs` was built from the corresponding
/// descriptor of `ds`.
pub open spec fn constraints_from(cs: Seq<Constraint>, ds: Seq<ConstraintDescriptor>) -> bool {
    cs.len() == ds.len() && forall|i: int|
        0 <= i < ds.len() ==> #[trigger] cs[i] == constraint_from_descriptor(ds[i])
}

/// Whether `b` is the body tree that `d` describes: presentation fields and
/// the attachment offset are copied, the attachment angle is normalised, and
/// the joints and constraints are built from their descriptors in order.
pub open spec fn is_body_from(b: Body, d: BodyDescriptor) -> bool
    decreases d,
{
    &&& b.line_color == d.line_color
    &&& b.line_thickness == d.line_thickness
    &&& b.fill_color == d.fill_color
    &&& b.attachment_angle == unit_dir(d.attachment_angle.c as int, d.attachment_angle.s as int)
    &&& b.attachment_offset == d.attachment_offset
    &&& b.side == d.side
    &&& constraints_from(b.constraints@, d.constraints@)
    &&& is_joints_from(b.joints@, d.joints@)
}

impl Body {
    /// Builds the body tree that `descriptor` describes: a one-time,
    /// order-preserving conversion; scalar fields are taken as they are, and
    /// angle-valued fields are normalised.
    pub fn new(descriptor: BodyDescriptor) -> (r: Body)
        ensures
            is_body_from(r, descriptor),
            r@.wf(),
        decreases descriptor,
    {
        let ghost d0 = descriptor;
        let BodyDescriptor {
            line_color,
            line_thickness,
            fill_color,
            joints,
            constraints,
            attachment_angle,
            attachment_offset,
            side,
        } = descriptor;
        let mut joints = joints;
        let mut out_joints: Vec<Joint> = Vec::new();
        let ghost all: Seq<JointDescriptor> = d0.joints@;
        while joints.len() > 0
            invariant
                d0 == descriptor,
                all == d0.joints@,
                joints@.len() <= all.len(),
                joints@ =~= all.subrange(all.len() - joints@.len(), all.len() as int),
                is_joints_from(out_joints@, all.subrange(0, all.len() - joints@.len())),
                out_joints@.len() == all.len() - joints@.len(),
                forall|k: int|
                    0 <= k < out_joints@.len() ==> spec_joint_view(#[trigger] out_joints@[k]).wf(),
            decreases joints@.len(),
        {
            let ghost pre = joints@;
            let ghost idx: int = all.len() - pre.len();
            let jd = joints.remove(0);
            proof {
                assert(jd == pre[0]);
                assert(pre[0] == all.subrange(idx, all.len() as int)[0]);
                assert(jd == all[idx]);
                assert(decreases_to!(d0 => d0.joints));
                assert(decreases_to!(d0.joints => d0.joints@));
                assert(decreases_to!(d0.joints@ => d0.joints@[idx]));
            }
            let nj = Joint::new(jd);
            proof {
                lemma_is_joints_from_push(out_joints@, all.subrange(0, idx), nj, jd);
                assert(all.subrange(0, idx).push(all[idx]) =~= all.subrange(0, idx + 1));
            }
            out_joints.push(nj);
        }
        proof {
            assert(all.subrange(0, all.len() as int) =~= all);
        }

        let mut constraints = constraints;
        let mut out_constraints: Vec<Constraint> = Vec::new();
        let ghost call: Seq<ConstraintDescriptor> = d0.constraints@;
        while constraints.len() > 0
            invariant
                constraints@.len() <= call.len(),
                constraints@ =~= call.subrange(call.len() - constraints@.len(), call.len() as int),
                out_constraints@.len() == call.len() - constraints@.len(),
                forall|k: int|
                    0 <= k < out_constraints@.len() ==> #[trigger] out_constraints@[k]
                        == constraint_from_descriptor(call[k]),
                forall|k: int|
                    0 <= k < out_constraints@.len() ==> (#[trigger] out_constraints@[k]).wf(),
            decreases constraints@.len(),
        {
            let ghost pre = constraints@;
            let ghost idx: int = call.len() - pre.len();
            let cd = constraints.remove(0);
            proof {
                assert(cd == pre[0]);
                assert(pre[0] == call.subrange(idx, call.len() as int)[0]);
                assert(cd == call[idx]);
            }
            let nc = Constraint::new(cd);
            out_constraints.push(nc);
        }

        let r = Body {
            line_color,
            line_thickness,
            fill_color,
            joints: out_joints,
            constraints: out_constraints,
            attachment_angle: unit_from(attachment_angle.c, attachment_angle.s),
            attachment_offset,
            side,
        };
        proof {
            lemma_joints_view(r.joints@);
            assert forall|i: int| 0 <= i < r@.joints.len() implies (#[trigger] r@.joints[i]).wf() by {
                assert(r@.joints[i] == spec_joint_view(r.joints@[i]));
            }
        }
        r
    }
}

/// Decides at run time whether a body tree can take part in a solver step.
pub fn check_body_wf(b: &Body) -> (r: bool)
    ensures
        r == spec_body_view(*b).wf(),
    decreases *b,
{
    proof {
        lemma_joints_view(b.joints@);
    }
    if !b.attachment_angle.is_wf() {
        return false;
    }
    let m = b.constraints.len();
    let mut k: usize = 0;
    while k < m
        invariant
            k <= m == b.constraints@.len(),
            forall|i: int| 0 <= i < k ==> (#[trigger] b.constraints@[i]).wf(),
        decreases m - k,
    {
        if !b.constraints[k].is_wf() {
            proof {
                assert(spec_body_view(*b).constraints[k as int] == b.constraints@[k as int]);
            }
            return false;
        }
        k = k + 1;
    }
    let n = b.joints.len();
    let mut i: usize = 0;
    while i < n
        invariant
            i <= n == b.joints@.len(),
            forall|k2: int| 0 <= k2 < i ==> spec_joint_view(#[trigger] b.joints@[k2]).wf(),
        decreases n - i,
    {
        proof {
            assert(decreases_to!(*b => b.joints));
            assert(decreases_to!(b.joints => b.joints@));
            assert(decreases_to!(b.joints@ => b.joints@[i as int]));
        }
        let ok = crate::joint::check_joint_wf(&b.joints[i]);
        if !ok {
            proof {
                lemma_joints_view(b.joints@);
                assert(spec_body_view(*b).joints[i as int] == spec_joint_view(b.joints@[i as int]));
            }
            return false;
        }
        i = i + 1;
    }
    proof {
        lemma_joints_view(b.joints@);
        assert forall|k2: int| 0 <= k2 < spec_body_view(*b).joints.len() implies (
        #[trigger] spec_body_view(*b).joints[k2]).wf() by {
            assert(spec_body_view(*b).joints[k2] == spec_joint_view(b.joints@[k2]));
        }
    }
    true
}

impl Body {
    /// Whether this body tree can take part in a solver step: every scalar
    /// in it lies in the representable region and every stored direction is
    /// normalised. Holds for every tree built by [`Body::new`] and is kept
    /// by every step; it can only be broken by writing raw values into the
    /// public fields.
    pub fn is_well_formed(&self) -> (r: bool)
        ensures
            r == self@.wf(),
    {
        check_body_wf(self)
    }
}

impl Default for BodyDescriptor {
    /// A black six-unit outline around a white fill, no joints, no
    /// constraints, attached straight ahead at the parent's centre, drawn in
    /// front.
    fn default() -> (r: Self)
        ensures
            r.line_color == (Rgba { r: 0, g: 0, b: 0, a: 255 }),
            r.line_thickness == 6 * ONE,
            r.fill_color == (Rgba { r: 255, g: 255, b: 255, a: 255 }),
            r.joints@.len() == 0,
            r.constraints@.len() == 0,
            r.attachment_angle == (Heading { c: ONE, s: 0 }),
            r.attachment_offset == 0,
            r.side == Side::Front,
    {
        BodyDescriptor {
            line_color: Rgba { r: 0, g: 0, b: 0, a: 255 },
            line_thickness: 6 * ONE,
            fill_color: Rgba { r: 255, g: 255, b: 255, a: 255 },
            joints: Vec::new(),
            constraints: Vec::new(),
            attachment_angle: Heading { c: ONE, s: 0 },
            attachment_offset: 0,
            side: Side::Front,
        }
    }
}

impl BodyDescriptor {
    /// Appends a constraint descriptor and hands the descriptor back.
    pub fn with_constraint(self, constraint: ConstraintDescriptor) -> (r: Self)
        ensures
            r.constraints@ == self.constraints@.push(constraint),
            r.joints@ == self.joints@,
            r.line_color == self.line_color,
            r.line_thickness == self.line_thickness,
            r.fill_color == self.fill_color,
            r.attachment_angle == self.attachment_angle,
            r.attachment_offset == self.attachment_offset,
            r.side == self.side,
    {
        let mut this = self;
        this.add_constraint(constraint);
        this
    }

    /// Appends a constraint descriptor.
    pub fn add_constraint(&mut self, constraint: ConstraintDescriptor)
        ensures
            final(self).constraints@ == old(self).constraints@.push(constraint),
            final(self).joints@ == old(self).joints@,
            final(self).line_color == old(self).line_color,
            final(self).line_thickness == old(self).line_thickness,
            final(self).fill_color == old(self).fill_color,
            final(self).attachment_angle == old(self).attachment_angle,
            final(self).attachment_offset == old(self).attachment_offset,
            final(self).side == old(self).side,
    {
        self.constraints.push(constraint);
    }
}

/// The chain's positions, in joint order.
pub open spec fn positions_of(joints: Seq<JointView>) -> Seq<Vec2> {
    Seq::new(joints.len(), |i: int| joints[i].pos)
}

/// The positions and constraint states after the first `k` constraints of a
/// body have run, each seeing the previous one's result, with the first
/// anomaly met.
pub open spec fn fold_constraints(
    cs: Seq<Constraint>,
    ps: Seq<Vec2>,
    ap: Option<AttachmentPoint>,
    k: nat,
) -> (Seq<Constraint>, Seq<Vec2>, Option<SolverError>)
    decreases k,
{
    if k == 0 {
        (cs, ps, None)
    } else {
        let (pcs, pps, e) = fold_constraints(cs, ps, ap, (k - 1) as nat);
        let (nc, nps, e2) = spec_apply_constraint(pcs[k - 1], pps, ap);
        (pcs.update(k - 1, nc), nps, first_err(e, e2))
    }
}

/// A constraint fold keeps the length of the chain and the number of
/// constraints.
pub proof fn lemma_fold_constraints_len(
    cs: Seq<Constraint>,
    ps: Seq<Vec2>,
    ap: Option<AttachmentPoint>,
    k: nat,
)
    requires
        k <= cs.len(),
    ensures
        fold_constraints(cs, ps, ap, k).0.len() == cs.len(),
        fold_constraints(cs, ps, ap, k).1.len() == ps.len(),
    decreases k,
{
    if k > 0 {
        lemma_fold_constraints_len(cs, ps, ap, (k - 1) as nat);
        let (pcs, pps, e) = fold_constraints(cs, ps, ap, (k - 1) as nat);
        lemma_apply_constraint_len(pcs[k - 1], pps, ap);
    }
}

/// The orientation the solver derives for joint `i` of a chain with the
/// given positions: the direction from its predecessor to it; the first
/// joint copies the second joint's orientation; a chain of fewer than two
/// joints keeps the joint's previous orientation.
pub open spec fn chain_angle(ps: Seq<Vec2>, old_angle: Heading, i: int) -> Heading {
    if ps.len() >= 2 {
        if i >= 1 {
            unit_dir(ps[i].x - ps[i - 1].x, ps[i].y - ps[i - 1].y)
        } else {
            unit_dir(ps[1].x - ps[0].x, ps[1].y - ps[0].y)
        }
    } else {
        old_angle
    }
}

/// An optional further turn: the heading itself when there is no inherited
/// angle, else the heading turned by it.
pub open spec fn compose_opt(h: Heading, inh: Option<Heading>) -> Heading {
    match inh {
        None => h,
        Some(a) => compose(h, a),
    }
}

/// The attachment point a joint gives one of its child bodies: the position
/// sits `offset * radius` from the joint's centre in the direction of the
/// joint's angle turned by the child's attachment angle (and the inherited
/// angle, if any); the angle is the parent body's attachment angle turned by
/// the joint's angle (and the inherited angle). If the computed position
/// leaves the representable region the child is pinned at the joint's centre
/// and the anomaly is reported.
pub open spec fn spec_attachment(
    jpos: Vec2,
    jradius: i64,
    jangle: Heading,
    child_angle: Heading,
    child_offset: i64,
    body_angle: Heading,
    inh: Option<Heading>,
) -> (AttachmentPoint, Option<SolverError>) {
    let dir = compose_opt(compose(jangle, child_angle), inh);
    let arm = tdiv(child_offset * jradius, ONE as int);
    let px = jpos.x + tdiv(arm * dir.c, ONE as int);
    let py = jpos.y + tdiv(arm * dir.s, ONE as int);
    let angle = compose_opt(compose(body_angle, jangle), inh);
    if in_range(px) && in_range(py) {
        (AttachmentPoint { position: pt(px, py), angle }, None)
    } else {
        (AttachmentPoint { position: jpos, angle }, Some(SolverError::RangeExceeded))
    }
}

/// The first `k` children of one joint after a step: each child is pinned to
/// its freshly computed attachment point and stepped recursively, in order.
pub open spec fn step_children(
    children: Seq<BodyView>,
    jpos: Vec2,
    jradius: i64,
    jangle: Heading,
    body_angle: Heading,
    inh: Option<Heading>,
    k: nat,
) -> (Seq<BodyView>, Option<SolverError>)
    decreases children, k,
    via step_children_decreases
{
    if k == 0 || k > children.len() {
        (Seq::empty(), None)
    } else {
        let (prev, e) = step_children(children, jpos, jradius, jangle, body_angle, inh, (k - 1) as nat);
        let i = k - 1;
        let child = children[i];
        let (ap2, eap) = spec_attachment(
            jpos,
            jradius,
            jangle,
            child.attachment_angle,
            child.attachment_offset,
            body_angle,
            inh,
        );
        let (stepped, echild) = spec_step(child, Some(ap2));
        (prev.push(stepped), first_err(e, first_err(eap, echild)))
    }
}

#[via_fn]
proof fn step_children_decreases(
    children: Seq<BodyView>,
    jpos: Vec2,
    jradius: i64,
    jangle: Heading,
    body_angle: Heading,
    inh: Option<Heading>,
    k: nat,
) {
    if k > 0 && k - 1 < children.len() {
        assert(decreases_to!(children => children[k - 1]));
    }
}

/// The first `k` joints of a body after a step: each takes its
/// post-constraint position, derives its orientation from the chain, and
/// steps its children.
pub open spec fn step_joints(
    joints: Seq<JointView>,
    ps: Seq<Vec2>,
    body_angle: Heading,
    inh: Option<Heading>,
    k: nat,
) -> (Seq<JointView>, Option<SolverError>)
    decreases joints, k,
    via step_joints_decreases
{
    if k == 0 || k > joints.len() {
        (Seq::empty(), None)
    } else {
        let (prev, e) = step_joints(joints, ps, body_angle, inh, (k - 1) as nat);
        let i = k - 1;
        let j = joints[i];
        let npos = ps[i];
        let nangle = chain_angle(ps, j.angle, i);
        let (nbodies, e2) = step_children(
            j.bodies,
            npos,
            j.radius,
            nangle,
            body_angle,
            inh,
            j.bodies.len(),
        );
        (
            prev.push(JointView { pos: npos, radius: j.radius, angle: nangle, bodies: nbodies }),
            first_err(e, e2),
        )
    }
}

#[via_fn]
proof fn step_joints_decreases(
    joints: Seq<JointView>,
    ps: Seq<Vec2>,
    body_angle: Heading,
    inh: Option<Heading>,
    k: nat,
) {
    if k > 0 && k - 1 < joints.len() {
        assert(decreases_to!(joints => joints[k - 1]));
        assert(decreases_to!(joints[k - 1] => joints[k - 1].bodies));
    }
}

/// One whole solver step of a body, given its parent's attachment point (or
/// none at the root): pin the first joint to the attachment point, run every
/// constraint in order, derive every joint's orientation from the new
/// positions, then pin and step every child body at every joint.
pub open spec fn spec_step(b: BodyView, ap: Option<AttachmentPoint>) -> (BodyView, Option<
    SolverError,
>)
    decreases b, 0int,
    via spec_step_decreases
{
    let ps0 = positions_of(b.joints);
    let ps1 = if ap is Some && b.joints.len() > 0 {
        ps0.update(0, ap->0.position)
    } else {
        ps0
    };
    let (cs2, ps2, e1) = fold_constraints(b.constraints, ps1, ap, b.constraints.len());
    let inh = match ap {
        None => None,
        Some(a) => Some(a.angle),
    };
    let (js2, e2) = step_joints(b.joints, ps2, b.attachment_angle, inh, b.joints.len());
    (BodyView { joints: js2, constraints: cs2, ..b }, first_err(e1, e2))
}

#[via_fn]
proof fn spec_step_decreases(b: BodyView, ap: Option<AttachmentPoint>) {
    assert(decreases_to!(b => b.joints));
}

/// Computes the attachment point a joint gives one child body.
fn make_attachment(
    jpos: Vec2,
    jradius: i64,
    jangle: Heading,
    child_angle: Heading,
    child_offset: i64,
    body_angle: Heading,
    inh: Option<Heading>,
) -> (r: (AttachmentPoint, Option<SolverError>))
    requires
        bounded(jpos),
        jangle.wf(),
        child_angle.wf(),
        body_angle.wf(),
        inh is Some ==> inh->0.wf(),
    ensures
        r == spec_attachment(jpos, jradius, jangle, child_angle, child_offset, body_angle, inh),
        r.0.wf(),
{
    let base = compose_exec(&jangle, &child_angle);
    let dir = match inh {
        None => base,
        Some(h) => compose_exec(&base, &h),
    };
    let abase = compose_exec(&body_angle, &jangle);
    let angle = match inh {
        None => abase,
        Some(h) => compose_exec(&abase, &h),
    };
    proof {
        assert(-0x4000_0000_0000_0000_0000_0000_0000_0000 <= (child_offset as int) * (
        jradius as int) <= 0x4000_0000_0000_0000_0000_0000_0000_0000) by (nonlinear_arith)
            requires
                -0x8000_0000_0000_0000 <= child_offset <= 0x8000_0000_0000_0000,
                -0x8000_0000_0000_0000 <= jradius <= 0x8000_0000_0000_0000;
        assert(0x4000_0000_0000_0000_0000_0000_0000 * (ONE as int)
            == 0x4000_0000_0000_0000_0000_0000_0000_0000) by (nonlinear_arith)
            requires ONE == 65536;
        lemma_tdiv_quotient_bound(
            (child_offset as int) * (jradius as int),
            ONE as int,
            0x4000_0000_0000_0000_0000_0000_0000,
        );
    }
    let arm: i128 = div_trunc((child_offset as i128) * (jradius as i128), ONE as i128);
    proof {
        assert(-0x4000_0000_0000_0000_0000_0000_0000_0000 <= (arm as int) * (dir.c as int)
            <= 0x4000_0000_0000_0000_0000_0000_0000_0000
            && -0x4000_0000_0000_0000_0000_0000_0000_0000 <= (arm as int) * (dir.s as int)
            <= 0x4000_0000_0000_0000_0000_0000_0000_0000) by (nonlinear_arith)
            requires
                -0x4000_0000_0000_0000_0000_0000_0000 <= arm <= 0x4000_0000_0000_0000_0000_0000_0000,
                -0x1_0000 <= dir.c <= 0x1_0000,
                -0x1_0000 <= dir.s <= 0x1_0000;
        assert(0x4000_0000_0000_0000_0000_0000_0000 * (ONE as int)
            == 0x4000_0000_0000_0000_0000_0000_0000_0000) by (nonlinear_arith)
            requires ONE == 65536;
        lemma_tdiv_quotient_bound(
            (arm as int) * (dir.c as int),
            ONE as int,
            0x4000_0000_0000_0000_0000_0000_0000,
        );
        lemma_tdiv_quotient_bound(
            (arm as int) * (dir.s as int),
            ONE as int,
            0x4000_0000_0000_0000_0000_0000_0000,
        );
    }
    let px: i128 = jpos.x as i128 + div_trunc(arm * (dir.c as i128), ONE as i128);
    let py: i128 = jpos.y as i128 + div_trunc(arm * (dir.s as i128), ONE as i128);
    if -LIMIT as i128 <= px && px <= LIMIT as i128 && -LIMIT as i128 <= py && py <= LIMIT
        as i128 {
        (AttachmentPoint { position: Vec2 { x: px as i64, y: py as i64 }, angle }, None)
    } else {
        (AttachmentPoint { position: jpos, angle }, Some(SolverError::RangeExceeded))
    }
}

/// Steps every child body of one joint: computes each child's attachment
/// point from the joint's freshly solved pose, pins and steps the child, in
/// order.
fn step_children_exec(
    children: Vec<Body>,
    jpos: Vec2,
    jradius: i64,
    jangle: Heading,
    body_angle: Heading,
    inh: Option<Heading>,
) -> (r: (Vec<Body>, Option<SolverError>))
    requires
        forall|k: int| 0 <= k < children@.len() ==> spec_body_view(#[trigger] children@[k]).wf(),
        bounded(jpos),
        jangle.wf(),
        body_angle.wf(),
        inh is Some ==> inh->0.wf(),
    ensures
        (crate::joint::bodies_view(r.0@), r.1) == step_children(
            crate::joint::bodies_view(children@),
            jpos,
            jradius,
            jangle,
            body_angle,
            inh,
            children@.len() as nat,
        ),
        forall|k: int| 0 <= k < r.0@.len() ==> spec_body_view(#[trigger] r.0@[k]).wf(),
        r.0@.len() == children@.len(),
    decreases children,
{
    let ghost c0 = children;
    let ghost cviews = crate::joint::bodies_view(children@);
    let mut kids = children;
    let mut out: Vec<Body> = Vec::new();
    let mut err: Option<SolverError> = None;
    while kids.len() > 0
        invariant
            c0 == children,
            cviews == crate::joint::bodies_view(c0@),
            kids@.len() <= c0@.len(),
            kids@ =~= c0@.subrange(c0@.len() - kids@.len(), c0@.len() as int),
            out@.len() == c0@.len() - kids@.len(),
            forall|k: int| 0 <= k < c0@.len() ==> spec_body_view(#[trigger] c0@[k]).wf(),
            (crate::joint::bodies_view(out@), err) == step_children(
                cviews,
                jpos,
                jradius,
                jangle,
                body_angle,
                inh,
                out@.len() as nat,
            ),
            forall|k: int| 0 <= k < out@.len() ==> spec_body_view(#[trigger] out@[k]).wf(),
            bounded(jpos),
            jangle.wf(),
            body_angle.wf(),
            inh is Some ==> inh->0.wf(),
        decreases kids@.len(),
    {
        let ghost pre = kids@;
        let ghost idx: int = c0@.len() - pre.len();
        let child = kids.remove(0);
        proof {
            assert(child == pre[0]);
            assert(pre[0] == c0@.subrange(idx, c0@.len() as int)[0]);
            assert(child == c0@[idx]);
            assert(decreases_to!(c0 => c0@));
            assert(decreases_to!(c0@ => c0@[idx]));
            crate::joint::lemma_bodies_view(c0@);
            assert(spec_body_view(child) == cviews[idx]);
            assert(spec_body_view(child).wf());
        }
        let (cap, eap) = make_attachment(
            jpos,
            jradius,
            jangle,
            child.attachment_angle,
            child.attachment_offset,
            body_angle,
            inh,
        );
        let (stepped, ec) = step_body(child, Some(cap));
        if err.is_none() {
            err = eap;
        }
        if err.is_none() {
            err = ec;
        }
        proof {
            crate::joint::lemma_bodies_view_push(out@, stepped);
        }
        out.push(stepped);
    }
    (out, err)
}

/// One solver step of an owned body tree; the workhorse behind
/// [`Body::apply_constraints`].
fn step_body(body: Body, attachment_point: Option<AttachmentPoint>) -> (r: (Body, Option<
    SolverError,
>))
    requires
        spec_body_view(body).wf(),
        attachment_point is Some ==> attachment_point->0.wf(),
    ensures
        (spec_body_view(r.0), r.1) == spec_step(spec_body_view(body), attachment_point),
        spec_body_view(r.0).wf(),
    decreases body,
{
    let ghost b0 = body;
    let ghost bv = spec_body_view(body);
    let Body {
        line_color,
        line_thickness,
        fill_color,
        joints,
        constraints,
        attachment_angle,
        attachment_offset,
        side,
    } = body;
    let mut joints = joints;
    let mut constraints = constraints;
    let n = joints.len();

    // Gather the chain's positions.
    let mut positions: Vec<Vec2> = Vec::new();
    let mut i: usize = 0;
    while i < n
        invariant
            joints@ == b0.joints@,
            n == joints@.len(),
            i <= n,
            positions@.len() == i,
            forall|k: int| 0 <= k < i ==> positions@[k] == b0.joints@[k].pos,
        decreases n - i,
    {
        let p = joints[i].pos;
        positions.push(p);
        i = i + 1;
    }
    proof {
        lemma_joints_view(b0.joints@);
        assert(bv.joints =~= joints_view(b0.joints@));
        assert(positions@ =~= positions_of(bv.joints));
        assert forall|k: int| 0 <= k < positions@.len() implies bounded(
            #[trigger] positions@[k],
        ) by {
            assert(bv.joints[k].wf());
        }
    }

    // Pin the first joint to the attachment point, if attached.
    if n > 0 {
        match attachment_point {
            Some(ap) => {
                positions.set(0, ap.position);
            },
            None => {},
        }
    }
    let ghost ps1: Seq<Vec2> = positions@;
    proof {
        assert(ps1 == (if attachment_point is Some && bv.joints.len() > 0 {
            positions_of(bv.joints).update(0, attachment_point->0.position)
        } else {
            positions_of(bv.joints)
        }));
    }

    // Run every constraint, in list order.
    let m = constraints.len();
    let mut err: Option<SolverError> = None;
    let mut k: usize = 0;
    while k < m
        invariant
            m == constraints@.len(),
            m == bv.constraints.len(),
            k <= m,
            (constraints@, positions@, err) == fold_constraints(
                bv.constraints,
                ps1,
                attachment_point,
                k as nat,
            ),
            all_bounded(positions@),
            forall|i2: int| 0 <= i2 < m ==> (#[trigger] constraints@[i2]).wf(),
            attachment_point is Some ==> attachment_point->0.wf(),
        decreases m - k,
    {
        let mut c = constraints[k];
        let e2 = c.apply(&mut positions, attachment_point);
        constraints.set(k, c);
        if err.is_none() {
            err = e2;
        }
        k = k + 1;
    }
    let ghost step1 = fold_constraints(bv.constraints, ps1, attachment_point, bv.constraints.len() as nat);
    proof {
        lemma_fold_constraints_len(bv.constraints, ps1, attachment_point, bv.constraints.len() as nat);
    }
    let ghost ps2: Seq<Vec2> = positions@;
    let inh: Option<Heading> = match attachment_point {
        None => None,
        Some(a) => Some(a.angle),
    };

    // Derive each joint's orientation and step its children.
    let mut new_joints: Vec<Joint> = Vec::new();
    let mut i2: usize = 0;
    while joints.len() > 0
        invariant
            b0 == body,
            bv == spec_body_view(b0),
            bv.joints == joints_view(b0.joints@),
            n == b0.joints@.len(),
            n == bv.joints.len(),
            joints@.len() <= n,
            joints@ =~= b0.joints@.subrange(n - joints@.len(), n as int),
            i2 == n - joints@.len(),
            new_joints@.len() == i2,
            positions@ == ps2,
            ps2.len() == n,
            all_bounded(ps2),
            joints_view(new_joints@) == step_joints(
                bv.joints,
                ps2,
                bv.attachment_angle,
                inh,
                i2 as nat,
            ).0,
            err == first_err(
                step1.2,
                step_joints(bv.joints, ps2, bv.attachment_angle, inh, i2 as nat).1,
            ),
            forall|k2: int|
                0 <= k2 < new_joints@.len() ==> spec_joint_view(#[trigger] new_joints@[k2]).wf(),
            forall|k2: int| 0 <= k2 < bv.joints.len() ==> (#[trigger] bv.joints[k2]).wf(),
            inh is Some ==> inh->0.wf(),
            bv.attachment_angle.wf(),
            attachment_angle == bv.attachment_angle,
        decreases joints@.len(),
    {
        let ghost pre = joints@;
        let ghost idx: int = n - pre.len();
        let mut j = joints.remove(0);
        proof {
            assert(j == pre[0]);
            assert(pre[0] == b0.joints@.subrange(idx, n as int)[0]);
            assert(j == b0.joints@[idx]);
            lemma_joints_view(b0.joints@);
            assert(spec_joint_view(j) == bv.joints[idx]);
            assert(bv.joints[idx].wf());
        }
        let ghost j0 = j;
        let npos = positions[i2];
        let nangle: Heading = if n >= 2 {
            if i2 >= 1 {
                let p0 = positions[i2 - 1];
                let p1 = positions[i2];
                unit_between(&p0, &p1)
            } else {
                let p0 = positions[0];
                let p1 = positions[1];
                unit_between(&p0, &p1)
            }
        } else {
            j.angle
        };
        proof {
            assert(nangle == chain_angle(ps2, bv.joints[idx].angle, idx));
            assert(nangle.wf());
        }
        j.pos = npos;
        j.angle = nangle;
        let kids = j.bodies;
        proof {
            assert(decreases_to!(b0 => b0.joints));
            assert(decreases_to!(b0.joints => b0.joints@));
            assert(decreases_to!(b0.joints@ => b0.joints@[idx]));
            assert(decreases_to!(b0.joints@[idx] => b0.joints@[idx].bodies));
            assert(kids == b0.joints@[idx].bodies);
            crate::joint::lemma_bodies_view(j0.bodies@);
            assert forall|k2: int| 0 <= k2 < kids@.len() implies spec_body_view(
                #[trigger] kids@[k2],
            ).wf() by {
                assert(bv.joints[idx].bodies[k2] == spec_body_view(j0.bodies@[k2]));
                assert(bv.joints[idx].bodies[k2].wf());
            }
        }
        let (new_kids, ek) = step_children_exec(kids, npos, j.radius, nangle, attachment_angle, inh);
        if err.is_none() {
            err = ek;
        }
        j.bodies = new_kids;
        proof {
            lemma_joints_view_push(new_joints@, j);
            assert(crate::joint::bodies_view(kids@) == bv.joints[idx].bodies);
            assert(spec_joint_view(j) == (JointView {
                pos: npos,
                radius: bv.joints[idx].radius,
                angle: nangle,
                bodies: step_children(
                    bv.joints[idx].bodies,
                    npos,
                    bv.joints[idx].radius,
                    nangle,
                    bv.attachment_angle,
                    inh,
                    bv.joints[idx].bodies.len() as nat,
                ).0,
            }));
            crate::joint::lemma_bodies_view(new_kids@);
            assert forall|k2: int| 0 <= k2 < spec_joint_view(j).bodies.len() implies (
            #[trigger] spec_joint_view(j).bodies[k2]).wf() by {
                assert(spec_joint_view(j).bodies[k2] == spec_body_view(new_kids@[k2]));
            }
            assert(spec_joint_view(j).wf());
        }
        new_joints.push(j);
        i2 = i2 + 1;
    }

    let out = Body {
        line_color,
        line_thickness,
        fill_color,
        joints: new_joints,
        constraints,
        attachment_angle,
        attachment_offset,
        side,
    };
    proof {
        assert(spec_body_view(out).joints == step_joints(
            bv.joints,
            ps2,
            bv.attachment_angle,
            inh,
            bv.joints.len() as nat,
        ).0);
        assert(spec_body_view(out) == spec_step(bv, attachment_point).0);
        assert(err == spec_step(bv, attachment_point).1);
        lemma_joints_view(out.joints@);
        assert forall|k2: int| 0 <= k2 < spec_body_view(out).joints.len() implies (
        #[trigger] spec_body_view(out).joints[k2]).wf() by {
            assert(spec_body_view(out).joints[k2] == spec_joint_view(out.joints@[k2]));
        }
        assert(spec_body_view(out).wf());
    }
    (out, err)
}

impl Body {
    /// Appends a constraint and hands the body back.
    pub fn with_constraint(self, constraint: Constraint) -> (r: Self)
        ensures
            r.constraints@ == self.constraints@.push(constraint),
            r.joints@ == self.joints@,
            r.line_color == self.line_color,
            r.line_thickness == self.line_thickness,
            r.fill_color == self.fill_color,
            r.attachment_angle == self.attachment_angle,
            r.attachment_offset == self.attachment_offset,
            r.side == self.side,
    {
        let mut this = self;
        this.add_constraint(constraint);
        this
    }

    /// Appends a constraint.
    pub fn add_constraint(&mut self, constraint: Constraint)
        ensures
            final(self).constraints@ == old(self).constraints@.push(constraint),
            final(self).joints@ == old(self).joints@,
            final(self).line_color == old(self).line_color,
            final(self).line_thickness == old(self).line_thickness,
            final(self).fill_color == old(self).fill_color,
            final(self).attachment_angle == old(self).attachment_angle,
            final(self).attachment_offset == old(self).attachment_offset,
            final(self).side == old(self).side,
    {
        self.constraints.push(constraint);
    }

    /// One solver step: runs every constraint of this body in list order
    /// (each seeing the previous one's result), derives every joint's
    /// orientation from the new positions, pins every child body to the
    /// attachment point computed from its parent joint, and recurses into
    /// the children — parents always settle before their children.
    ///
    /// The root of a tree is stepped with no attachment point; the solver
    /// itself supplies one to every child.
    ///
    /// A step never panics. If the tree (or the given attachment point)
    /// holds a scalar outside the representable region, nothing moves and
    /// `SolverError::InvalidState` comes back. Otherwise the step always
    /// completes and the new state is exactly [`spec_step`] of the old; if
    /// an anomaly was met on the way (a constraint run without the
    /// attachment point it needs, or a computed point out of range — both
    /// of which leave their joints unmoved rather than fail), the first
    /// such anomaly is reported alongside.
    pub fn apply_constraints(&mut self, attachment_point: Option<AttachmentPoint>) -> (r: Result<
        (),
        SolverError,
    >)
        ensures
            ({
                let ok = old(self)@.wf() && (attachment_point is Some
                    ==> attachment_point->0.wf());
                if ok {
                    let (bv, e) = spec_step(old(self)@, attachment_point);
                    &&& final(self)@ == bv
                    &&& final(self)@.wf()
                    &&& match e {
                        None => r == Ok::<(), SolverError>(()),
                        Some(er) => r == Err::<(), SolverError>(er),
                    }
                } else {
                    &&& r == Err::<(), SolverError>(SolverError::InvalidState)
                    &&& *final(self) == *old(self)
                }
            }),
    {
        let ap_ok = match &attachment_point {
            None => true,
            Some(ap) => ap.is_wf(),
        };
        if !ap_ok {
            return Err(SolverError::InvalidState);
        }
        if !check_body_wf(self) {
            return Err(SolverError::InvalidState);
        }
        let mut tmp = Body {
            line_color: Rgba { r: 0, g: 0, b: 0, a: 0 },
            line_thickness: 0,
            fill_color: Rgba { r: 0, g: 0, b: 0, a: 0 },
            joints: Vec::new(),
            constraints: Vec::new(),
            attachment_angle: Heading { c: ONE, s: 0 },
            attachment_offset: 0,
            side: Side::Front,
        };
        core::mem::swap(self, &mut tmp);
        let (stepped, e) = step_body(tmp, attachment_point);
        *self = stepped;
        match e {
            None => Ok(()),
            Some(er) => Err(er),
        }
    }
}

} // verus!
