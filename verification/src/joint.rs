//! Joints: positioned, radius-bearing points with a derived orientation,
//! each owning the child bodies attached to it.

use vstd::prelude::*;

use crate::body::{is_body_from, spec_body_view, Body, BodyDescriptor, BodyView};
use crate::fixed::ONE;
use crate::heading::Heading;
use crate::vec2::{bounded, Vec2};

verus! {

/// A point of a body's chain: a world-space position, a radius (used for
/// child attachment offsets and for the silhouette), an orientation derived
/// each frame from the chain's positions, and the child bodies anchored at
/// this joint.
#[derive(Debug)]
pub struct Joint {
    pub pos: Vec2,
    pub radius: i64,
    pub angle: Heading,
    pub bodies: Vec<Body>,
}

/// Plain data from which a [`Joint`] is built.
#[derive(Debug)]
pub struct JointDescriptor {
    pub radius: i64,
    pub bodies: Vec<BodyDescriptor>,
}

/// The mathematical value of a [`Joint`].
#[verifier::ext_equal]
pub ghost struct JointView {
    pub pos: Vec2,
    pub radius: i64,
    pub angle: Heading,
    pub bodies: Seq<BodyView>,
}

/// The mathematical values of a list of child [`Body`] trees.
pub open spec fn bodies_view(s: Seq<Body>) -> Seq<BodyView>
    decreases s,
{
    if s.len() == 0 {
        Seq::empty()
    } else {
        bodies_view(s.subrange(0, s.len() - 1)).push(crate::body::spec_body_view(s[s.len() - 1]))
    }
}

/// A list's view has one body view per body, in order.
pub proof fn lemma_bodies_view(s: Seq<Body>)
    ensures
        bodies_view(s).len() == s.len(),
        forall|i: int|
            0 <= i < s.len() ==> bodies_view(s)[i] == crate::body::spec_body_view(
                #[trigger] s[i],
            ),
    decreases s,
{
    if s.len() > 0 {
        lemma_bodies_view(s.subrange(0, s.len() - 1));
        assert forall|i: int|
            0 <= i < s.len() implies bodies_view(s)[i] == crate::body::spec_body_view(
            #[trigger] s[i],
        ) by {
            if i < s.len() - 1 {
                assert(s.subrange(0, s.len() - 1)[i] == s[i]);
            }
        }
    }
}

/// Appending a body appends its view.
pub proof fn lemma_bodies_view_push(s: Seq<Body>, b: Body)
    ensures
        bodies_view(s.push(b)) == bodies_view(s).push(crate::body::spec_body_view(b)),
{
    assert(s.push(b).subrange(0, s.len() as int) =~= s);
    assert(bodies_view(s.push(b)) =~= bodies_view(s).push(crate::body::spec_body_view(b)));
}

/// The mathematical value of a [`Joint`].
pub open spec fn spec_joint_view(j: Joint) -> JointView
    decreases j,
{
    JointView {
        pos: j.pos,
        radius: j.radius,
        angle: j.angle,
        bodies: bodies_view(j.bodies@),
    }
}

impl View for Joint {
    type V = JointView;

    open spec fn view(&self) -> JointView {
        spec_joint_view(*self)
    }
}

impl JointView {
    /// Whether the joint can take part in a solver step: its position is
    /// representable, its orientation is a normalised direction, and every
    /// child body is itself well-formed.
    pub open spec fn wf(self) -> bool
        decreases self,
    {
        &&& bounded(self.pos)
        &&& self.angle.wf()
        &&& forall|i: int| 0 <= i < self.bodies.len() ==> (#[trigger] self.bodies[i]).wf()
    }
}

/// Whether each body of `bs` was built from the corresponding descriptor of
/// `ds`.
pub open spec fn is_bodies_from(bs: Seq<Body>, ds: Seq<BodyDescriptor>) -> bool
    decreases ds,
{
    if ds.len() == 0 {
        bs.len() == 0
    } else {
        &&& bs.len() == ds.len()
        &&& is_body_from(bs[ds.len() - 1], ds[ds.len() - 1])
        &&& is_bodies_from(bs.subrange(0, bs.len() - 1), ds.subrange(0, ds.len() - 1))
    }
}

/// Extending both lists by one converted body keeps the relation.
pub proof fn lemma_is_bodies_from_push(
    bs: Seq<Body>,
    ds: Seq<BodyDescriptor>,
    b: Body,
    d: BodyDescriptor,
)
    requires
        is_bodies_from(bs, ds),
        is_body_from(b, d),
    ensures
        is_bodies_from(bs.push(b), ds.push(d)),
{
    assert(bs.push(b).subrange(0, bs.len() as int) =~= bs);
    assert(ds.push(d).subrange(0, ds.len() as int) =~= ds);
}

/// Whether `j` is the joint that `d` describes: the radius is copied, the
/// position starts at the origin, the orientation starts along the positive
/// x-axis, and every child body is built from its descriptor in order.
pub open spec fn is_joint_from(j: Joint, d: JointDescriptor) -> bool
    decreases d,
{
    &&& j.pos == (Vec2 { x: 0, y: 0 })
    &&& j.angle == (Heading { c: ONE, s: 0 })
    &&& j.radius == d.radius
    &&& is_bodies_from(j.bodies@, d.bodies@)
}

impl Joint {
    /// Builds the joint that `descriptor` describes, converting every child
    /// body in order; the joint starts at the origin (the first solver pass
    /// positions it).
    pub fn new(descriptor: JointDescriptor) -> (r: Joint)
        ensures
            is_joint_from(r, descriptor),
            r@.wf(),
        decreases descriptor,
    {
        let ghost d0 = descriptor;
        let JointDescriptor { radius, bodies } = descriptor;
        let mut bodies = bodies;
        let mut out: Vec<Body> = Vec::new();
        let ghost all: Seq<BodyDescriptor> = d0.bodies@;
        while bodies.len() > 0
            invariant
                d0 == descriptor,
                all == d0.bodies@,
                bodies@.len() <= all.len(),
                bodies@ =~= all.subrange(all.len() - bodies@.len(), all.len() as int),
                is_bodies_from(out@, all.subrange(0, all.len() - bodies@.len())),
                out@.len() == all.len() - bodies@.len(),
                forall|k: int|
                    0 <= k < out@.len() ==> spec_body_view(#[trigger] out@[k]).wf(),
            decreases bodies@.len(),
        {
            let ghost pre = bodies@;
            let ghost idx: int = all.len() - pre.len();
            let bd = bodies.remove(0);
            proof {
                assert(bd == pre[0]);
                assert(pre[0] == all.subrange(idx, all.len() as int)[0]);
                assert(bd == all[idx]);
                assert(decreases_to!(d0 => d0.bodies));
                assert(decreases_to!(d0.bodies => d0.bodies@));
                assert(decreases_to!(d0.bodies@ => d0.bodies@[idx]));
            }
            let nb = Body::new(bd);
            proof {
                lemma_is_bodies_from_push(
                    out@,
                    all.subrange(0, idx),
                    nb,
                    bd,
                );
                assert(all.subrange(0, idx).push(all[idx]) =~= all.subrange(0, idx + 1));
            }
            out.push(nb);
        }
        proof {
            assert(all.subrange(0, all.len() as int) =~= all);
        }
        let r = Joint { pos: Vec2 { x: 0, y: 0 }, radius, angle: Heading { c: ONE, s: 0 }, bodies: out };
        proof {
            lemma_bodies_view(r.bodies@);
            assert forall|i: int| 0 <= i < r@.bodies.len() implies (#[trigger] r@.bodies[i]).wf() by {
                assert(r@.bodies[i] == spec_body_view(r.bodies@[i]));
            }
        }
        r
    }
}

/// Decides at run time whether a joint (and everything below it) can take
/// part in a solver step.
pub fn check_joint_wf(j: &Joint) -> (r: bool)
    ensures
        r == spec_joint_view(*j).wf(),
    decreases *j,
{
    proof {
        lemma_bodies_view(j.bodies@);
    }
    if !j.pos.is_bounded() || !j.angle.is_wf() {
        return false;
    }
    let n = j.bodies.len();
    let mut i: usize = 0;
    while i < n
        invariant
            i <= n == j.bodies@.len(),
            forall|k: int| 0 <= k < i ==> spec_body_view(#[trigger] j.bodies@[k]).wf(),
        decreases n - i,
    {
        proof {
            assert(decreases_to!(*j => j.bodies));
            assert(decreases_to!(j.bodies => j.bodies@));
            assert(decreases_to!(j.bodies@ => j.bodies@[i as int]));
        }
        let ok = crate::body::check_body_wf(&j.bodies[i]);
        if !ok {
            proof {
                lemma_bodies_view(j.bodies@);
                assert(spec_joint_view(*j).bodies[i as int] == spec_body_view(j.bodies@[i as int]));
            }
            return false;
        }
        i = i + 1;
    }
    proof {
        lemma_bodies_view(j.bodies@);
        assert forall|k: int| 0 <= k < spec_joint_view(*j).bodies.len() implies (
        #[trigger] spec_joint_view(*j).bodies[k]).wf() by {
            assert(spec_joint_view(*j).bodies[k] == spec_body_view(j.bodies@[k]));
        }
    }
    true
}

impl Default for JointDescriptor {
    /// A five-unit radius and no child bodies.
    fn default() -> (r: Self)
        ensures
            r.radius == 5 * ONE,
            r.bodies@.len() == 0,
    {
        JointDescriptor { radius: 5 * ONE, bodies: Vec::new() }
    }
}

impl JointDescriptor {
    /// Appends a child body descriptor.
    pub fn add_body(&mut self, descriptor: BodyDescriptor)
        ensures
            final(self).radius == old(self).radius,
            final(self).bodies@ == old(self).bodies@.push(descriptor),
    {
        self.bodies.push(descriptor);
    }
}

impl Joint {
    /// Appends a child body and hands the joint back.
    pub fn with_body(self, body: Body) -> (r: Self)
        ensures
            r.pos == self.pos,
            r.radius == self.radius,
            r.angle == self.angle,
            r.bodies@ == self.bodies@.push(body),
    {
        let mut this = self;
        this.add_body(body);
        this
    }

    /// Appends a child body.
    pub fn add_body(&mut self, body: Body)
        ensures
            final(self).pos == old(self).pos,
            final(self).radius == old(self).radius,
            final(self).angle == old(self).angle,
            final(self).bodies@ == old(self).bodies@.push(body),
    {
        self.bodies.push(body);
    }
}

} // verus!
