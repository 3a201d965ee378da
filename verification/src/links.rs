//! Joints, links, and the serial and star chain types.
//!
//! A [`Joint`] is a named degree of freedom; a [`LinkedJoint`] pairs it with
//! the fixed offset of the link it moves.  A [`LinkedFrame`] is a serial
//! chain of linked joints behind one base transform, and a [`RobotFrame`]
//! is a star of such chains sharing a base.  The [`KinematicChain`] trait
//! is what the solver works against.

use vstd::prelude::*;

use crate::scalar::{rlt, rlt_of, Real, rint, rof_int};
use crate::transform::{
    iso_identity_spec, iso_mul_spec, quat_from_axis_angle_spec, quat_identity_spec,
    vec3_scale_spec, vec3_zero_spec, Isometry, UnitQuaternion, Vector3,
};

verus! {

/// The kind of a joint: a fixed attachment, a rotation about an axis, or a
/// translation along an axis.  The axis is a unit vector.
#[derive(Clone, Copy)]
pub enum JointType {
    Fixed,
    Rotational { axis: Vector3 },
    Linear { axis: Vector3 },
}

/// What a mutation of a joint can fail with.
#[derive(Clone, Debug, PartialEq, Eq, Structural)]
pub enum JointError {
    /// The angle was rejected: the joint is fixed, or a limit was crossed.
    OutOfLimit,
    /// An angle vector's length does not match the chain's degrees of freedom.
    SizeMisMatch,
}

/// An open interval of allowed angles.
#[derive(Clone, Copy)]
pub struct Range {
    pub min: Real,
    pub max: Real,
}

/// A value lies in the range when it is strictly between the two bounds.
pub open spec fn range_valid_spec(rg: Range, val: Real) -> bool {
    rlt_of(val, rg.max) && rlt_of(rg.min, val)
}

impl Range {
    pub fn is_valid(&self, val: Real) -> (r: bool)
        ensures
            r == range_valid_spec(*self, val),
    {
        rlt(val, self.max) && rlt(self.min, val)
    }
}

/// A named degree of freedom with a type, a current angle, and optional
/// limits.
pub struct Joint {
    pub name: String,
    pub joint_type: JointType,
    pub angle: Real,
    pub limits: Option<Range>,
}

/// An angle that the joint accepts: the joint is not fixed, and the angle
/// lies inside the limits when limits are present.
pub open spec fn joint_angle_ok(j: Joint, angle: Real) -> bool {
    &&& !(j.joint_type is Fixed)
    &&& match j.limits {
        Some(rg) => range_valid_spec(rg, angle),
        None => true,
    }
}

/// The local motion a joint contributes: nothing for a fixed joint, a pure
/// rotation about its axis for a rotational one, a pure translation along
/// its axis for a linear one.
pub open spec fn joint_transform_spec(j: Joint) -> Isometry {
    match j.joint_type {
        JointType::Fixed => iso_identity_spec(),
        JointType::Rotational { axis } => Isometry {
            rotation: quat_from_axis_angle_spec(axis, j.angle),
            translation: vec3_zero_spec(),
        },
        JointType::Linear { axis } => Isometry {
            rotation: quat_identity_spec(),
            translation: vec3_scale_spec(axis, j.angle),
        },
    }
}

impl Clone for Joint {
    fn clone(&self) -> (r: Joint)
        ensures
            r == *self,
    {
        Joint {
            name: self.name.clone(),
            joint_type: self.joint_type,
            angle: self.angle,
            limits: self.limits,
        }
    }
}

impl Joint {
    /// A new joint with the given name and type, at angle zero, unlimited.
    pub fn new(name: &str, joint_type: JointType) -> (r: Joint)
        ensures
            r.name@ == name@,
            r.joint_type == joint_type,
            r.angle == rof_int(0),
            r.limits is None,
    {
        Joint { name: name.to_owned(), joint_type, angle: rint(0), limits: None }
    }

    pub fn set_limits(&mut self, limits: Option<Range>)
        ensures
            *final(self) == (Joint { limits, ..*old(self) }),
    {
        self.limits = limits;
    }

    /// Accepts the angle exactly when the joint is not fixed and the angle
    /// lies inside the limits; on failure nothing changes.
    pub fn set_angle(&mut self, angle: Real) -> (r: Result<(), JointError>)
        ensures
            r is Ok <==> joint_angle_ok(*old(self), angle),
            r is Ok ==> *final(self) == (Joint { angle, ..*old(self) }),
            !(r is Ok) ==> *final(self) == *old(self) && r == Err::<(), JointError>(
                JointError::OutOfLimit,
            ),
    {
        match self.joint_type {
            JointType::Fixed => {
                return Err(JointError::OutOfLimit);
            },
            _ => {},
        }
        match self.limits {
            Some(range) => {
                if !range.is_valid(angle) {
                    return Err(JointError::OutOfLimit);
                }
            },
            None => {},
        }
        self.angle = angle;
        Ok(())
    }

    /// A fixed joint has no angle; every other joint hands its angle out.
    pub fn get_angle(&self) -> (r: Option<Real>)
        ensures
            r == if self.joint_type is Fixed {
                None::<Real>
            } else {
                Some(self.angle)
            },
    {
        match self.joint_type {
            JointType::Fixed => None,
            _ => Some(self.angle),
        }
    }

    pub fn calc_transform(&self) -> (r: Isometry)
        ensures
            r == joint_transform_spec(*self),
    {
        match self.joint_type {
            JointType::Fixed => Isometry::identity(),
            JointType::Rotational { axis } => Isometry::from_parts(
                Vector3::zero(),
                UnitQuaternion::from_axis_angle(axis, self.angle),
            ),
            JointType::Linear { axis } => Isometry::from_parts(
                axis.scale(self.angle),
                UnitQuaternion::identity(),
            ),
        }
    }
}

/// A joint together with the fixed offset of the link it moves.  The cache
/// holds the last world pose a tree walk computed for this unit.
pub struct LinkedJoint {
    pub name: String,
    pub joint: Joint,
    pub transform: Isometry,
    pub world_transform_cache: Option<Isometry>,
}

/// The combined transform of a unit: the fixed link offset first, then the
/// joint's own motion.
pub open spec fn lj_transform_spec(lj: LinkedJoint) -> Isometry {
    iso_mul_spec(lj.transform, joint_transform_spec(lj.joint))
}

/// Whether the unit carries a settable angle.
pub open spec fn has_angle_spec(lj: LinkedJoint) -> bool {
    !(lj.joint.joint_type is Fixed)
}

/// The unit with only its angle replaced.
pub open spec fn with_angle_spec(lj: LinkedJoint, a: Real) -> LinkedJoint {
    LinkedJoint { joint: Joint { angle: a, ..lj.joint }, ..lj }
}

impl Clone for LinkedJoint {
    fn clone(&self) -> (r: LinkedJoint)
        ensures
            r == *self,
    {
        LinkedJoint {
            name: self.name.clone(),
            joint: self.joint.clone(),
            transform: self.transform,
            world_transform_cache: self.world_transform_cache,
        }
    }
}

impl LinkedJoint {
    /// A unit from a name and a joint, with the identity link offset.
    pub fn new(name: &str, joint: Joint) -> (r: LinkedJoint)
        ensures
            r.name@ == name@,
            r.joint == joint,
            r.transform == iso_identity_spec(),
            r.world_transform_cache is None,
    {
        LinkedJoint {
            name: name.to_owned(),
            joint,
            transform: Isometry::identity(),
            world_transform_cache: None,
        }
    }

    pub fn get_joint_name(&self) -> (r: &str)
        ensures
            r@ == self.joint.name@,
    {
        self.joint.name.as_str()
    }

    pub fn calc_transform(&self) -> (r: Isometry)
        ensures
            r == lj_transform_spec(*self),
    {
        self.transform.mul(self.joint.calc_transform())
    }

    pub fn set_joint_angle(&mut self, angle: Real) -> (r: Result<(), JointError>)
        ensures
            r is Ok <==> joint_angle_ok(old(self).joint, angle),
            r is Ok ==> *final(self) == with_angle_spec(*old(self), angle),
            !(r is Ok) ==> *final(self) == *old(self) && r == Err::<(), JointError>(
                JointError::OutOfLimit,
            ),
    {
        self.joint.set_angle(angle)
    }

    pub fn get_joint_angle(&self) -> (r: Option<Real>)
        ensures
            r == if has_angle_spec(*self) {
                Some(self.joint.angle)
            } else {
                None::<Real>
            },
    {
        self.joint.get_angle()
    }

    pub fn has_joint_angle(&self) -> (r: bool)
        ensures
            r == has_angle_spec(*self),
    {
        match self.joint.joint_type {
            JointType::Fixed => false,
            _ => true,
        }
    }
}

/// Builds a [`LinkedJoint`] step by step.
pub struct LinkedJointBuilder {
    pub name: String,
    pub joint: Joint,
    pub transform: Isometry,
}

impl LinkedJointBuilder {
    pub fn new() -> (r: LinkedJointBuilder)
        ensures
            r.name@ == Seq::<char>::empty(),
            r.joint.name@ == Seq::<char>::empty(),
            r.joint.joint_type is Fixed,
            r.joint.angle == rof_int(0),
            r.joint.limits is None,
            r.transform == iso_identity_spec(),
    {
        proof {
            reveal_strlit("");
        }
        LinkedJointBuilder {
            name: String::new(),
            joint: Joint::new("", JointType::Fixed),
            transform: Isometry::identity(),
        }
    }

    pub fn name(self, name: &str) -> (r: LinkedJointBuilder)
        ensures
            r.name@ == name@,
            r.joint == self.joint,
            r.transform == self.transform,
    {
        LinkedJointBuilder { name: name.to_owned(), ..self }
    }

    pub fn joint(self, name: &str, joint_type: JointType) -> (r: LinkedJointBuilder)
        ensures
            r.name == self.name,
            r.joint.name@ == name@,
            r.joint.joint_type == joint_type,
            r.joint.angle == rof_int(0),
            r.joint.limits is None,
            r.transform == self.transform,
    {
        LinkedJointBuilder { joint: Joint::new(name, joint_type), ..self }
    }

    pub fn transform(self, transform: Isometry) -> (r: LinkedJointBuilder)
        ensures
            r.name == self.name,
            r.joint == self.joint,
            r.transform == transform,
    {
        LinkedJointBuilder { transform, ..self }
    }

    pub fn translation(self, translation: Vector3) -> (r: LinkedJointBuilder)
        ensures
            r.name == self.name,
            r.joint == self.joint,
            r.transform == (Isometry { translation, ..self.transform }),
    {
        LinkedJointBuilder { transform: Isometry { translation, ..self.transform }, ..self }
    }

    pub fn rotation(self, rotation: UnitQuaternion) -> (r: LinkedJointBuilder)
        ensures
            r.name == self.name,
            r.joint == self.joint,
            r.transform == (Isometry { rotation, ..self.transform }),
    {
        LinkedJointBuilder { transform: Isometry { rotation, ..self.transform }, ..self }
    }

    pub fn finalize(self) -> (r: LinkedJoint)
        ensures
            r.name == self.name,
            r.joint == self.joint,
            r.transform == self.transform,
            r.world_transform_cache is None,
    {
        LinkedJoint {
            name: self.name,
            joint: self.joint,
            transform: self.transform,
            world_transform_cache: None,
        }
    }
}

/// The base transform folded through every unit's combined transform, left
/// to right, root first.
pub open spec fn end_transform_spec(base: Isometry, s: Seq<LinkedJoint>) -> Isometry
    decreases s.len(),
{
    if s.len() == 0 {
        base
    } else {
        iso_mul_spec(end_transform_spec(base, s.drop_last()), lj_transform_spec(s.last()))
    }
}

/// The angles of the non-fixed units, in order; fixed units are skipped.
pub open spec fn angles_of(s: Seq<LinkedJoint>) -> Seq<Real>
    decreases s.len(),
{
    if s.len() == 0 {
        Seq::<Real>::empty()
    } else if has_angle_spec(s.first()) {
        seq![s.first().joint.angle] + angles_of(s.subrange(1, s.len() as int))
    } else {
        angles_of(s.subrange(1, s.len() as int))
    }
}

/// Whether assigning the angles front to back succeeds for every non-fixed
/// unit: each must get an in-limits angle, and the angles must not run out.
pub open spec fn angles_ok_from(s: Seq<LinkedJoint>, a: Seq<Real>) -> bool
    decreases s.len(),
{
    if s.len() == 0 {
        true
    } else if has_angle_spec(s.first()) {
        &&& a.len() > 0
        &&& joint_angle_ok(s.first().joint, a.first())
        &&& angles_ok_from(s.subrange(1, s.len() as int), a.subrange(1, a.len() as int))
    } else {
        angles_ok_from(s.subrange(1, s.len() as int), a)
    }
}

/// The units after assigning the angles front to back; the first rejected
/// angle leaves its unit and everything after it unchanged.
pub open spec fn apply_angles_from(s: Seq<LinkedJoint>, a: Seq<Real>) -> Seq<LinkedJoint>
    decreases s.len(),
{
    if s.len() == 0 {
        s
    } else if has_angle_spec(s.first()) {
        if a.len() > 0 && joint_angle_ok(s.first().joint, a.first()) {
            seq![with_angle_spec(s.first(), a.first())] + apply_angles_from(
                s.subrange(1, s.len() as int),
                a.subrange(1, a.len() as int),
            )
        } else {
            s
        }
    } else {
        seq![s.first()] + apply_angles_from(s.subrange(1, s.len() as int), a)
    }
}

/// The static shape shared by two unit sequences: the same length, and unit
/// by unit the same joint type and the same limits.
pub open spec fn same_structure(a: Seq<LinkedJoint>, b: Seq<LinkedJoint>) -> bool {
    &&& a.len() == b.len()
    &&& forall|i: int|
        0 <= i < a.len() ==> ((#[trigger] a[i]).joint.joint_type == b[i].joint.joint_type && a[
            i
        ].joint.limits == b[i].joint.limits)
}

/// Assigning angles never changes a chain's static shape.
pub proof fn lemma_apply_keeps_structure(s: Seq<LinkedJoint>, a: Seq<Real>)
    ensures
        same_structure(apply_angles_from(s, a), s),
    decreases s.len(),
{
    if s.len() == 0 {
    } else {
        let st = s.subrange(1, s.len() as int);
        if has_angle_spec(s.first()) {
            if a.len() > 0 && joint_angle_ok(s.first().joint, a.first()) {
                lemma_apply_keeps_structure(st, a.subrange(1, a.len() as int));
            }
        } else {
            lemma_apply_keeps_structure(st, a);
        }
    }
}

/// Two chains of the same shape accept exactly the same angle vectors.
pub proof fn lemma_ok_same_structure(a: Seq<LinkedJoint>, b: Seq<LinkedJoint>, v: Seq<Real>)
    requires
        same_structure(a, b),
    ensures
        angles_ok_from(a, v) == angles_ok_from(b, v),
    decreases a.len(),
{
    if a.len() == 0 {
    } else {
        let at = a.subrange(1, a.len() as int);
        let bt = b.subrange(1, b.len() as int);
        assert(same_structure(at, bt));
        if has_angle_spec(a.first()) {
            if v.len() > 0 {
                lemma_ok_same_structure(at, bt, v.subrange(1, v.len() as int));
            }
        } else {
            lemma_ok_same_structure(at, bt, v);
        }
    }
}

/// Two chains of the same shape have the same number of degrees of freedom.
pub proof fn lemma_same_structure_dof(a: Seq<LinkedJoint>, b: Seq<LinkedJoint>)
    requires
        same_structure(a, b),
    ensures
        angles_of(a).len() == angles_of(b).len(),
    decreases a.len(),
{
    if a.len() == 0 {
    } else {
        let at = a.subrange(1, a.len() as int);
        let bt = b.subrange(1, b.len() as int);
        assert(same_structure(at, bt));
        lemma_same_structure_dof(at, bt);
    }
}

/// A successful full assignment reads back exactly as it was assigned.
pub proof fn lemma_set_then_get(s: Seq<LinkedJoint>, a: Seq<Real>)
    requires
        angles_ok_from(s, a),
        a.len() == angles_of(s).len(),
    ensures
        angles_of(apply_angles_from(s, a)) == a,
    decreases s.len(),
{
    if s.len() == 0 {
        assert(a =~= Seq::<Real>::empty());
    } else {
        let st = s.subrange(1, s.len() as int);
        if has_angle_spec(s.first()) {
            let at = a.subrange(1, a.len() as int);
            lemma_set_then_get(st, at);
            let upd = with_angle_spec(s.first(), a.first());
            let res = seq![upd] + apply_angles_from(st, at);
            assert(res.first() == upd);
            assert(res.subrange(1, res.len() as int) =~= apply_angles_from(st, at));
            assert(seq![a.first()] + at =~= a);
        } else {
            lemma_set_then_get(st, a);
            let res = seq![s.first()] + apply_angles_from(st, a);
            assert(res.subrange(1, res.len() as int) =~= apply_angles_from(st, a));
        }
    }
}

/// A later full assignment overwrites an earlier one completely.
pub proof fn lemma_apply_overwrite(s: Seq<LinkedJoint>, x: Seq<Real>, y: Seq<Real>)
    requires
        angles_ok_from(s, x),
        x.len() == angles_of(s).len(),
        angles_ok_from(s, y),
        y.len() == angles_of(s).len(),
    ensures
        apply_angles_from(apply_angles_from(s, x), y) == apply_angles_from(s, y),
    decreases s.len(),
{
    if s.len() == 0 {
    } else {
        let st = s.subrange(1, s.len() as int);
        if has_angle_spec(s.first()) {
            let xt = x.subrange(1, x.len() as int);
            let yt = y.subrange(1, y.len() as int);
            lemma_apply_overwrite(st, xt, yt);
            let ux = with_angle_spec(s.first(), x.first());
            let lhs1 = seq![ux] + apply_angles_from(st, xt);
            assert(lhs1.first() == ux);
            assert(lhs1.subrange(1, lhs1.len() as int) =~= apply_angles_from(st, xt));
            assert(with_angle_spec(ux, y.first()) == with_angle_spec(s.first(), y.first()));
            assert(seq![with_angle_spec(ux, y.first())] + apply_angles_from(
                apply_angles_from(st, xt),
                yt,
            ) =~= seq![with_angle_spec(s.first(), y.first())] + apply_angles_from(st, yt));
        } else {
            lemma_apply_overwrite(st, x, y);
            let lhs1 = seq![s.first()] + apply_angles_from(st, x);
            assert(lhs1.first() == s.first());
            assert(lhs1.subrange(1, lhs1.len() as int) =~= apply_angles_from(st, x));
            assert(seq![s.first()] + apply_angles_from(apply_angles_from(st, x), y) =~= seq![
                s.first(),
            ] + apply_angles_from(st, y));
        }
    }
}

/// The end transform is a pure function of the chain's state: two chains
/// in the same state, or one chain read twice without a mutation between
/// the reads, give the very same value, because every scalar step is
/// pinned to a named operation.
pub proof fn lemma_end_transform_pure<K: KinematicChain>(a: &K, b: &K)
    requires
        a.joints_view() == b.joints_view(),
        a.base_view() == b.base_view(),
    ensures
        end_transform_spec(a.base_view(), a.joints_view()) == end_transform_spec(
            b.base_view(),
            b.joints_view(),
        ),
{
}

/// The shared contract of the three chain shapes: a pure end transform, an
/// angle vector read in traversal order with fixed joints skipped, and an
/// angle assignment that fails fast on a wrong length.
pub trait KinematicChain: Sized {
    /// The units of the chain, root first.
    spec fn joints_view(&self) -> Seq<LinkedJoint>;

    /// The base transform in front of the first unit.
    spec fn base_view(&self) -> Isometry;

    fn calc_end_transform(&self) -> (r: Isometry)
        ensures
            r == end_transform_spec(self.base_view(), self.joints_view()),
    ;

    fn set_joint_angles(&mut self, angles: &Vec<Real>) -> (r: Result<(), JointError>)
        ensures
            ({
                let s = old(self).joints_view();
                &&& (r == Err::<(), JointError>(JointError::SizeMisMatch) <==> angles@.len()
                    != angles_of(s).len())
                &&& (angles@.len() != angles_of(s).len() ==> final(self).joints_view() == s)
                &&& (angles@.len() == angles_of(s).len() ==> {
                    &&& (r is Ok <==> angles_ok_from(s, angles@))
                    &&& (!angles_ok_from(s, angles@) ==> r == Err::<(), JointError>(
                        JointError::OutOfLimit,
                    ))
                    &&& final(self).joints_view() == apply_angles_from(s, angles@)
                })
                &&& final(self).base_view() == old(self).base_view()
            }),
    ;

    fn get_joint_angles(&self) -> (r: Vec<Real>)
        ensures
            r@ == angles_of(self.joints_view()),
    ;
}

/// A serial chain: a base transform and units in order, root to tip.
pub struct LinkedFrame {
    pub name: String,
    pub linked_joints: Vec<LinkedJoint>,
    pub transform: Isometry,
}

impl LinkedFrame {
    pub fn new(name: &str, linked_joints: Vec<LinkedJoint>) -> (r: LinkedFrame)
        ensures
            r.name@ == name@,
            r.linked_joints == linked_joints,
            r.transform == iso_identity_spec(),
    {
        LinkedFrame { name: name.to_owned(), linked_joints, transform: Isometry::identity() }
    }

    pub fn len(&self) -> (r: usize)
        ensures
            r == self.linked_joints@.len(),
    {
        self.linked_joints.len()
    }

    /// The running compositions: element `i` is the pose after unit `i`.
    pub fn calc_link_transforms(&self) -> (r: Vec<Isometry>)
        ensures
            r@.len() == self.linked_joints@.len(),
            forall|i: int|
                0 <= i < r@.len() ==> r@[i] == end_transform_spec(
                    self.transform,
                    self.linked_joints@.take(i + 1),
                ),
    {
        let mut out: Vec<Isometry> = Vec::new();
        let mut base = self.transform;
        let n = self.linked_joints.len();
        let mut i: usize = 0;
        while i < n
            invariant
                n == self.linked_joints@.len(),
                0 <= i <= n,
                base == end_transform_spec(self.transform, self.linked_joints@.take(i as int)),
                out@.len() == i,
                forall|j: int|
                    0 <= j < i ==> out@[j] == end_transform_spec(
                        self.transform,
                        self.linked_joints@.take(j + 1),
                    ),
            decreases n - i,
        {
            base = base.mul(self.linked_joints[i].calc_transform());
            proof {
                lemma_take_step(self.linked_joints@, i as int);
            }
            out.push(base);
            i = i + 1;
        }
        out
    }
}

/// `take(i + 1)` is `take(i)` with element `i` on the end; unfolds the
/// recursive chain specs one step at a time.
pub proof fn lemma_take_step(s: Seq<LinkedJoint>, i: int)
    requires
        0 <= i < s.len(),
    ensures
        s.take(i + 1).drop_last() == s.take(i),
        s.take(i + 1).last() == s[i],
        forall|base: Isometry| #[trigger] end_transform_spec(base, s.take(i + 1)) == iso_mul_spec(
            end_transform_spec(base, s.take(i)),
            lj_transform_spec(s[i]),
        ),
{
    assert(s.take(i + 1).drop_last() =~= s.take(i));
}

impl KinematicChain for LinkedFrame {
    open spec fn joints_view(&self) -> Seq<LinkedJoint> {
        self.linked_joints@
    }

    open spec fn base_view(&self) -> Isometry {
        self.transform
    }

    fn calc_end_transform(&self) -> (r: Isometry)
        ensures
            r == end_transform_spec(self.base_view(), self.joints_view()),
    {
        let mut trans = self.transform;
        let n = self.linked_joints.len();
        let mut i: usize = 0;
        while i < n
            invariant
                n == self.linked_joints@.len(),
                0 <= i <= n,
                trans == end_transform_spec(self.transform, self.linked_joints@.take(i as int)),
            decreases n - i,
        {
            trans = trans.mul(self.linked_joints[i].calc_transform());
            proof {
                lemma_take_step(self.linked_joints@, i as int);
            }
            i = i + 1;
        }
        proof {
            assert(self.linked_joints@.take(n as int) =~= self.linked_joints@);
        }
        trans
    }

    fn set_joint_angles(&mut self, angles: &Vec<Real>) -> (r: Result<(), JointError>)
        ensures
            ({
                let s = old(self).joints_view();
                &&& (r == Err::<(), JointError>(JointError::SizeMisMatch) <==> angles@.len()
                    != angles_of(s).len())
                &&& (angles@.len() != angles_of(s).len() ==> final(self).joints_view() == s)
                &&& (angles@.len() == angles_of(s).len() ==> {
                    &&& (r is Ok <==> angles_ok_from(s, angles@))
                    &&& (!angles_ok_from(s, angles@) ==> r == Err::<(), JointError>(
                        JointError::OutOfLimit,
                    ))
                    &&& final(self).joints_view() == apply_angles_from(s, angles@)
                })
                &&& final(self).base_view() == old(self).base_view()
                &&& final(self).name == old(self).name
                &&& final(self).transform == old(self).transform
            }),
    {
        set_joint_angles_vec(&mut self.linked_joints, angles)
    }

    fn get_joint_angles(&self) -> (r: Vec<Real>)
        ensures
            r@ == angles_of(self.joints_view()),
    {
        get_joint_angles_vec(&self.linked_joints)
    }
}

/// Collects the angles of the non-fixed units in order.
pub fn get_joint_angles_vec(joints: &Vec<LinkedJoint>) -> (r: Vec<Real>)
    ensures
        r@ == angles_of(joints@),
{
    let mut out: Vec<Real> = Vec::new();
    let n = joints.len();
    let mut i: usize = 0;
    proof {
        assert(joints@.skip(0) =~= joints@);
        assert(out@ + angles_of(joints@) =~= angles_of(joints@));
    }
    while i < n
        invariant
            n == joints@.len(),
            0 <= i <= n,
            angles_of(joints@) == out@ + angles_of(joints@.skip(i as int)),
        decreases n - i,
    {
        proof {
            lemma_skip_step(joints@, i as int);
        }
        let ghost pre = out@;
        match joints[i].get_joint_angle() {
            Some(a) => {
                out.push(a);
                proof {
                    assert(pre + (seq![a] + angles_of(joints@.skip(i as int + 1))) =~= out@
                        + angles_of(joints@.skip(i as int + 1)));
                }
            },
            None => {},
        }
        i = i + 1;
    }
    proof {
        assert(angles_of(joints@.skip(n as int)) =~= Seq::<Real>::empty());
        assert(out@ + Seq::<Real>::empty() =~= out@);
    }
    out
}

/// Counts the non-fixed units: the chain's degrees of freedom.
pub fn count_dof(joints: &Vec<LinkedJoint>) -> (r: usize)
    ensures
        r == angles_of(joints@).len(),
{
    let mut count: usize = 0;
    let n = joints.len();
    let mut i: usize = 0;
    proof {
        assert(joints@.skip(0) =~= joints@);
    }
    while i < n
        invariant
            n == joints@.len(),
            0 <= i <= n,
            count + angles_of(joints@.skip(i as int)).len() == angles_of(joints@).len(),
            count <= i,
        decreases n - i,
    {
        proof {
            lemma_skip_step(joints@, i as int);
        }
        if joints[i].has_joint_angle() {
            count = count + 1;
        }
        i = i + 1;
    }
    proof {
        assert(angles_of(joints@.skip(n as int)) =~= Seq::<Real>::empty());
    }
    count
}

/// Assigns the angles front to back over the non-fixed units of the vector;
/// fails fast with `SizeMisMatch` before touching anything, and stops at the
/// first angle a joint rejects, leaving that joint and the rest unchanged.
pub fn set_joint_angles_vec(joints: &mut Vec<LinkedJoint>, angles: &Vec<Real>) -> (r: Result<
    (),
    JointError,
>)
    ensures
        ({
            let s = old(joints)@;
            &&& (r == Err::<(), JointError>(JointError::SizeMisMatch) <==> angles@.len()
                != angles_of(s).len())
            &&& (angles@.len() != angles_of(s).len() ==> final(joints)@ == s)
            &&& (angles@.len() == angles_of(s).len() ==> {
                &&& (r is Ok <==> angles_ok_from(s, angles@))
                &&& (!angles_ok_from(s, angles@) ==> r == Err::<(), JointError>(
                    JointError::OutOfLimit,
                ))
                &&& final(joints)@ == apply_angles_from(s, angles@)
            })
        }),
{
    let ghost s = joints@;
    let dof = count_dof(joints);
    if angles.len() != dof {
        return Err(JointError::SizeMisMatch);
    }
    let n = joints.len();
    let mut i: usize = 0;
    let mut k: usize = 0;
    proof {
        assert(s.skip(0) =~= s);
        assert(angles@.skip(0) =~= angles@);
        assert(joints@.take(0) + apply_angles_from(s, angles@) =~= apply_angles_from(s, angles@));
    }
    while i < n
        invariant
            s == old(joints)@,
            n == joints@.len(),
            s.len() == n,
            angles@.len() == angles_of(s).len(),
            0 <= i <= n,
            0 <= k <= angles@.len(),
            joints@.skip(i as int) == s.skip(i as int),
            joints@.take(i as int).len() == i,
            angles_ok_from(s, angles@) == angles_ok_from(s.skip(i as int), angles@.skip(k as int)),
            apply_angles_from(s, angles@) == joints@.take(i as int) + apply_angles_from(
                s.skip(i as int),
                angles@.skip(k as int),
            ),
        decreases n - i,
    {
        proof {
            lemma_skip_step(s, i as int);
            assert(joints@.skip(i as int)[0] == joints@[i as int]);
            assert(joints@[i as int] == s[i as int]);
        }
        let mut lj = joints[i].clone();
        let ghost pre = joints@;
        if lj.has_joint_angle() {
            proof {
                if k >= angles@.len() {
                    // a non-fixed unit with no angle left cannot happen:
                    // the length check matched the count of such units
                    assert(angles@.skip(k as int).len() == 0);
                    assert(!angles_ok_from(s.skip(i as int), angles@.skip(k as int)));
                    assert(apply_angles_from(s.skip(i as int), angles@.skip(k as int)) == s.skip(
                        i as int,
                    ));
                }
            }
            if k >= angles.len() {
                // never taken when the length check matched the count of
                // non-fixed units; the rejected assignment leaves all as is
                proof {
                    assert(joints@.take(i as int) + s.skip(i as int) =~= joints@);
                }
                return Err(JointError::OutOfLimit);
            }
            let res = lj.set_joint_angle(angles[k]);
            match res {
                Ok(()) => {
                    joints.set(i, lj);
                    proof {
                        assert(joints@.take(i as int + 1) =~= pre.take(i as int).push(
                            with_angle_spec(s[i as int], angles@[k as int]),
                        ));
                        assert(joints@.take(i as int) =~= pre.take(i as int));
                        assert(joints@.skip(i as int + 1) =~= s.skip(i as int + 1));
                        lemma_skip_index(angles@, k as int);
                        assert(joints@.take(i as int + 1) + apply_angles_from(
                            s.skip(i as int + 1),
                            angles@.skip(k as int + 1),
                        ) =~= joints@.take(i as int) + (seq![
                            with_angle_spec(s[i as int], angles@[k as int]),
                        ] + apply_angles_from(s.skip(i as int + 1), angles@.skip(k as int + 1))));
                    }
                    k = k + 1;
                },
                Err(e) => {
                    proof {
                        lemma_skip_index(angles@, k as int);
                        assert(!angles_ok_from(s.skip(i as int), angles@.skip(k as int)));
                        assert(apply_angles_from(s.skip(i as int), angles@.skip(k as int)) == s.skip(
                            i as int,
                        ));
                        assert(joints@.take(i as int) + s.skip(i as int) =~= joints@);
                    }
                    return Err(e);
                },
            }
        } else {
            joints.set(i, lj);
            proof {
                assert(joints@ =~= pre);
                assert(joints@.take(i as int + 1) =~= joints@.take(i as int).push(s[i as int]));
                assert(joints@.skip(i as int + 1) =~= s.skip(i as int + 1));
                assert(joints@.take(i as int + 1) + apply_angles_from(
                    s.skip(i as int + 1),
                    angles@.skip(k as int),
                ) =~= joints@.take(i as int) + (seq![s[i as int]] + apply_angles_from(
                    s.skip(i as int + 1),
                    angles@.skip(k as int),
                )));
            }
        }
        i = i + 1;
    }
    proof {
        assert(s.skip(n as int).len() == 0);
        assert(angles_ok_from(s.skip(n as int), angles@.skip(k as int)));
        assert(apply_angles_from(s.skip(n as int), angles@.skip(k as int)) =~= s.skip(n as int));
        assert(joints@.take(n as int) + s.skip(n as int) =~= joints@);
    }
    Ok(())
}

/// `skip(i)` starts with element `i` and continues as `skip(i + 1)`.
proof fn lemma_skip_step(s: Seq<LinkedJoint>, i: int)
    requires
        0 <= i < s.len(),
    ensures
        s.skip(i).len() == s.len() - i,
        s.skip(i)[0] == s[i],
        s.skip(i).subrange(1, s.skip(i).len() as int) == s.skip(i + 1),
{
    assert(s.skip(i).subrange(1, s.skip(i).len() as int) =~= s.skip(i + 1));
}

/// The same single step for a sequence of angles.
proof fn lemma_skip_index(a: Seq<Real>, k: int)
    requires
        0 <= k < a.len(),
    ensures
        a.skip(k)[0] == a[k],
        a.skip(k).subrange(1, a.skip(k).len() as int) == a.skip(k + 1),
        a.skip(k).len() == a.len() - k,
{
    assert(a.skip(k).subrange(1, a.skip(k).len() as int) =~= a.skip(k + 1));
}

/// A star: several serial chains sharing one base transform; branching
/// happens only at the root.
pub struct RobotFrame {
    pub name: String,
    pub frames: Vec<LinkedFrame>,
    pub transform: Isometry,
}

impl RobotFrame {
    pub fn new(name: &str, frames: Vec<LinkedFrame>) -> (r: RobotFrame)
        ensures
            r.name@ == name@,
            r.frames == frames,
            r.transform == iso_identity_spec(),
    {
        RobotFrame { name: name.to_owned(), frames, transform: Isometry::identity() }
    }

    /// The running compositions of every chain, each behind the shared base.
    pub fn calc_link_transforms(&self) -> (r: Vec<Vec<Isometry>>)
        ensures
            r@.len() == self.frames@.len(),
            forall|f: int|
                0 <= f < r@.len() ==> {
                    &&& r@[f]@.len() == self.frames@[f].linked_joints@.len()
                    &&& forall|i: int|
                        0 <= i < r@[f]@.len() ==> r@[f]@[i] == iso_mul_spec(
                            self.transform,
                            end_transform_spec(
                                self.frames@[f].transform,
                                self.frames@[f].linked_joints@.take(i + 1),
                            ),
                        )
                },
    {
        let mut out: Vec<Vec<Isometry>> = Vec::new();
        let nf = self.frames.len();
        let mut f: usize = 0;
        while f < nf
            invariant
                nf == self.frames@.len(),
                0 <= f <= nf,
                out@.len() == f,
                forall|g: int|
                    0 <= g < f ==> {
                        &&& out@[g]@.len() == self.frames@[g].linked_joints@.len()
                        &&& forall|i: int|
                            0 <= i < out@[g]@.len() ==> out@[g]@[i] == iso_mul_spec(
                                self.transform,
                                end_transform_spec(
                                    self.frames@[g].transform,
                                    self.frames@[g].linked_joints@.take(i + 1),
                                ),
                            )
                    },
            decreases nf - f,
        {
            let inner = self.frames[f].calc_link_transforms();
            let mut shifted: Vec<Isometry> = Vec::new();
            let ni = inner.len();
            let mut i: usize = 0;
            while i < ni
                invariant
                    ni == inner@.len(),
                    0 <= i <= ni,
                    shifted@.len() == i,
                    inner@.len() == self.frames@[f as int].linked_joints@.len(),
                    forall|j: int|
                        0 <= j < inner@.len() ==> inner@[j] == end_transform_spec(
                            self.frames@[f as int].transform,
                            self.frames@[f as int].linked_joints@.take(j + 1),
                        ),
                    forall|j: int|
                        0 <= j < i ==> shifted@[j] == iso_mul_spec(
                            self.transform,
                            end_transform_spec(
                                self.frames@[f as int].transform,
                                self.frames@[f as int].linked_joints@.take(j + 1),
                            ),
                        ),
                    f < nf,
                decreases ni - i,
            {
                shifted.push(self.transform.mul(inner[i]));
                i = i + 1;
            }
            out.push(shifted);
            f = f + 1;
        }
        out
    }

    pub fn set_transform(&mut self, transform: Isometry)
        ensures
            *final(self) == (RobotFrame { transform, ..*old(self) }),
    {
        self.transform = transform;
    }

    pub fn get_transform(&self) -> (r: Isometry)
        ensures
            r == self.transform,
    {
        self.transform
    }
}

} // verus!
